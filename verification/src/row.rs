use vstd::prelude::*;

use crate::errors::Error;
use crate::field::{
    spec_field_eq, spec_field_serialize, spec_field_size, spec_field_type, DataType, Field,
    FieldView,
};
use crate::schema::{spec_text_count_prefix, Column, Table};
use crate::tuple::Tuple;

verus! {

/// An ordered list of field values matching a schema's arity.
#[derive(Debug)]
pub struct Row {
    values: Vec<Field>,
}

impl View for Row {
    type V = Seq<FieldView>;

    closed spec fn view(&self) -> Seq<FieldView> {
        Seq::new(self.values@.len(), |i: int| self.values@[i]@)
    }
}

impl Clone for Row {
    fn clone(&self) -> (r: Row)
        ensures
            r@ == self@,
    {
        let values = self.values.clone();
        proof {
            assert forall|i: int| 0 <= i < self.values@.len() implies values@[i]@
                == self.values@[i]@ by {
                assert(vstd::pervasive::cloned::<Field>(self.values@[i], values@[i]));
            }
            assert(Row { values }@ =~= self@);
        }
        Row { values }
    }
}

/// Row equality: the same number of fields, equal pairwise as field values.
pub open spec fn spec_row_eq(a: Seq<FieldView>, b: Seq<FieldView>) -> bool {
    a.len() == b.len() && forall|i: int| 0 <= i < a.len() ==> spec_field_eq(a[i], b[i])
}

impl PartialEq for Row {
    fn eq(&self, other: &Row) -> (r: bool) {
        let n = self.values.len();
        if n != other.values.len() {
            return false;
        }
        let mut i: usize = 0;
        while i < n
            invariant
                n == self@.len(),
                n == other@.len(),
                i <= n,
                forall|j: int| 0 <= j < i ==> spec_field_eq(self@[j], other@[j]),
            decreases n - i,
        {
            if !(self.values[i] == other.values[i]) {
                proof {
                    assert(!spec_field_eq(self@[i as int], other@[i as int]));
                }
                return false;
            }
            i = i + 1;
        }
        true
    }
}

impl Eq for Row {

}

impl vstd::std_specs::cmp::PartialEqSpecImpl for Row {
    open spec fn obeys_eq_spec() -> bool {
        true
    }

    open spec fn eq_spec(&self, other: &Row) -> bool {
        spec_row_eq(self@, other@)
    }
}

impl From<Vec<Field>> for Row {
    fn from(v: Vec<Field>) -> (r: Row)
        ensures
            r@ == Seq::new(v@.len(), |i: int| v@[i]@),
    {
        Row { values: v }
    }
}

impl vstd::std_specs::convert::FromSpecImpl<Vec<Field>> for Row {
    open spec fn obeys_from_spec() -> bool {
        false
    }

    open spec fn from_spec(v: Vec<Field>) -> Row {
        arbitrary()
    }
}

impl Row {
    /// A row from its field values.
    pub fn new(values: Vec<Field>) -> (r: Row)
        ensures
            r@ == Seq::new(values@.len(), |i: int| values@[i]@),
    {
        Row { values }
    }

    /// The number of fields.
    pub fn size(&self) -> (r: usize)
        ensures
            r == self@.len(),
    {
        self.values.len()
    }

    /// A copy of the field at the given position, or an error past the end.
    pub fn get_field(&self, index: usize) -> (r: Result<Field, Error>)
        ensures
            index < self@.len() ==> (r matches Ok(f) && f@ == self@[index as int]),
            index >= self@.len() ==> r == Err::<Field, Error>(Error::OutOfBounds),
    {
        if index < self.values.len() {
            Ok(self.values[index].clone())
        } else {
            Err(Error::OutOfBounds)
        }
    }

    /// A reference to the field at the given position.
    pub fn field_at(&self, index: usize) -> (r: &Field)
        requires
            index < self@.len(),
        ensures
            r@ == self@[index as int],
    {
        &self.values[index]
    }

    /// Replaces the field at the given position; the new value must have
    /// the same type as the old one, and the position must be in range.
    pub fn update_field(&mut self, index: usize, new: Field) -> (r: Result<(), Error>)
        ensures
            r is Ok <==> index < old(self)@.len() && spec_field_type(new@) == spec_field_type(
                old(self)@[index as int],
            ),
            r is Ok ==> final(self)@ =~= old(self)@.update(index as int, new@),
            r is Err ==> final(self)@ == old(self)@,
            index >= old(self)@.len() ==> r == Err::<(), Error>(Error::OutOfBounds),
            index < old(self)@.len() && spec_field_type(new@) != spec_field_type(
                old(self)@[index as int],
            ) ==> (r matches Err(e) && e is InvalidInput),
    {
        if index >= self.values.len() {
            return Err(Error::OutOfBounds);
        }
        if self.values[index].get_type() == new.get_type() {
            let ghost before = self@;
            self.values.set(index, new);
            proof {
                assert(self@ =~= before.update(index as int, new@));
            }
            Ok(())
        } else {
            Err(Error::InvalidInput("replacement field has a different type".to_string()))
        }
    }
}

/// Total byte length of the text fields among the first `n` columns.
pub open spec fn spec_text_len_prefix(vals: Seq<FieldView>, cols: Seq<Column>, n: int) -> int
    decreases n,
{
    if n <= 0 {
        0
    } else {
        spec_text_len_prefix(vals, cols, n - 1) + (if cols[n - 1].data_type is Text {
            spec_field_size(vals[n - 1])
        } else {
            0int
        })
    }
}

/// The fixed-field region of a serialized row: the serialized bytes of the
/// fixed-width fields among the first `n` columns, in column order.
pub open spec fn spec_fixed_bytes(vals: Seq<FieldView>, cols: Seq<Column>, n: int) -> Seq<u8>
    decreases n,
{
    if n <= 0 {
        Seq::empty()
    } else {
        spec_fixed_bytes(vals, cols, n - 1) + (if cols[n - 1].data_type is Text {
            Seq::<u8>::empty()
        } else {
            spec_field_serialize(vals[n - 1])
        })
    }
}

/// The variable region of a serialized row: the serialized bytes of the
/// text fields among the first `n` columns, in column order.
pub open spec fn spec_text_bytes(vals: Seq<FieldView>, cols: Seq<Column>, n: int) -> Seq<u8>
    decreases n,
{
    if n <= 0 {
        Seq::empty()
    } else {
        spec_text_bytes(vals, cols, n - 1) + (if cols[n - 1].data_type is Text {
            spec_field_serialize(vals[n - 1])
        } else {
            Seq::<u8>::empty()
        })
    }
}

/// The offset table of a serialized row: for each text column among the
/// first `n`, the two little-endian bytes of the absolute offset at which
/// that field's payload starts.
pub open spec fn spec_offset_table(
    vals: Seq<FieldView>,
    cols: Seq<Column>,
    n: int,
    base: int,
) -> Seq<u8>
    decreases n,
{
    if n <= 0 {
        Seq::empty()
    } else {
        spec_offset_table(vals, cols, n - 1, base) + (if cols[n - 1].data_type is Text {
            vstd::bytes::spec_u16_to_le_bytes(
                (base + spec_text_len_prefix(vals, cols, n - 1)) as u16,
            )
        } else {
            Seq::<u8>::empty()
        })
    }
}

/// Whether a row matches a schema: one field per column, of exactly the
/// column's type.
pub open spec fn spec_row_conforms(vals: Seq<FieldView>, cols: Seq<Column>) -> bool {
    &&& vals.len() == cols.len()
    &&& forall|i: int|
        0 <= i < cols.len() ==> spec_field_type(#[trigger] vals[i]) == cols[i].data_type
    &&& forall|i: int| 0 <= i < cols.len() ==> !((#[trigger] cols[i]).data_type is Invalid)
}

/// Total byte length of a serialized row: the offset table, the fixed
/// region, and the text region.
pub open spec fn spec_row_total(vals: Seq<FieldView>, cols: Seq<Column>) -> int {
    2 * spec_text_count_prefix(cols, cols.len() as int) + crate::schema::spec_fixed_size_prefix(
        cols,
        cols.len() as int,
    ) + spec_text_len_prefix(vals, cols, cols.len() as int)
}

/// The serialized bytes of a row under a schema.
pub open spec fn spec_row_serialize(vals: Seq<FieldView>, cols: Seq<Column>) -> Seq<u8> {
    let base = 2 * spec_text_count_prefix(cols, cols.len() as int)
        + crate::schema::spec_fixed_size_prefix(cols, cols.len() as int);
    spec_offset_table(vals, cols, cols.len() as int, base) + spec_fixed_bytes(
        vals,
        cols,
        cols.len() as int,
    ) + spec_text_bytes(vals, cols, cols.len() as int)
}

/// Prefix sums of text byte length are never negative.
pub proof fn lemma_text_len_nonneg(vals: Seq<FieldView>, cols: Seq<Column>, n: int)
    ensures
        spec_text_len_prefix(vals, cols, n) >= 0,
    decreases n,
{
    if n > 0 {
        lemma_text_len_nonneg(vals, cols, n - 1);
    }
}

/// Prefix sums of text byte length are monotonic in the prefix length.
pub proof fn lemma_text_len_monotonic(vals: Seq<FieldView>, cols: Seq<Column>, a: int, b: int)
    requires
        a <= b,
    ensures
        spec_text_len_prefix(vals, cols, a) <= spec_text_len_prefix(vals, cols, b),
    decreases b - a,
{
    if a < b {
        lemma_text_len_monotonic(vals, cols, a, b - 1);
    }
}

} // verus!

verus! {

/// The fixed region of a conforming row is as wide as the schema's fixed
/// field region.
pub proof fn lemma_fixed_bytes_len(vals: Seq<FieldView>, cols: Seq<Column>, n: int)
    requires
        spec_row_conforms(vals, cols),
        n <= cols.len(),
    ensures
        spec_fixed_bytes(vals, cols, n).len() == crate::schema::spec_fixed_size_prefix(cols, n),
    decreases n,
{
    if n > 0 {
        lemma_fixed_bytes_len(vals, cols, n - 1);
        vstd::bytes::lemma_auto_spec_u32_to_from_le_bytes();
    }
}

/// The text region of a conforming row is as long as the text fields
/// together.
pub proof fn lemma_text_bytes_len(vals: Seq<FieldView>, cols: Seq<Column>, n: int)
    requires
        spec_row_conforms(vals, cols),
        n <= cols.len(),
    ensures
        spec_text_bytes(vals, cols, n).len() == spec_text_len_prefix(vals, cols, n),
    decreases n,
{
    if n > 0 {
        lemma_text_bytes_len(vals, cols, n - 1);
    }
}

/// The offset table holds two bytes for each text column.
pub proof fn lemma_offset_table_len(vals: Seq<FieldView>, cols: Seq<Column>, n: int, base: int)
    ensures
        spec_offset_table(vals, cols, n, base).len() == 2 * spec_text_count_prefix(cols, n),
    decreases n,
{
    if n > 0 {
        lemma_offset_table_len(vals, cols, n - 1, base);
        vstd::bytes::lemma_auto_spec_u16_to_from_le_bytes();
    }
}

impl Row {
    /// Serializes the row under the given schema: a table of two-byte
    /// absolute offsets, one per text column; then the fixed-width fields
    /// at their stored offsets; then the text payloads in column order.
    pub fn serialize(&self, schema: &Table) -> (r: Result<Vec<u8>, Error>)
        requires
            schema.wf(),
            spec_row_conforms(self@, schema.columns@),
            spec_row_total(self@, schema.columns@) <= u16::MAX,
        ensures
            r matches Ok(v) && v@ == spec_row_serialize(self@, schema.columns@),
    {
        let ghost vals = self@;
        let ghost cols = schema.columns@;
        let n = schema.col_count();
        let vcount = schema.variable_length_fields();
        proof {
            lemma_text_len_nonneg(vals, cols, n as int);
            crate::schema::lemma_fixed_size_monotonic(cols, 0, n as int);
            crate::schema::lemma_text_count_bound(cols, n as int);
        }
        let header: u16 = (2 * vcount) as u16;
        let base: u16 = header + schema.fixed_field_size_bytes();
        let mut out: Vec<u8> = Vec::new();
        let mut acc: u16 = 0;
        let mut i: usize = 0;
        proof {
            assert(out@ =~= spec_offset_table(vals, cols, 0, base as int));
        }
        while i < n
            invariant
                schema.wf(),
                spec_row_conforms(vals, cols),
                spec_row_total(vals, cols) <= u16::MAX,
                vals == self@,
                cols == schema.columns@,
                n == cols.len(),
                i <= n,
                base == 2 * spec_text_count_prefix(cols, n as int)
                    + crate::schema::spec_fixed_size_prefix(cols, n as int),
                acc == spec_text_len_prefix(vals, cols, i as int),
                out@ == spec_offset_table(vals, cols, i as int, base as int),
            decreases n - i,
        {
            proof {
                lemma_text_len_nonneg(vals, cols, i as int);
                lemma_text_len_monotonic(vals, cols, i as int + 1, n as int);
            }
            if schema.get_field_type(i) == DataType::Text {
                let off: u16 = base + acc;
                let mut obytes = vstd::bytes::u16_to_le_bytes(off);
                out.append(&mut obytes);
                let sz = self.field_at(i).get_size();
                acc = acc + sz;
                proof {
                    assert(out@ =~= spec_offset_table(vals, cols, i as int + 1, base as int));
                }
            } else {
                proof {
                    assert(out@ + Seq::<u8>::empty() =~= out@);
                    assert(out@ =~= spec_offset_table(vals, cols, i as int + 1, base as int));
                }
            }
            i = i + 1;
        }
        let ghost table = spec_offset_table(vals, cols, n as int, base as int);
        let mut i: usize = 0;
        proof {
            assert(out@ =~= table + spec_fixed_bytes(vals, cols, 0));
        }
        while i < n
            invariant
                spec_row_conforms(vals, cols),
                vals == self@,
                cols == schema.columns@,
                n == cols.len(),
                i <= n,
                out@ == table + spec_fixed_bytes(vals, cols, i as int),
            decreases n - i,
        {
            if schema.get_field_type(i) == DataType::Text {
                proof {
                    assert(spec_fixed_bytes(vals, cols, i as int) + Seq::<u8>::empty()
                        =~= spec_fixed_bytes(vals, cols, i as int));
                    assert(out@ =~= table + spec_fixed_bytes(vals, cols, i as int + 1));
                }
            } else {
                let mut fbytes = self.field_at(i).serialize();
                out.append(&mut fbytes);
                proof {
                    assert(out@ =~= table + spec_fixed_bytes(vals, cols, i as int + 1));
                }
            }
            i = i + 1;
        }
        let ghost fixed = spec_fixed_bytes(vals, cols, n as int);
        let mut i: usize = 0;
        proof {
            assert(out@ =~= (table + fixed) + spec_text_bytes(vals, cols, 0));
        }
        while i < n
            invariant
                spec_row_conforms(vals, cols),
                vals == self@,
                cols == schema.columns@,
                n == cols.len(),
                i <= n,
                out@ == (table + fixed) + spec_text_bytes(vals, cols, i as int),
            decreases n - i,
        {
            if schema.get_field_type(i) == DataType::Text {
                let mut tbytes = self.field_at(i).serialize();
                out.append(&mut tbytes);
                proof {
                    assert(out@ =~= (table + fixed) + spec_text_bytes(vals, cols, i as int + 1));
                }
            } else {
                proof {
                    assert(spec_text_bytes(vals, cols, i as int) + Seq::<u8>::empty()
                        =~= spec_text_bytes(vals, cols, i as int));
                    assert(out@ =~= (table + fixed) + spec_text_bytes(vals, cols, i as int + 1));
                }
            }
            i = i + 1;
        }
        proof {
            assert(out@ =~= spec_row_serialize(vals, cols));
        }
        Ok(out)
    }

    /// Serializes the row into a tuple.
    pub fn to_tuple(&self, schema: &Table) -> (r: Result<Tuple, Error>)
        requires
            schema.wf(),
            spec_row_conforms(self@, schema.columns@),
            spec_row_total(self@, schema.columns@) <= u16::MAX,
        ensures
            r matches Ok(t) && t@ == spec_row_serialize(self@, schema.columns@),
    {
        match self.serialize(schema) {
            Ok(v) => Ok(Tuple { data: v }),
            Err(e) => Err(e),
        }
    }
}

} // verus!

verus! {

/// The `k`-th entry of the offset table at the head of a serialized row.
pub open spec fn spec_text_start(bytes: Seq<u8>, k: int) -> int {
    vstd::bytes::spec_u16_from_le_bytes(bytes.subrange(2 * k, 2 * k + 2)) as int
}

/// Where the `k`-th text payload ends: at the next payload's start, or at
/// the end of the buffer for the last text column.
pub open spec fn spec_text_end(bytes: Seq<u8>, k: int, vcount: int) -> int {
    if k == vcount - 1 {
        bytes.len() as int
    } else {
        spec_text_start(bytes, k + 1)
    }
}

/// Whether a buffer can be read back as a row of the given columns: it
/// covers the offset table and the fixed region, its text ranges are
/// ordered and in bounds, and each text range holds valid UTF-8.
pub open spec fn spec_row_parses(bytes: Seq<u8>, cols: Seq<Column>) -> bool {
    let vcount = spec_text_count_prefix(cols, cols.len() as int);
    &&& bytes.len() >= 2 * vcount + crate::schema::spec_fixed_size_prefix(
        cols,
        cols.len() as int,
    )
    &&& forall|k: int|
        0 <= k < vcount ==> 0 <= #[trigger] spec_text_start(bytes, k) <= spec_text_end(
            bytes,
            k,
            vcount,
        ) <= bytes.len()
    &&& forall|k: int|
        0 <= k < vcount ==> vstd::utf8::valid_utf8(
            bytes.subrange(#[trigger] spec_text_start(bytes, k), spec_text_end(bytes, k, vcount)),
        )
}

/// The row read back from a serialized buffer: each text column's payload
/// comes from its offset-table range, each fixed-width column's from its
/// stored offset past the table.
pub open spec fn spec_row_extract(bytes: Seq<u8>, cols: Seq<Column>) -> Seq<FieldView> {
    let vcount = spec_text_count_prefix(cols, cols.len() as int);
    Seq::new(
        cols.len(),
        |i: int|
            {
                if cols[i].data_type is Text {
                    let k = cols[i].stored_offset as int;
                    FieldView::Text(
                        vstd::utf8::decode_utf8(
                            bytes.subrange(
                                spec_text_start(bytes, k),
                                spec_text_end(bytes, k, vcount),
                            ),
                        ),
                    )
                } else {
                    let start = 2 * vcount + cols[i].stored_offset;
                    crate::field::spec_field_deserialize(
                        bytes.subrange(
                            start,
                            start + crate::field::spec_length_bytes(cols[i].data_type),
                        ),
                        cols[i].data_type,
                    )
                }
            },
    )
}

/// The text-column count grows with the prefix.
pub proof fn lemma_text_count_monotonic(cols: Seq<Column>, a: int, b: int)
    requires
        a <= b,
    ensures
        spec_text_count_prefix(cols, a) <= spec_text_count_prefix(cols, b),
    decreases b - a,
{
    if a < b {
        lemma_text_count_monotonic(cols, a, b - 1);
    }
}

impl Row {
    /// Reads a row back from a serialized buffer under its schema.
    pub fn deserialize(bytes: Vec<u8>, schema: &Table) -> (r: Row)
        requires
            schema.wf(),
            spec_row_parses(bytes@, schema.columns@),
        ensures
            r@ == spec_row_extract(bytes@, schema.columns@),
    {
        let ghost cols = schema.columns@;
        let n = schema.col_count();
        let vcount = schema.variable_length_fields();
        let ghost gv = spec_text_count_prefix(cols, cols.len() as int);
        proof {
            crate::schema::lemma_fixed_size_monotonic(cols, 0, n as int);
        }
        let blen = bytes.len();
        let mut offsets: Vec<u16> = Vec::new();
        let mut k: usize = 0;
        while k < vcount
            invariant
                gv == spec_text_count_prefix(cols, cols.len() as int),
                cols == schema.columns@,
                vcount == gv,
                blen == bytes@.len(),
                blen >= 2 * gv,
                k <= vcount,
                offsets@.len() == k,
                forall|j: int|
                    0 <= j < k ==> (#[trigger] offsets@[j]) as int == spec_text_start(bytes@, j),
            decreases vcount - k,
        {
            let piece = vstd::slice::slice_subrange(bytes.as_slice(), 2 * k, 2 * k + 2);
            let off = vstd::bytes::u16_from_le_bytes(piece);
            offsets.push(off);
            k = k + 1;
        }
        let mut values: Vec<Field> = Vec::new();
        let mut i: usize = 0;
        while i < n
            invariant
                schema.wf(),
                spec_row_parses(bytes@, cols),
                cols == schema.columns@,
                gv == spec_text_count_prefix(cols, cols.len() as int),
                vcount == gv,
                n == cols.len(),
                i <= n,
                blen == bytes@.len(),
                offsets@.len() == vcount,
                forall|j: int|
                    0 <= j < vcount ==> (#[trigger] offsets@[j]) as int == spec_text_start(
                        bytes@,
                        j,
                    ),
                values@.len() == i,
                forall|j: int|
                    0 <= j < i ==> (#[trigger] values@[j])@ == spec_row_extract(bytes@, cols)[j],
            decreases n - i,
        {
            let column = schema.get_column(i);
            let dt = column.get_data_type();
            if dt == DataType::Text {
                proof {
                    crate::schema::lemma_text_count_bound(cols, i as int);
                    lemma_text_count_monotonic(cols, i as int + 1, n as int);
                }
                let k = column.stored_offset() as usize;
                let start = offsets[k] as usize;
                let end = if k + 1 == vcount {
                    bytes.len()
                } else {
                    offsets[k + 1] as usize
                };
                let payload = vstd::slice::slice_subrange(bytes.as_slice(), start, end);
                let f = Field::deserialize(payload, DataType::Text);
                values.push(f);
            } else {
                proof {
                    crate::schema::lemma_fixed_size_monotonic(cols, i as int + 1, n as int);
                }
                let start = 2 * vcount + column.stored_offset() as usize;
                let width = dt.length_bytes() as usize;
                let payload = vstd::slice::slice_subrange(bytes.as_slice(), start, start + width);
                let f = Field::deserialize(payload, dt);
                values.push(f);
            }
            i = i + 1;
        }
        let r = Row { values };
        proof {
            assert(r@ =~= spec_row_extract(bytes@, cols));
        }
        r
    }

    /// Reads a row back from a tuple under its schema.
    pub fn from_tuple(tuple: Tuple, schema: &Table) -> (r: Result<Row, Error>)
        requires
            schema.wf(),
            spec_row_parses(tuple@, schema.columns@),
        ensures
            r matches Ok(row) && row@ == spec_row_extract(tuple@, schema.columns@),
    {
        Ok(Row::deserialize(tuple.data, schema))
    }
}

} // verus!

verus! {

/// Columns with no text column between them leave the text byte count
/// unchanged.
proof fn lemma_textlen_const(vals: Seq<FieldView>, cols: Seq<Column>, a: int, b: int)
    requires
        0 <= a <= b <= cols.len(),
        spec_text_count_prefix(cols, a) == spec_text_count_prefix(cols, b),
    ensures
        spec_text_len_prefix(vals, cols, a) == spec_text_len_prefix(vals, cols, b),
    decreases b - a,
{
    if a < b {
        lemma_text_count_monotonic(cols, a, b - 1);
        lemma_textlen_const(vals, cols, a, b - 1);
    }
}

/// Somewhere in `[a, b)` stands the text column with ordinal `k`, whenever
/// the ordinal counts bracket `k`.
proof fn lemma_find_text(cols: Seq<Column>, a: int, b: int, k: int) -> (j: int)
    requires
        0 <= a <= b <= cols.len(),
        spec_text_count_prefix(cols, a) <= k < spec_text_count_prefix(cols, b),
    ensures
        a <= j < b,
        cols[j].data_type is Text,
        spec_text_count_prefix(cols, j) == k,
    decreases b - a,
{
    lemma_text_count_monotonic(cols, a, b - 1);
    if cols[b - 1].data_type is Text && spec_text_count_prefix(cols, b - 1) == k {
        b - 1
    } else {
        lemma_find_text(cols, a, b - 1, k)
    }
}

/// A slice taken entirely inside the left part of a concatenation.
proof fn lemma_subrange_left(a: Seq<u8>, b: Seq<u8>, x: int, y: int)
    requires
        0 <= x <= y <= a.len(),
    ensures
        (a + b).subrange(x, y) == a.subrange(x, y),
{
    assert((a + b).subrange(x, y) =~= a.subrange(x, y));
}

/// The offset-table bytes for the text column at index `i`.
proof fn lemma_offset_entry(vals: Seq<FieldView>, cols: Seq<Column>, n: int, base: int, i: int)
    requires
        0 <= i < n <= cols.len(),
        cols[i].data_type is Text,
    ensures
        spec_offset_table(vals, cols, n, base).subrange(
            2 * spec_text_count_prefix(cols, i),
            2 * spec_text_count_prefix(cols, i) + 2,
        ) == vstd::bytes::spec_u16_to_le_bytes(
            (base + spec_text_len_prefix(vals, cols, i)) as u16,
        ),
    decreases n,
{
    lemma_offset_table_len(vals, cols, n - 1, base);
    vstd::bytes::lemma_auto_spec_u16_to_from_le_bytes();
    if i == n - 1 {
        let pre = spec_offset_table(vals, cols, n - 1, base);
        let entry = vstd::bytes::spec_u16_to_le_bytes(
            (base + spec_text_len_prefix(vals, cols, i)) as u16,
        );
        assert((pre + entry).subrange(pre.len() as int, pre.len() + 2int) =~= entry);
    } else {
        lemma_offset_entry(vals, cols, n - 1, base, i);
        crate::schema::lemma_text_count_bound(cols, i);
        assert(spec_text_count_prefix(cols, i + 1) == spec_text_count_prefix(cols, i) + 1);
        lemma_text_count_monotonic(cols, i + 1, n - 1);
        let pre = spec_offset_table(vals, cols, n - 1, base);
        let tail = if cols[n - 1].data_type is Text {
            vstd::bytes::spec_u16_to_le_bytes(
                (base + spec_text_len_prefix(vals, cols, n - 1)) as u16,
            )
        } else {
            Seq::<u8>::empty()
        };
        lemma_subrange_left(
            pre,
            tail,
            2 * spec_text_count_prefix(cols, i),
            2 * spec_text_count_prefix(cols, i) + 2,
        );
        assert(spec_offset_table(vals, cols, n, base) =~= pre + tail);
    }
}

/// The fixed-region bytes of the fixed-width column at index `i`.
proof fn lemma_fixed_slice(vals: Seq<FieldView>, cols: Seq<Column>, n: int, i: int)
    requires
        spec_row_conforms(vals, cols),
        0 <= i < n <= cols.len(),
        !(cols[i].data_type is Text),
    ensures
        spec_fixed_bytes(vals, cols, n).subrange(
            crate::schema::spec_fixed_size_prefix(cols, i),
            crate::schema::spec_fixed_size_prefix(cols, i) + crate::field::spec_length_bytes(
                cols[i].data_type,
            ),
        ) == spec_field_serialize(vals[i]),
    decreases n,
{
    lemma_fixed_bytes_len(vals, cols, n - 1);
    crate::schema::lemma_fixed_size_monotonic(cols, 0, i);
    vstd::bytes::lemma_auto_spec_u32_to_from_le_bytes();
    if i == n - 1 {
        let pre = spec_fixed_bytes(vals, cols, n - 1);
        let entry = spec_field_serialize(vals[i]);
        assert((pre + entry).subrange(pre.len() as int, pre.len() as int + entry.len() as int) =~= entry);
        assert(entry.len() == crate::field::spec_length_bytes(cols[i].data_type));
    } else {
        lemma_fixed_slice(vals, cols, n - 1, i);
        crate::schema::lemma_fixed_size_monotonic(cols, i + 1, n - 1);
        let pre = spec_fixed_bytes(vals, cols, n - 1);
        let tail = if cols[n - 1].data_type is Text {
            Seq::<u8>::empty()
        } else {
            spec_field_serialize(vals[n - 1])
        };
        lemma_subrange_left(
            pre,
            tail,
            crate::schema::spec_fixed_size_prefix(cols, i),
            crate::schema::spec_fixed_size_prefix(cols, i) + crate::field::spec_length_bytes(
                cols[i].data_type,
            ),
        );
        assert(spec_fixed_bytes(vals, cols, n) =~= pre + tail);
    }
}

/// The text-region bytes of the text column at index `i`.
proof fn lemma_text_slice(vals: Seq<FieldView>, cols: Seq<Column>, n: int, i: int)
    requires
        spec_row_conforms(vals, cols),
        0 <= i < n <= cols.len(),
        cols[i].data_type is Text,
    ensures
        spec_text_bytes(vals, cols, n).subrange(
            spec_text_len_prefix(vals, cols, i),
            spec_text_len_prefix(vals, cols, i) + spec_field_size(vals[i]),
        ) == spec_field_serialize(vals[i]),
    decreases n,
{
    lemma_text_bytes_len(vals, cols, n - 1);
    lemma_text_len_nonneg(vals, cols, i);
    if i == n - 1 {
        let pre = spec_text_bytes(vals, cols, n - 1);
        let entry = spec_field_serialize(vals[i]);
        assert((pre + entry).subrange(pre.len() as int, pre.len() as int + entry.len() as int) =~= entry);
        assert(entry.len() == spec_field_size(vals[i]));
    } else {
        lemma_text_slice(vals, cols, n - 1, i);
        lemma_text_len_monotonic(vals, cols, i + 1, n - 1);
        let pre = spec_text_bytes(vals, cols, n - 1);
        let tail = if cols[n - 1].data_type is Text {
            spec_field_serialize(vals[n - 1])
        } else {
            Seq::<u8>::empty()
        };
        lemma_subrange_left(
            pre,
            tail,
            spec_text_len_prefix(vals, cols, i),
            spec_text_len_prefix(vals, cols, i) + spec_field_size(vals[i]),
        );
        assert(spec_text_bytes(vals, cols, n) =~= pre + tail);
    }
}

/// The text payload of a serialized row runs from the offset written in the
/// table to the next table entry, or to the end of the buffer.
proof fn lemma_serialized_text_range(schema: Table, vals: Seq<FieldView>, i: int)
    requires
        schema.wf(),
        spec_row_conforms(vals, schema.columns@),
        spec_row_total(vals, schema.columns@) <= u16::MAX,
        0 <= i < schema.columns@.len(),
        schema.columns@[i].data_type is Text,
    ensures
        ({
            let cols = schema.columns@;
            let bytes = spec_row_serialize(vals, cols);
            let vcount = spec_text_count_prefix(cols, cols.len() as int);
            let base = 2 * vcount + crate::schema::spec_fixed_size_prefix(cols, cols.len() as int);
            let k = spec_text_count_prefix(cols, i);
            &&& spec_text_start(bytes, k) == base + spec_text_len_prefix(vals, cols, i)
            &&& spec_text_end(bytes, k, vcount) == base + spec_text_len_prefix(vals, cols, i)
                + spec_field_size(vals[i])
            &&& bytes.subrange(spec_text_start(bytes, k), spec_text_end(bytes, k, vcount))
                == spec_field_serialize(vals[i])
        }),
{
    let cols = schema.columns@;
    let n = cols.len() as int;
    let bytes = spec_row_serialize(vals, cols);
    let vcount = spec_text_count_prefix(cols, n);
    let base = 2 * vcount + crate::schema::spec_fixed_size_prefix(cols, n);
    let k = spec_text_count_prefix(cols, i);
    let table = spec_offset_table(vals, cols, n, base);
    let fixed = spec_fixed_bytes(vals, cols, n);
    let text = spec_text_bytes(vals, cols, n);
    lemma_offset_table_len(vals, cols, n, base);
    lemma_fixed_bytes_len(vals, cols, n);
    lemma_text_bytes_len(vals, cols, n);
    lemma_text_count_monotonic(cols, i + 1, n);
    crate::schema::lemma_text_count_bound(cols, i);
    lemma_text_len_nonneg(vals, cols, i);
    lemma_text_len_monotonic(vals, cols, i, n);
    lemma_text_len_monotonic(vals, cols, i + 1, n);
    crate::schema::lemma_fixed_size_monotonic(cols, 0, n);
    vstd::bytes::lemma_auto_spec_u16_to_from_le_bytes();
    // the k-th table entry holds the payload's start
    assert(spec_text_count_prefix(cols, i + 1) == k + 1);
    lemma_offset_entry(vals, cols, n, base, i);
    lemma_subrange_left(table, fixed + text, 2 * k, 2 * k + 2);
    assert(bytes =~= table + (fixed + text));
    let v0 = (base + spec_text_len_prefix(vals, cols, i)) as u16;
    assert(v0 as int == base + spec_text_len_prefix(vals, cols, i));
    assert(bytes.subrange(2 * k, 2 * k + 2) == vstd::bytes::spec_u16_to_le_bytes(v0));
    assert(vstd::bytes::spec_u16_to_le_bytes(v0).len() == 2);
    assert(vstd::bytes::spec_u16_from_le_bytes(vstd::bytes::spec_u16_to_le_bytes(v0)) == v0);
    assert(spec_text_start(bytes, k) == base + spec_text_len_prefix(vals, cols, i));
    // the end: the next entry, or the end of the buffer
    if k == vcount - 1 {
        assert(spec_text_count_prefix(cols, i + 1) == k + 1);
        lemma_textlen_const(vals, cols, i + 1, n);
        assert(bytes.len() == base + spec_text_len_prefix(vals, cols, n));
        assert(spec_text_end(bytes, k, vcount) == base + spec_text_len_prefix(vals, cols, i)
            + spec_field_size(vals[i]));
    } else {
        assert(spec_text_count_prefix(cols, i + 1) == k + 1);
        let j = lemma_find_text(cols, i + 1, n, k + 1);
        lemma_offset_entry(vals, cols, n, base, j);
        lemma_text_count_monotonic(cols, j + 1, n);
        lemma_subrange_left(table, fixed + text, 2 * (k + 1), 2 * (k + 1) + 2);
        lemma_textlen_const(vals, cols, i + 1, j);
        lemma_text_len_nonneg(vals, cols, j);
        lemma_text_len_monotonic(vals, cols, j, n);
        let v1 = (base + spec_text_len_prefix(vals, cols, j)) as u16;
        assert(v1 as int == base + spec_text_len_prefix(vals, cols, j));
        assert(bytes.subrange(2 * (k + 1), 2 * (k + 1) + 2) == vstd::bytes::spec_u16_to_le_bytes(
            v1,
        ));
        assert(vstd::bytes::spec_u16_to_le_bytes(v1).len() == 2);
        assert(vstd::bytes::spec_u16_from_le_bytes(vstd::bytes::spec_u16_to_le_bytes(v1)) == v1);
        assert(spec_text_start(bytes, k + 1) == base + spec_text_len_prefix(vals, cols, i)
            + spec_field_size(vals[i]));
    }
    // the payload bytes themselves
    lemma_text_slice(vals, cols, n, i);
    let s = spec_text_len_prefix(vals, cols, i);
    let e = s + spec_field_size(vals[i]);
    assert(bytes.subrange(base + s, base + e) =~= text.subrange(s, e)) by {
        assert(bytes =~= table + fixed + text);
        assert forall|x: int| 0 <= x < e - s implies #[trigger] bytes[base + s + x] == text[s + x] by {
            assert(bytes[base + s + x] == (table + fixed + text)[table.len() + fixed.len() + (s
                + x)]);
        }
    }
}

/// Reading a serialized row back under its schema yields the row itself:
/// the round-trip law for rows.
pub proof fn lemma_row_roundtrip(schema: Table, vals: Seq<FieldView>)
    requires
        schema.wf(),
        spec_row_conforms(vals, schema.columns@),
        spec_row_total(vals, schema.columns@) <= u16::MAX,
    ensures
        spec_row_parses(spec_row_serialize(vals, schema.columns@), schema.columns@),
        spec_row_extract(spec_row_serialize(vals, schema.columns@), schema.columns@) =~= vals,
{
    let cols = schema.columns@;
    let n = cols.len() as int;
    let bytes = spec_row_serialize(vals, cols);
    let vcount = spec_text_count_prefix(cols, n);
    let base = 2 * vcount + crate::schema::spec_fixed_size_prefix(cols, n);
    let table = spec_offset_table(vals, cols, n, base);
    let fixed = spec_fixed_bytes(vals, cols, n);
    let text = spec_text_bytes(vals, cols, n);
    lemma_offset_table_len(vals, cols, n, base);
    lemma_fixed_bytes_len(vals, cols, n);
    lemma_text_bytes_len(vals, cols, n);
    lemma_text_len_nonneg(vals, cols, n);
    crate::schema::lemma_fixed_size_monotonic(cols, 0, n);
    crate::schema::lemma_text_count_bound(cols, n);
    // every text range is as the table says, and holds the field's bytes
    assert forall|k: int| 0 <= k < vcount implies 0 <= #[trigger] spec_text_start(bytes, k)
        <= spec_text_end(bytes, k, vcount) <= bytes.len() && vstd::utf8::valid_utf8(
        bytes.subrange(spec_text_start(bytes, k), spec_text_end(bytes, k, vcount)),
    ) by {
        let i = lemma_find_text(cols, 0, n, k);
        lemma_serialized_text_range(schema, vals, i);
        lemma_text_len_nonneg(vals, cols, i);
        lemma_text_len_monotonic(vals, cols, i + 1, n);
        match vals[i] {
            FieldView::Text(t) => {
                vstd::utf8::encode_utf8_valid_utf8(t);
            },
            _ => {
                assert(false);
            },
        }
    }
    assert(spec_row_parses(bytes, cols));
    // each extracted field equals the original
    assert forall|i: int| 0 <= i < n implies spec_row_extract(bytes, cols)[i] == vals[i] by {
        if cols[i].data_type is Text {
            crate::schema::lemma_text_count_bound(cols, i);
            lemma_text_count_monotonic(cols, i + 1, n);
            lemma_serialized_text_range(schema, vals, i);
            match vals[i] {
                FieldView::Text(t) => {
                    vstd::utf8::encode_utf8_decode_utf8(t);
                },
                _ => {
                    assert(false);
                },
            }
        } else {
            crate::schema::lemma_fixed_size_monotonic(cols, i + 1, n);
            lemma_fixed_slice(vals, cols, n, i);
            let off = crate::schema::spec_fixed_size_prefix(cols, i);
            let w = crate::field::spec_length_bytes(cols[i].data_type) as int;
            crate::schema::lemma_fixed_size_monotonic(cols, 0, i);
            assert(bytes.subrange(2 * vcount + off, 2 * vcount + off + w) =~= fixed.subrange(
                off,
                off + w,
            )) by {
                assert(bytes =~= table + fixed + text);
                assert forall|x: int| 0 <= x < w implies #[trigger] bytes[2 * vcount + off + x]
                    == fixed[off + x] by {
                    assert(bytes[2 * vcount + off + x] == (table + fixed + text)[table.len() + (off
                        + x)]);
                }
            }
            crate::field::lemma_field_roundtrip(vals[i]);
        }
    }
}

} // verus!

verus! {

/// Relies on `core::str::from_utf8` of std: it accepts exactly the byte
/// sequences that are valid UTF-8.
#[verifier::external_body]
fn utf8_ok(b: &[u8]) -> (r: bool)
    ensures
        r == vstd::utf8::valid_utf8(b@),
{
    core::str::from_utf8(b).is_ok()
}

impl Row {
    /// Checks whether a buffer can be read back as a row of the schema:
    /// the offset table and fixed region fit, the text ranges are ordered
    /// and in bounds, and each text range holds valid UTF-8.
    pub fn parses(bytes: &Vec<u8>, schema: &Table) -> (r: bool)
        requires
            schema.wf(),
        ensures
            r == spec_row_parses(bytes@, schema.columns@),
    {
        let ghost cols = schema.columns@;
        let vcount = schema.variable_length_fields();
        let ghost gv = spec_text_count_prefix(cols, cols.len() as int);
        let blen = bytes.len();
        proof {
            crate::schema::lemma_fixed_size_monotonic(cols, 0, cols.len() as int);
        }
        proof {
            crate::schema::lemma_text_count_bound(cols, cols.len() as int);
        }
        let fixed = schema.fixed_field_size_bytes() as usize;
        if blen < 2 * vcount || blen - 2 * vcount < fixed {
            return false;
        }
        let mut k: usize = 0;
        while k < vcount
            invariant
                cols == schema.columns@,
                gv == spec_text_count_prefix(cols, cols.len() as int),
                vcount == gv,
                blen == bytes@.len(),
                blen >= 2 * gv,
                k <= vcount,
                forall|j: int|
                    0 <= j < k ==> 0 <= #[trigger] spec_text_start(bytes@, j) <= spec_text_end(
                        bytes@,
                        j,
                        gv as int,
                    ) <= bytes@.len(),
                forall|j: int|
                    0 <= j < k ==> vstd::utf8::valid_utf8(
                        bytes@.subrange(
                            #[trigger] spec_text_start(bytes@, j),
                            spec_text_end(bytes@, j, gv as int),
                        ),
                    ),
            decreases vcount - k,
        {
            let start = vstd::bytes::u16_from_le_bytes(
                vstd::slice::slice_subrange(bytes.as_slice(), 2 * k, 2 * k + 2),
            ) as usize;
            let end = if k + 1 == vcount {
                blen
            } else {
                vstd::bytes::u16_from_le_bytes(
                    vstd::slice::slice_subrange(bytes.as_slice(), 2 * (k + 1), 2 * (k + 1) + 2),
                ) as usize
            };
            proof {
                assert(start as int == spec_text_start(bytes@, k as int));
                assert(end as int == spec_text_end(bytes@, k as int, gv as int));
            }
            if start > end || end > blen {
                proof {
                    assert(!spec_row_parses(bytes@, cols)) by {
                        assert(!(0 <= spec_text_start(bytes@, k as int) <= spec_text_end(
                            bytes@,
                            k as int,
                            gv as int,
                        ) <= bytes@.len()));
                    }
                }
                return false;
            }
            let piece = vstd::slice::slice_subrange(bytes.as_slice(), start, end);
            if !utf8_ok(piece) {
                proof {
                    assert(!spec_row_parses(bytes@, cols)) by {
                        assert(!vstd::utf8::valid_utf8(
                            bytes@.subrange(
                                spec_text_start(bytes@, k as int),
                                spec_text_end(bytes@, k as int, gv as int),
                            ),
                        ));
                    }
                }
                return false;
            }
            k = k + 1;
        }
        true
    }
}

} // verus!
