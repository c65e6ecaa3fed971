use vstd::prelude::*;

use crate::field::{spec_field_eq, spec_length_bytes, DataType, Field};

verus! {

/// One column of a table: its name, type, nullability, default value,
/// string bound, and the computed offset of its stored bytes.
#[derive(Debug)]
pub struct Column {
    /// Column name.
    pub name: String,
    /// Column datatype.
    pub data_type: DataType,
    /// Whether the column allows null values.
    pub nullable: bool,
    /// The column's default value, if any. Nullable columns default to null.
    pub default: Option<Field>,
    /// Longest allowed string, in bytes; 0 for non-text columns.
    pub max_str_len: u16,
    /// For fixed-width columns, the byte offset of the value inside the
    /// fixed-field region; for text columns, the ordinal of the column
    /// among the text columns.
    pub stored_offset: u16,
}

/// Column equality: every part equal, with defaults compared as field values.
pub open spec fn spec_column_eq(a: Column, b: Column) -> bool {
    &&& a.name@ == b.name@
    &&& a.data_type == b.data_type
    &&& a.nullable == b.nullable
    &&& match (a.default, b.default) {
        (Option::None, Option::None) => true,
        (Some(x), Some(y)) => spec_field_eq(x@, y@),
        _ => false,
    }
    &&& a.max_str_len == b.max_str_len
    &&& a.stored_offset == b.stored_offset
}

impl PartialEq for Column {
    fn eq(&self, other: &Column) -> (r: bool) {
        let defaults_equal = match (&self.default, &other.default) {
            (Option::None, Option::None) => true,
            (Some(x), Some(y)) => *x == *y,
            _ => false,
        };
        defaults_equal && self.name == other.name && self.data_type == other.data_type
            && self.nullable == other.nullable && self.max_str_len == other.max_str_len
            && self.stored_offset == other.stored_offset
    }
}

impl Eq for Column {

}

impl Clone for Column {
    fn clone(&self) -> (r: Column)
        ensures
            r == *self,
    {
        Column {
            name: self.name.clone(),
            data_type: self.data_type,
            nullable: self.nullable,
            default: match &self.default {
                Some(f) => Some(f.clone()),
                Option::None => Option::None,
            },
            max_str_len: self.max_str_len,
            stored_offset: self.stored_offset,
        }
    }
}

impl vstd::std_specs::cmp::PartialEqSpecImpl for Column {
    open spec fn obeys_eq_spec() -> bool {
        true
    }

    open spec fn eq_spec(&self, other: &Column) -> bool {
        spec_column_eq(*self, *other)
    }
}

impl Column {
    /// A column from its parts. A nullable column without an explicit
    /// default gets a null default.
    pub fn new(
        column_name: &str,
        dt: DataType,
        nullable: bool,
        default: Option<Field>,
        max_str_chars: Option<u16>,
    ) -> (r: Column)
        ensures
            r.name@ == column_name@,
            r.data_type == dt,
            r.nullable == nullable,
            r.default == (if default is Some {
                default
            } else if nullable {
                Some(Field::Null)
            } else {
                Option::<Field>::None
            }),
            r.max_str_len == (if max_str_chars is Some {
                max_str_chars->0
            } else {
                0u16
            }),
            r.stored_offset == 0,
    {
        Column {
            name: column_name.to_string(),
            data_type: dt,
            nullable,
            default: match default {
                Some(expr) => Some(expr),
                Option::None => {
                    if nullable {
                        Some(Field::Null)
                    } else {
                        Option::None
                    }
                },
            },
            max_str_len: match max_str_chars {
                Some(m) => m,
                Option::None => 0,
            },
            stored_offset: 0,
        }
    }

    /// A fresh column builder.
    pub fn builder() -> (r: ColumnBuilder)
        ensures
            r.name is None,
            r.data_type is None,
            r.nullable is None,
            r.default is None,
            r.max_str_len is None,
    {
        ColumnBuilder {
            name: Option::None,
            data_type: Option::None,
            nullable: Option::None,
            default: Option::None,
            max_str_len: Option::None,
        }
    }

    /// Replaces the column's type.
    pub fn set_data_type(&mut self, data_type: DataType)
        ensures
            *final(self) == (Column { data_type, ..*old(self) }),
    {
        self.data_type = data_type;
    }

    /// The column's type.
    pub fn get_data_type(&self) -> (r: DataType)
        ensures
            r == self.data_type,
    {
        self.data_type
    }

    /// Replaces the column's name.
    pub fn set_name(&mut self, column_name: &str)
        ensures
            final(self).name@ == column_name@,
            final(self).data_type == old(self).data_type,
            final(self).nullable == old(self).nullable,
            final(self).default == old(self).default,
            final(self).max_str_len == old(self).max_str_len,
            final(self).stored_offset == old(self).stored_offset,
    {
        self.name = column_name.to_string();
    }

    /// The column's name.
    pub fn get_name(&self) -> (r: String)
        ensures
            r@ == self.name@,
    {
        self.name.clone()
    }

    /// The column's default value, if any.
    pub fn default(&self) -> (r: Option<&Field>)
        ensures
            r matches Some(f) ==> self.default matches Some(d) && d == *f,
            r is None ==> self.default is None,
    {
        self.default.as_ref()
    }

    /// Bytes this column occupies in a serialized row: the type's fixed
    /// width, plus the string bound for text columns.
    pub fn length_bytes(&self) -> (r: u16)
        requires
            spec_length_bytes(self.data_type) + self.max_str_len <= u16::MAX,
        ensures
            r == spec_length_bytes(self.data_type) + self.max_str_len,
    {
        self.data_type.length_bytes() + self.max_str_len
    }

    /// The column's stored offset.
    pub fn stored_offset(&self) -> (r: u16)
        ensures
            r == self.stored_offset,
    {
        self.stored_offset
    }

    /// The column's string bound.
    pub fn get_max_str_len(&self) -> (r: u16)
        ensures
            r == self.max_str_len,
    {
        self.max_str_len
    }
}

impl From<DataType> for Column {
    fn from(dt: DataType) -> (r: Column)
        ensures
            r.name@ == Seq::<char>::empty(),
            r.data_type == dt,
            !r.nullable,
            r.default is None,
            r.max_str_len == 0,
            r.stored_offset == 0,
    {
        Column {
            name: String::new(),
            data_type: dt,
            nullable: false,
            default: Option::None,
            max_str_len: 0,
            stored_offset: 0,
        }
    }
}

impl vstd::std_specs::convert::FromSpecImpl<DataType> for Column {
    open spec fn obeys_from_spec() -> bool {
        false
    }

    open spec fn from_spec(dt: DataType) -> Column {
        arbitrary()
    }
}

impl From<(DataType, u16)> for Column {
    fn from(dt_len: (DataType, u16)) -> (r: Column)
        ensures
            r.name@ == Seq::<char>::empty(),
            r.data_type == dt_len.0,
            !r.nullable,
            r.default is None,
            r.max_str_len == dt_len.1,
            r.stored_offset == 0,
    {
        Column {
            name: String::new(),
            data_type: dt_len.0,
            nullable: false,
            default: Option::None,
            max_str_len: dt_len.1,
            stored_offset: 0,
        }
    }
}

impl vstd::std_specs::convert::FromSpecImpl<(DataType, u16)> for Column {
    open spec fn obeys_from_spec() -> bool {
        false
    }

    open spec fn from_spec(dt_len: (DataType, u16)) -> Column {
        arbitrary()
    }
}

/// A builder for a column definition.
pub struct ColumnBuilder {
    pub name: Option<String>,
    pub data_type: Option<DataType>,
    pub nullable: Option<bool>,
    pub default: Option<Field>,
    pub max_str_len: Option<u16>,
}

impl ColumnBuilder {
    /// Sets the name.
    pub fn name(self, name: String) -> (r: ColumnBuilder)
        ensures
            r == (ColumnBuilder { name: Some(name), ..self }),
    {
        ColumnBuilder { name: Some(name), ..self }
    }

    /// Sets the type.
    pub fn data_type(self, data_type: DataType) -> (r: ColumnBuilder)
        ensures
            r == (ColumnBuilder { data_type: Some(data_type), ..self }),
    {
        ColumnBuilder { data_type: Some(data_type), ..self }
    }

    /// Sets the nullability.
    pub fn nullable(self, nullable: bool) -> (r: ColumnBuilder)
        ensures
            r == (ColumnBuilder { nullable: Some(nullable), ..self }),
    {
        ColumnBuilder { nullable: Some(nullable), ..self }
    }

    /// Sets the default value, which must match the type set before it.
    pub fn default(self, default: Field) -> (r: ColumnBuilder)
        requires
            self.data_type matches Some(dt) && crate::field::spec_field_type(default@) == dt,
        ensures
            r == (ColumnBuilder { default: Some(default), ..self }),
    {
        ColumnBuilder { default: Some(default), ..self }
    }

    /// Sets the string bound.
    pub fn max_str_len(self, max_str_len: u16) -> (r: ColumnBuilder)
        ensures
            r == (ColumnBuilder { max_str_len: Some(max_str_len), ..self }),
    {
        ColumnBuilder { max_str_len: Some(max_str_len), ..self }
    }

    /// Builds the column; the name and type must have been set.
    pub fn build(self) -> (r: Column)
        requires
            self.name is Some,
            self.data_type is Some,
        ensures
            r.name@ == self.name->0@,
            r.data_type == self.data_type->0,
            r.nullable == (self.nullable matches Some(true)),
            r.default == (if self.default is Some {
                self.default
            } else if self.nullable matches Some(true) {
                Some(Field::Null)
            } else {
                Option::<Field>::None
            }),
            r.max_str_len == (if self.max_str_len is Some {
                self.max_str_len->0
            } else {
                0u16
            }),
            r.stored_offset == 0,
    {
        let nullable = match self.nullable {
            Some(b) => b,
            Option::None => false,
        };
        let name = match self.name {
            Some(n) => n,
            Option::None => String::new(),
        };
        let data_type = match self.data_type {
            Some(d) => d,
            Option::None => DataType::Invalid,
        };
        Column {
            name,
            data_type,
            nullable,
            default: match self.default {
                Some(expr) => Some(expr),
                Option::None => {
                    if nullable {
                        Some(Field::Null)
                    } else {
                        Option::None
                    }
                },
            },
            max_str_len: match self.max_str_len {
                Some(m) => m,
                Option::None => 0,
            },
            stored_offset: 0,
        }
    }
}

} // verus!

verus! {

/// Sum of the fixed-field byte widths of the first `n` columns.
pub open spec fn spec_fixed_size_prefix(cols: Seq<Column>, n: int) -> int
    decreases n,
{
    if n <= 0 {
        0
    } else {
        spec_fixed_size_prefix(cols, n - 1) + (if cols[n - 1].data_type is Text {
            0int
        } else {
            spec_length_bytes(cols[n - 1].data_type) as int
        })
    }
}

/// Number of text columns among the first `n` columns.
pub open spec fn spec_text_count_prefix(cols: Seq<Column>, n: int) -> int
    decreases n,
{
    if n <= 0 {
        0
    } else {
        spec_text_count_prefix(cols, n - 1) + (if cols[n - 1].data_type is Text {
            1int
        } else {
            0int
        })
    }
}

/// Sum of `length_bytes` over the first `n` columns: the fixed widths plus
/// every text column's string bound.
pub open spec fn spec_row_capacity_prefix(cols: Seq<Column>, n: int) -> int
    decreases n,
{
    if n <= 0 {
        0
    } else {
        spec_row_capacity_prefix(cols, n - 1) + spec_length_bytes(cols[n - 1].data_type)
            + cols[n - 1].max_str_len
    }
}

/// A table schema: the table name, its columns in order, and the cached
/// byte width of the fixed-field region of a serialized row.
#[derive(Debug)]
pub struct Table {
    /// The name of the table.
    pub name: String,
    /// The number of bytes of the fixed fields of a serialized row.
    pub fixed_field_size_bytes: u16,
    /// The column definitions of the table.
    pub columns: Vec<Column>,
}

impl Clone for Table {
    fn clone(&self) -> (r: Table)
        ensures
            r.name == self.name,
            r.fixed_field_size_bytes == self.fixed_field_size_bytes,
            r.columns@ == self.columns@,
    {
        let columns = self.columns.clone();
        proof {
            assert forall|i: int| 0 <= i < self.columns@.len() implies columns@[i]
                == self.columns@[i] by {
                assert(vstd::pervasive::cloned::<Column>(self.columns@[i], columns@[i]));
            }
            assert(columns@ =~= self.columns@);
        }
        Table {
            name: self.name.clone(),
            fixed_field_size_bytes: self.fixed_field_size_bytes,
            columns,
        }
    }
}

impl Table {
    /// Well-formedness: every fixed-width column's stored offset is the sum
    /// of the fixed widths before it, every text column's stored offset is
    /// its ordinal among the text columns, and the cached fixed size is the
    /// sum over all columns.
    pub open spec fn wf(&self) -> bool {
        &&& self.columns@.len() <= u16::MAX
        &&& self.fixed_field_size_bytes == spec_fixed_size_prefix(
            self.columns@,
            self.columns@.len() as int,
        )
        &&& forall|i: int|
            0 <= i < self.columns@.len() ==> (#[trigger] self.columns@[i].stored_offset) as int
                == (if self.columns@[i].data_type is Text {
                spec_text_count_prefix(self.columns@, i)
            } else {
                spec_fixed_size_prefix(self.columns@, i)
            })
    }

    /// An empty schema with the given name.
    pub fn new(table_name: &str) -> (r: Table)
        ensures
            r.name@ == table_name@,
            r.fixed_field_size_bytes == 0,
            r.columns@ =~= Seq::<Column>::empty(),
            r.wf(),
    {
        Table { name: table_name.to_string(), fixed_field_size_bytes: 0, columns: Vec::new() }
    }

    /// A fresh schema builder.
    pub fn builder() -> (r: TableBuilder)
        ensures
            r.name is None,
            r.columns@ =~= Seq::<Column>::empty(),
    {
        TableBuilder { name: Option::None, columns: Vec::new() }
    }

    /// The table's name.
    pub fn name(&self) -> (r: &str)
        ensures
            r@ == self.name@,
    {
        self.name.as_str()
    }

    /// Renames a schema the caller hands over; nothing keeps the result,
    /// so renaming a schema in use means rebuilding it under the new name.
    pub fn set_name(self, table_name: &str) {
        let mut renamed = self;
        renamed.name = table_name.to_string();
    }

    /// Appends a column, assigning its stored offset: the next free byte of
    /// the fixed region for fixed-width columns, the next text ordinal for
    /// text columns.
    pub fn add_column(&mut self, column: &Column)
        requires
            old(self).wf(),
            old(self).fixed_field_size_bytes + spec_length_bytes(column.data_type) <= u16::MAX,
            old(self).columns@.len() + 1 <= u16::MAX,
        ensures
            final(self).wf(),
            final(self).name@ == old(self).name@,
            final(self).fixed_field_size_bytes == old(self).fixed_field_size_bytes + (
            if column.data_type is Text {
                0int
            } else {
                spec_length_bytes(column.data_type) as int
            }),
            final(self).columns@.len() == old(self).columns@.len() + 1,
            final(self).columns@ =~= old(self).columns@.push(
                Column {
                    stored_offset: (if column.data_type is Text {
                        spec_text_count_prefix(old(self).columns@, old(self).columns@.len() as int)
                    } else {
                        old(self).fixed_field_size_bytes as int
                    }) as u16,
                    ..*column
                },
            ),
    {
        let data_type = column.get_data_type();
        let mut to_push = column.clone();
        proof {
            lemma_text_count_bound(self.columns@, self.columns@.len() as int);
        }
        if data_type == DataType::Text {
            to_push.stored_offset = self.variable_length_fields() as u16;
            self.columns.push(to_push);
        } else {
            to_push.stored_offset = self.fixed_field_size_bytes;
            self.columns.push(to_push);
            self.fixed_field_size_bytes = self.fixed_field_size_bytes + data_type.length_bytes();
        }
        proof {
            let cols = self.columns@;
            let n = cols.len() as int;
            assert forall|i: int| 0 <= i < n implies (#[trigger] cols[i].stored_offset) as int
                == (if cols[i].data_type is Text {
                spec_text_count_prefix(cols, i)
            } else {
                spec_fixed_size_prefix(cols, i)
            }) by {
                lemma_prefix_push(old(self).columns@, self.columns@.last(), i);
            }
            lemma_prefix_push(old(self).columns@, self.columns@.last(), n);
        }
    }

    /// Appends each of the given columns in order.
    pub fn with_columns(&mut self, columns: Vec<Column>)
        requires
            old(self).wf(),
            old(self).fixed_field_size_bytes + spec_row_capacity_prefix(
                columns@,
                columns@.len() as int,
            ) <= u16::MAX,
            old(self).columns@.len() + columns@.len() <= u16::MAX,
        ensures
            final(self).wf(),
            final(self).name@ == old(self).name@,
            final(self).columns@.len() == old(self).columns@.len() + columns@.len(),
            forall|i: int|
                0 <= i < columns@.len() ==> spec_column_like(
                    #[trigger] final(self).columns@[old(self).columns@.len() + i],
                    columns@[i],
                ),
            forall|i: int|
                0 <= i < old(self).columns@.len() ==> final(self).columns@[i] == old(
                    self,
                ).columns@[i],
    {
        let n = columns.len();
        let mut k: usize = 0;
        proof {
            lemma_row_capacity_monotonic(columns@, 0, columns@.len() as int);
        }
        while k < n
            invariant
                n == columns@.len(),
                k <= n,
                self.wf(),
                self.name@ == old(self).name@,
                self.columns@.len() == old(self).columns@.len() + k,
                self.fixed_field_size_bytes <= old(self).fixed_field_size_bytes
                    + spec_row_capacity_prefix(columns@, k as int),
                old(self).fixed_field_size_bytes + spec_row_capacity_prefix(
                    columns@,
                    columns@.len() as int,
                ) <= u16::MAX,
                old(self).columns@.len() + columns@.len() <= u16::MAX,
                forall|i: int|
                    0 <= i < k ==> spec_column_like(
                        #[trigger] self.columns@[old(self).columns@.len() + i],
                        columns@[i],
                    ),
                forall|i: int|
                    0 <= i < old(self).columns@.len() ==> self.columns@[i] == old(
                        self,
                    ).columns@[i],
            decreases n - k,
        {
            proof {
                lemma_row_capacity_monotonic(columns@, k as int + 1, columns@.len() as int);
            }
            let column = &columns[k];
            self.add_column(column);
            k = k + 1;
        }
    }

    /// The column at the given position.
    pub fn get_column(&self, index: usize) -> (r: &Column)
        requires
            index < self.columns@.len(),
        ensures
            *r == self.columns@[index as int],
    {
        &self.columns[index]
    }

    /// All columns, in order.
    pub fn columns(&self) -> (r: &Vec<Column>)
        ensures
            r@ == self.columns@,
    {
        &self.columns
    }

    /// The number of columns.
    pub fn col_count(&self) -> (r: usize)
        ensures
            r == self.columns@.len(),
    {
        self.columns.len()
    }

    /// The name of the column at the given position.
    pub fn get_column_name(&self, index: usize) -> (r: String)
        requires
            index < self.columns@.len(),
        ensures
            r@ == self.columns@[index as int].name@,
    {
        self.columns[index].get_name()
    }

    /// The type of the column at the given position.
    pub fn get_field_type(&self, index: usize) -> (r: DataType)
        requires
            index < self.columns@.len(),
        ensures
            r == self.columns@[index as int].data_type,
    {
        self.columns[index].get_data_type()
    }

    /// The position of the column with the given name, if any; the first
    /// match wins.
    pub fn field_name_to_index(&self, field_name: Option<&String>) -> (r: Option<usize>)
        ensures
            r matches Some(i) ==> {
                &&& field_name matches Some(f)
                &&& i < self.columns@.len()
                &&& self.columns@[i as int].name@ == f@
                &&& forall|j: int| 0 <= j < i ==> self.columns@[j].name@ != f@
            },
            r is None ==> (field_name matches Some(f) ==> (forall|j: int|
                0 <= j < self.columns@.len() ==> self.columns@[j].name@ != f@)),
    {
        let f: &String = match &field_name {
            Some(f) => *f,
            Option::None => {
                return Option::None;
            },
        };
        let n = self.columns.len();
        let mut i: usize = 0;
        while i < n
            invariant
                field_name == Some(f),
                n == self.columns@.len(),
                i <= n,
                forall|j: int| 0 <= j < i ==> self.columns@[j].name@ != f@,
            decreases n - i,
        {
            let matches_name = self.columns[i].name == *f;
            if matches_name {
                proof {
                    assert(field_name is Some);
                    assert(i < self.columns@.len());
                    assert(self.columns@[i as int].name@ == f@);
                    assert(forall|j: int| 0 <= j < i ==> self.columns@[j].name@ != f@);
                }
                return Some(i);
            }
            i = i + 1;
        }
        Option::None
    }

    /// The largest byte size a row of this schema can serialize to, not
    /// counting the offset table: every fixed width plus every string bound.
    pub fn size(&self) -> (r: u16)
        requires
            spec_row_capacity_prefix(self.columns@, self.columns@.len() as int) <= u16::MAX,
        ensures
            r == spec_row_capacity_prefix(self.columns@, self.columns@.len() as int),
    {
        let n = self.columns.len();
        let mut size: u16 = 0;
        let mut i: usize = 0;
        while i < n
            invariant
                n == self.columns@.len(),
                i <= n,
                size == spec_row_capacity_prefix(self.columns@, i as int),
                spec_row_capacity_prefix(self.columns@, n as int) <= u16::MAX,
            decreases n - i,
        {
            proof {
                lemma_row_capacity_monotonic(self.columns@, i as int + 1, n as int);
            }
            size = size + self.columns[i].length_bytes();
            i = i + 1;
        }
        size
    }

    /// The byte width of the fixed-field region of a serialized row.
    pub fn fixed_field_size_bytes(&self) -> (r: u16)
        ensures
            r == self.fixed_field_size_bytes,
    {
        self.fixed_field_size_bytes
    }

    /// The number of text columns.
    pub fn variable_length_fields(&self) -> (r: usize)
        ensures
            r == spec_text_count_prefix(self.columns@, self.columns@.len() as int),
    {
        let n = self.columns.len();
        let mut count: usize = 0;
        let mut i: usize = 0;
        proof {
            lemma_text_count_bound(self.columns@, self.columns@.len() as int);
        }
        while i < n
            invariant
                n == self.columns@.len(),
                i <= n,
                count == spec_text_count_prefix(self.columns@, i as int),
                count <= i,
            decreases n - i,
        {
            proof {
                lemma_text_count_bound(self.columns@, i as int);
            }
            if self.columns[i].get_data_type() == DataType::Text {
                count = count + 1;
            }
            i = i + 1;
        }
        count
    }

    /// Concatenates the columns of two schemas, recomputing the offsets of
    /// the fixed-width columns only; text columns keep the stored offsets
    /// they had in their source schema.
    pub fn merge(d1: &Table, d2: &Table) -> (r: Table)
        requires
            spec_fixed_size_prefix(d1.columns@ + d2.columns@, d1.columns@.len()
                + d2.columns@.len() as int) <= u16::MAX,
        ensures
            r.name@ == ""@,
            r.columns@.len() == d1.columns@.len() + d2.columns@.len(),
            forall|i: int|
                0 <= i < r.columns@.len() ==> spec_column_like(
                    #[trigger] r.columns@[i],
                    (d1.columns@ + d2.columns@)[i],
                ),
            forall|i: int|
                0 <= i < r.columns@.len() ==> (!((d1.columns@ + d2.columns@)[i].data_type
                    is Text) ==> (#[trigger] r.columns@[i]).stored_offset
                    == spec_fixed_size_prefix(d1.columns@ + d2.columns@, i)),
            r.fixed_field_size_bytes == spec_fixed_size_prefix(
                d1.columns@ + d2.columns@,
                d1.columns@.len() + d2.columns@.len() as int,
            ),
    {
        proof {
            reveal_strlit("");
        }
        let mut schema = Table::new("");
        let mut all: Vec<Column> = d1.columns.clone();
        let mut tail: Vec<Column> = d2.columns.clone();
        proof {
            assert forall|i: int| 0 <= i < d1.columns@.len() implies all@[i]
                == d1.columns@[i] by {
                assert(vstd::pervasive::cloned::<Column>(d1.columns@[i], all@[i]));
            }
            assert forall|i: int| 0 <= i < d2.columns@.len() implies tail@[i]
                == d2.columns@[i] by {
                assert(vstd::pervasive::cloned::<Column>(d2.columns@[i], tail@[i]));
            }
        }
        all.append(&mut tail);
        schema.columns = all;
        let ghost cols0 = d1.columns@ + d2.columns@;
        proof {
            assert(schema.columns@ =~= cols0);
        }
        let n = schema.columns.len();
        let mut fixed: u16 = 0;
        let mut i: usize = 0;
        while i < n
            invariant
                n == schema.columns@.len(),
                i <= n,
                schema.columns@.len() == cols0.len(),
                forall|j: int| i <= j < n ==> schema.columns@[j] == cols0[j],
                forall|j: int|
                    0 <= j < i ==> spec_column_like(#[trigger] schema.columns@[j], cols0[j]),
                forall|j: int|
                    0 <= j < i ==> (!(cols0[j].data_type is Text)
                        ==> (#[trigger] schema.columns@[j]).stored_offset
                        == spec_fixed_size_prefix(cols0, j)),
                forall|j: int|
                    0 <= j < i ==> (cols0[j].data_type is Text
                        ==> (#[trigger] schema.columns@[j]).stored_offset
                        == cols0[j].stored_offset),
                fixed == spec_fixed_size_prefix(cols0, i as int),
                spec_fixed_size_prefix(cols0, n as int) <= u16::MAX,
                schema.name@ == ""@,
            decreases n - i,
        {
            proof {
                lemma_fixed_size_monotonic(cols0, i as int + 1, n as int);
                assert(spec_fixed_size_prefix(cols0, i as int + 1) == spec_fixed_size_prefix(
                    cols0,
                    i as int,
                ) + (if cols0[i as int].data_type is Text {
                    0int
                } else {
                    spec_length_bytes(cols0[i as int].data_type) as int
                }));
            }
            let dt = schema.columns[i].get_data_type();
            if dt != DataType::Text {
                let mut col = schema.columns[i].clone();
                col.stored_offset = fixed;
                let width = dt.length_bytes();
                schema.columns.set(i, col);
                fixed = fixed + width;
            }
            i = i + 1;
        }
        schema.fixed_field_size_bytes = fixed;
        schema
    }
}

/// Two columns that agree on everything except possibly the stored offset.
pub open spec fn spec_column_like(a: Column, b: Column) -> bool {
    &&& a.name@ == b.name@
    &&& a.data_type == b.data_type
    &&& a.nullable == b.nullable
    &&& a.default == b.default
    &&& a.max_str_len == b.max_str_len
}

/// Text-column count over a prefix never exceeds the prefix length.
pub proof fn lemma_text_count_bound(cols: Seq<Column>, n: int)
    ensures
        0 <= spec_text_count_prefix(cols, n),
        n >= 0 ==> spec_text_count_prefix(cols, n) <= n,
    decreases (if n > 0 {
        n
    } else {
        0
    }),
{
    if n > 0 {
        lemma_text_count_bound(cols, n - 1);
    }
}

/// Prefix sums over a pushed sequence agree with the original sequence.
pub proof fn lemma_prefix_push(cols: Seq<Column>, c: Column, n: int)
    requires
        0 <= n <= cols.len() + 1,
    ensures
        n <= cols.len() ==> spec_fixed_size_prefix(cols.push(c), n) == spec_fixed_size_prefix(
            cols,
            n,
        ),
        n <= cols.len() ==> spec_text_count_prefix(cols.push(c), n) == spec_text_count_prefix(
            cols,
            n,
        ),
        n == cols.len() + 1 ==> spec_fixed_size_prefix(cols.push(c), n) == spec_fixed_size_prefix(
            cols,
            cols.len() as int,
        ) + (if c.data_type is Text {
            0int
        } else {
            spec_length_bytes(c.data_type) as int
        }),
        n == cols.len() + 1 ==> spec_text_count_prefix(cols.push(c), n) == spec_text_count_prefix(
            cols,
            cols.len() as int,
        ) + (if c.data_type is Text {
            1int
        } else {
            0int
        }),
    decreases n,
{
    if n > 0 {
        lemma_prefix_push(cols, c, n - 1);
    }
}

/// The fixed-size prefix sum is monotonic in the prefix length.
pub proof fn lemma_fixed_size_monotonic(cols: Seq<Column>, a: int, b: int)
    requires
        0 <= a <= b,
    ensures
        spec_fixed_size_prefix(cols, a) <= spec_fixed_size_prefix(cols, b),
    decreases b - a,
{
    if a < b {
        lemma_fixed_size_monotonic(cols, a, b - 1);
    }
}

/// The row-capacity prefix sum is monotonic in the prefix length.
pub proof fn lemma_row_capacity_monotonic(cols: Seq<Column>, a: int, b: int)
    requires
        0 <= a <= b,
    ensures
        spec_row_capacity_prefix(cols, a) <= spec_row_capacity_prefix(cols, b),
    decreases b - a,
{
    if a < b {
        lemma_row_capacity_monotonic(cols, a, b - 1);
    }
}

/// A builder for a table schema.
pub struct TableBuilder {
    pub name: Option<String>,
    pub columns: Vec<Column>,
}

impl TableBuilder {
    /// Sets the table name.
    pub fn name(self, name: &str) -> (r: TableBuilder)
        ensures
            r.name matches Some(n) && n@ == name@,
            r.columns@ == self.columns@,
    {
        TableBuilder { name: Some(name.to_string()), columns: self.columns }
    }

    /// Appends a column definition from its parts.
    pub fn column(
        self,
        column_name: &str,
        dt: DataType,
        nullable: bool,
        default: Option<Field>,
        max_str_chars: Option<u16>,
    ) -> (r: TableBuilder)
        ensures
            r.name == self.name,
            r.columns@.len() == self.columns@.len() + 1,
            r.columns@ =~= self.columns@.push(r.columns@.last()),
            r.columns@.last().name@ == column_name@,
            r.columns@.last().data_type == dt,
            r.columns@.last().nullable == nullable,
            r.columns@.last().max_str_len == (if max_str_chars is Some {
                max_str_chars->0
            } else {
                0u16
            }),
            r.columns@.last().stored_offset == 0,
    {
        let mut columns = self.columns;
        columns.push(Column::new(column_name, dt, nullable, default, max_str_chars));
        TableBuilder { name: self.name, columns }
    }

    /// Appends one ready column definition.
    pub fn column_from_definition(self, column_definition: Column) -> (r: TableBuilder)
        ensures
            r.name == self.name,
            r.columns@ =~= self.columns@.push(column_definition),
    {
        let mut columns = self.columns;
        columns.push(column_definition);
        TableBuilder { name: self.name, columns }
    }

    /// Appends many ready column definitions.
    pub fn columns(self, columns: Vec<Column>) -> (r: TableBuilder)
        ensures
            r.name == self.name,
            r.columns@ =~= self.columns@ + columns@,
    {
        let mut mine = self.columns;
        let mut more = columns;
        mine.append(&mut more);
        TableBuilder { name: self.name, columns: mine }
    }

    /// Builds the schema: the name must have been set, and the columns must
    /// fit a row's 16-bit sizes.
    pub fn build(self) -> (r: Table)
        requires
            self.name is Some,
            spec_row_capacity_prefix(self.columns@, self.columns@.len() as int) <= u16::MAX,
            self.columns@.len() <= u16::MAX,
        ensures
            r.wf(),
            r.name@ == self.name->0@,
            r.columns@.len() == self.columns@.len(),
            forall|i: int|
                0 <= i < self.columns@.len() ==> spec_column_like(
                    #[trigger] r.columns@[i],
                    self.columns@[i],
                ),
    {
        let name = match &self.name {
            Some(n) => n.clone(),
            Option::None => String::new(),
        };
        let ghost wanted = self.columns@;
        let mut table_definition = Table::new(name.as_str());
        table_definition.with_columns(self.columns);
        proof {
            assert forall|i: int| 0 <= i < wanted.len() implies spec_column_like(
                #[trigger] table_definition.columns@[i],
                wanted[i],
            ) by {
                assert(spec_column_like(table_definition.columns@[0 + i], wanted[i]));
            }
        }
        table_definition
    }
}

} // verus!

verus! {

/// The display name of a data type.
pub open spec fn spec_type_chars(d: DataType) -> Seq<char> {
    match d {
        DataType::Bool => "bool"@,
        DataType::Int => "int"@,
        DataType::Float => "float"@,
        DataType::Text => "varchar"@,
        DataType::Invalid => "invalid"@,
    }
}

/// The display name of a data type.
pub fn datatype_text(d: DataType) -> (r: &'static str)
    ensures
        r@ == spec_type_chars(d),
{
    match d {
        DataType::Bool => "bool",
        DataType::Int => "int",
        DataType::Float => "float",
        DataType::Text => "varchar",
        DataType::Invalid => "invalid",
    }
}

/// The display text of one column: its name and type, with the string
/// bound of a text column in parentheses.
pub open spec fn spec_column_string(c: Column) -> Seq<char> {
    c.name@ + ":"@ + spec_type_chars(c.data_type) + (if c.data_type is Text {
        "("@ + crate::display::spec_decimal_chars(c.max_str_len as int) + ")"@
    } else {
        Seq::<char>::empty()
    })
}

impl Column {
    /// Renders the column as `name:type`, with a text column's bound.
    pub fn to_string(&self) -> (r: String)
        ensures
            r@ == spec_column_string(*self),
    {
        let mut s = self.name.clone();
        s.append(":");
        s.append(datatype_text(self.data_type));
        if self.data_type == DataType::Text {
            s.append("(");
            let mut digits: Vec<u8> = Vec::new();
            crate::display::push_u64_decimal(&mut digits, self.max_str_len as u64);
            proof {
                crate::display::lemma_decimal_is_ascii(self.max_str_len as int);
                assert(digits@.map_values(|b: u8| b as char) =~= crate::display::spec_decimal_chars(
                    self.max_str_len as int,
                ));
            }
            s.append(crate::display::ascii_to_string(digits).as_str());
            s.append(")");
            proof {
                assert(s@ =~= spec_column_string(*self));
            }
        } else {
            proof {
                assert(s@ =~= spec_column_string(*self));
            }
        }
        s
    }
}

/// The display text of a schema's columns, comma separated, over a prefix.
pub open spec fn spec_columns_string(cols: Seq<Column>, n: int) -> Seq<char>
    decreases n,
{
    if n <= 0 {
        Seq::empty()
    } else if n == 1 {
        spec_column_string(cols[0])
    } else {
        spec_columns_string(cols, n - 1) + ", "@ + spec_column_string(cols[n - 1])
    }
}

impl Table {
    /// Renders the schema as `name(column, column, ...)`.
    pub fn to_string(&self) -> (r: String)
        ensures
            r@ == self.name@ + "("@ + spec_columns_string(
                self.columns@,
                self.columns@.len() as int,
            ) + ")"@,
    {
        let mut s = self.name.clone();
        s.append("(");
        let n = self.columns.len();
        let mut i: usize = 0;
        while i < n
            invariant
                n == self.columns@.len(),
                i <= n,
                s@ == self.name@ + "("@ + spec_columns_string(self.columns@, i as int),
            decreases n - i,
        {
            if i > 0 {
                s.append(", ");
            }
            s.append(self.columns[i].to_string().as_str());
            i = i + 1;
        }
        s.append(")");
        s
    }
}

} // verus!
