use vstd::prelude::*;

use crate::errors::Error;

verus! {

/// The type of a column or of a field value.
#[derive(Clone, Copy, Debug, PartialEq, Eq, Hash, Structural)]
pub enum DataType {
    Bool,
    Int,
    Float,
    Text,
    Invalid,
}

impl DataType {
    /// Byte width of a fixed-width value of this type; 0 for text and invalid.
    pub fn length_bytes(&self) -> (r: u16)
        ensures
            r == spec_length_bytes(*self),
    {
        match self {
            DataType::Bool => 1,
            DataType::Int => 4,
            DataType::Float => 4,
            DataType::Text => 0,
            DataType::Invalid => 0,
        }
    }
}

impl DataType {
    /// The type a name denotes; names outside the five known ones are not
    /// accepted, and a null type name maps to the invalid type.
    pub fn from_string(data_type: &str) -> (r: Result<DataType, crate::errors::Error>)
        ensures
            data_type@ == "Bool"@ ==> r == Ok::<DataType, crate::errors::Error>(DataType::Bool),
            data_type@ == "Int"@ ==> r == Ok::<DataType, crate::errors::Error>(DataType::Int),
            data_type@ == "Float"@ ==> r == Ok::<DataType, crate::errors::Error>(DataType::Float),
            data_type@ == "Text"@ ==> r == Ok::<DataType, crate::errors::Error>(DataType::Text),
            data_type@ == "Invalid"@ || data_type@ == "Null"@ ==> r == Ok::<
                DataType,
                crate::errors::Error,
            >(DataType::Invalid),
    {
        broadcast use vstd::string::group_string_axioms;

        proof {
            reveal_strlit("Bool");
            reveal_strlit("Int");
            reveal_strlit("Float");
            reveal_strlit("Text");
            reveal_strlit("Invalid");
            reveal_strlit("Null");
            assert("Bool"@.len() == 4 && "Int"@.len() == 3 && "Float"@.len() == 5
                && "Text"@.len() == 4 && "Invalid"@.len() == 7 && "Null"@.len() == 4);
            assert("Bool"@ != "Text"@) by {
                assert("Bool"@[0] != "Text"@[0]);
            }
            assert("Bool"@ != "Null"@) by {
                assert("Bool"@[0] != "Null"@[0]);
            }
            assert("Text"@ != "Null"@) by {
                assert("Text"@[0] != "Null"@[0]);
            }
        }
        let name = data_type.to_string();
        if name == "Bool".to_string() {
            Ok(DataType::Bool)
        } else if name == "Int".to_string() {
            Ok(DataType::Int)
        } else if name == "Float".to_string() {
            Ok(DataType::Float)
        } else if name == "Text".to_string() {
            Ok(DataType::Text)
        } else if name == "Invalid".to_string() {
            Ok(DataType::Invalid)
        } else if name == "Null".to_string() {
            Ok(DataType::Invalid)
        } else {
            Err(crate::errors::Error::InvalidInput("unknown data type name".to_string()))
        }
    }
}

/// Byte width of a fixed-width value of the given type; 0 for text and invalid.
pub open spec fn spec_length_bytes(d: DataType) -> u16 {
    match d {
        DataType::Bool => 1,
        DataType::Int => 4,
        DataType::Float => 4,
        DataType::Text => 0,
        DataType::Invalid => 0,
    }
}

/// A single tagged value stored in a row. A float is carried as the bit
/// pattern of an IEEE-754 single-precision number: every structural use of
/// a float (ordering, equality, storage) is defined on the bits.
#[derive(Debug)]
pub enum Field {
    Null,
    Boolean(bool),
    Integer(i32),
    Float(u32),
    String(String),
}

/// The mathematical value of a `Field`: text becomes its character sequence.
pub enum FieldView {
    Null,
    Boolean(bool),
    Integer(i32),
    Float(u32),
    Text(Seq<char>),
}

impl View for Field {
    type V = FieldView;

    open spec fn view(&self) -> FieldView {
        match self {
            Field::Null => FieldView::Null,
            Field::Boolean(b) => FieldView::Boolean(*b),
            Field::Integer(i) => FieldView::Integer(*i),
            Field::Float(bits) => FieldView::Float(*bits),
            Field::String(s) => FieldView::Text(s@),
        }
    }
}

/// Whether the bit pattern encodes an IEEE-754 single-precision NaN.
pub open spec fn spec_f32_bits_is_nan(b: u32) -> bool {
    (b >> 23) & 0xff == 0xff && b & 0x7fffff != 0
}

/// Whether the bit pattern encodes a positive or negative zero.
pub open spec fn spec_f32_bits_is_zero(b: u32) -> bool {
    b & 0x7fffffff == 0
}

/// Whether the bit pattern encodes an IEEE-754 NaN.
pub fn f32_bits_is_nan(b: u32) -> (r: bool)
    ensures
        r == spec_f32_bits_is_nan(b),
{
    (b >> 23) & 0xff == 0xff && b & 0x7fffff != 0
}

/// Whether the bit pattern encodes a positive or negative zero.
pub fn f32_bits_is_zero(b: u32) -> (r: bool)
    ensures
        r == spec_f32_bits_is_zero(b),
{
    b & 0x7fffffff == 0
}

/// The IEEE-754 `<` relation on two non-NaN single-precision bit patterns:
/// sign first, then magnitude, with the two zeroes equal.
pub open spec fn spec_f32_bits_lt(a: u32, b: u32) -> bool {
    let sa = a >> 31;
    let sb = b >> 31;
    let ma = a & 0x7fffffff;
    let mb = b & 0x7fffffff;
    if sa != sb {
        sa == 1 && !(ma == 0 && mb == 0)
    } else if sa == 0 {
        ma < mb
    } else {
        mb < ma
    }
}

/// The IEEE-754 `<` relation on two non-NaN single-precision bit patterns.
pub fn f32_bits_lt(a: u32, b: u32) -> (r: bool)
    ensures
        r == spec_f32_bits_lt(a, b),
{
    let sa = a >> 31;
    let sb = b >> 31;
    let ma = a & 0x7fffffff;
    let mb = b & 0x7fffffff;
    if sa != sb {
        sa == 1 && !(ma == 0 && mb == 0)
    } else if sa == 0 {
        ma < mb
    } else {
        mb < ma
    }
}

/// Field equality: NaN equals NaN, the two float zeroes are equal, and
/// otherwise values of the same variant compare by content.
pub open spec fn spec_field_eq(a: FieldView, b: FieldView) -> bool {
    match (a, b) {
        (FieldView::Null, FieldView::Null) => true,
        (FieldView::Boolean(x), FieldView::Boolean(y)) => x == y,
        (FieldView::Integer(x), FieldView::Integer(y)) => x == y,
        (FieldView::Float(x), FieldView::Float(y)) => {
            ||| x == y
            ||| spec_f32_bits_is_nan(x) && spec_f32_bits_is_nan(y)
            ||| spec_f32_bits_is_zero(x) && spec_f32_bits_is_zero(y)
        },
        (FieldView::Text(x), FieldView::Text(y)) => x == y,
        _ => false,
    }
}

impl PartialEq for Field {
    fn eq(&self, other: &Field) -> (r: bool) {
        match (self, other) {
            (Field::Null, Field::Null) => true,
            (Field::Boolean(x), Field::Boolean(y)) => *x == *y,
            (Field::Integer(x), Field::Integer(y)) => *x == *y,
            (Field::Float(x), Field::Float(y)) => {
                *x == *y || (f32_bits_is_nan(*x) && f32_bits_is_nan(*y)) || (f32_bits_is_zero(*x)
                    && f32_bits_is_zero(*y))
            },
            (Field::String(x), Field::String(y)) => *x == *y,
            _ => false,
        }
    }
}

impl Eq for Field {

}

impl Clone for Field {
    fn clone(&self) -> (r: Field)
        ensures
            r == *self,
    {
        match self {
            Field::Null => Field::Null,
            Field::Boolean(b) => Field::Boolean(*b),
            Field::Integer(i) => Field::Integer(*i),
            Field::Float(bits) => Field::Float(*bits),
            Field::String(s) => Field::String(s.clone()),
        }
    }
}

impl vstd::std_specs::cmp::PartialEqSpecImpl for Field {
    open spec fn obeys_eq_spec() -> bool {
        true
    }

    open spec fn eq_spec(&self, other: &Field) -> bool {
        spec_field_eq(self@, other@)
    }
}

impl Field {
    /// The default value of the given type.
    pub fn new(d: DataType) -> (r: Field)
        ensures
            r@ == spec_field_new(d),
    {
        match d {
            DataType::Bool => Field::Boolean(false),
            DataType::Int => Field::Integer(0),
            DataType::Float => Field::Float(0),
            DataType::Text => Field::String(String::new()),
            DataType::Invalid => Field::Null,
        }
    }

    /// The type tag of this value.
    pub fn get_type(&self) -> (r: DataType)
        ensures
            r == spec_field_type(self@),
    {
        match self {
            Field::Null => DataType::Invalid,
            Field::Boolean(_) => DataType::Bool,
            Field::Integer(_) => DataType::Int,
            Field::Float(_) => DataType::Float,
            Field::String(_) => DataType::Text,
        }
    }

    /// Whether this value is the null value.
    pub fn is_null(&self) -> (r: bool)
        ensures
            r == (self@ is Null),
    {
        match self {
            Field::Null => true,
            _ => false,
        }
    }

    /// Whether this value is undefined: null, or a float NaN.
    pub fn is_undefined(&self) -> (r: bool)
        ensures
            r == spec_field_is_undefined(self@),
    {
        match self {
            Field::Null => true,
            Field::Float(bits) => f32_bits_is_nan(*bits),
            _ => false,
        }
    }
}

/// The default value of the given type.
pub open spec fn spec_field_new(d: DataType) -> FieldView {
    match d {
        DataType::Bool => FieldView::Boolean(false),
        DataType::Int => FieldView::Integer(0),
        DataType::Float => FieldView::Float(0),
        DataType::Text => FieldView::Text(Seq::empty()),
        DataType::Invalid => FieldView::Null,
    }
}

/// The type tag of a field value.
pub open spec fn spec_field_type(f: FieldView) -> DataType {
    match f {
        FieldView::Null => DataType::Invalid,
        FieldView::Boolean(_) => DataType::Bool,
        FieldView::Integer(_) => DataType::Int,
        FieldView::Float(_) => DataType::Float,
        FieldView::Text(_) => DataType::Text,
    }
}

/// Whether a field value is undefined: null, or a float NaN.
pub open spec fn spec_field_is_undefined(f: FieldView) -> bool {
    match f {
        FieldView::Null => true,
        FieldView::Float(bits) => spec_f32_bits_is_nan(bits),
        _ => false,
    }
}

/// A column label, used in query results and plans.
#[derive(Debug)]
pub enum Label {
    /// No label.
    Unlabeled,
    /// An unqualified column name.
    Unqualified(String),
    /// A fully qualified table/column name.
    Qualified(String, String),
}

impl Clone for Label {
    fn clone(&self) -> (r: Label)
        ensures
            r == *self,
    {
        match self {
            Label::Unlabeled => Label::Unlabeled,
            Label::Unqualified(s) => Label::Unqualified(s.clone()),
            Label::Qualified(t, c) => Label::Qualified(t.clone(), c.clone()),
        }
    }
}

impl Label {
    /// The label as a short column header.
    pub fn as_header(&self) -> (r: &str)
        ensures
            r@ == spec_label_header(*self),
    {
        proof {
            reveal_strlit("?");
        }
        match self {
            Label::Qualified(_, column) => column.as_str(),
            Label::Unqualified(column) => column.as_str(),
            Label::Unlabeled => "?",
        }
    }
}

/// The header text of a label: the column part, or a placeholder.
pub open spec fn spec_label_header(l: Label) -> Seq<char> {
    match l {
        Label::Qualified(_, column) => column@,
        Label::Unqualified(column) => column@,
        Label::Unlabeled => seq!['?'],
    }
}

} // verus!

verus! {

/// The unsigned 32-bit number with the same bit pattern as the given integer.
pub open spec fn spec_i32_to_u32(i: i32) -> u32 {
    if i >= 0 {
        i as u32
    } else {
        (i + 0x1_0000_0000) as u32
    }
}

/// The signed 32-bit number with the same bit pattern as the given word.
pub open spec fn spec_u32_to_i32(u: u32) -> i32 {
    if u < 0x8000_0000 {
        u as i32
    } else {
        (u - 0x1_0000_0000) as i32
    }
}

/// The two bit-pattern conversions invert each other.
pub proof fn lemma_i32_u32_roundtrip(i: i32)
    ensures
        spec_u32_to_i32(spec_i32_to_u32(i)) == i,
{
}

/// The unsigned 32-bit number with the same bit pattern as the given integer.
pub fn i32_to_u32(i: i32) -> (r: u32)
    ensures
        r == spec_i32_to_u32(i),
{
    if i >= 0 {
        i as u32
    } else {
        (i as i64 + 0x1_0000_0000) as u32
    }
}

/// The signed 32-bit number with the same bit pattern as the given word.
pub fn u32_to_i32(u: u32) -> (r: i32)
    ensures
        r == spec_u32_to_i32(u),
{
    if u < 0x8000_0000 {
        u as i32
    } else {
        (u as i64 - 0x1_0000_0000) as i32
    }
}

impl From<i32> for Field {
    fn from(v: i32) -> (r: Field) {
        Field::Integer(v)
    }
}

impl vstd::std_specs::convert::FromSpecImpl<i32> for Field {
    open spec fn obeys_from_spec() -> bool {
        true
    }

    open spec fn from_spec(v: i32) -> Field {
        Field::Integer(v)
    }
}

impl From<bool> for Field {
    fn from(v: bool) -> (r: Field) {
        Field::Boolean(v)
    }
}

impl vstd::std_specs::convert::FromSpecImpl<bool> for Field {
    open spec fn obeys_from_spec() -> bool {
        true
    }

    open spec fn from_spec(v: bool) -> Field {
        Field::Boolean(v)
    }
}

impl From<String> for Field {
    fn from(v: String) -> (r: Field) {
        Field::String(v)
    }
}

impl vstd::std_specs::convert::FromSpecImpl<String> for Field {
    open spec fn obeys_from_spec() -> bool {
        true
    }

    open spec fn from_spec(v: String) -> Field {
        Field::String(v)
    }
}

impl<'a> From<&'a str> for Field {
    fn from(v: &'a str) -> (r: Field)
        ensures
            r@ == FieldView::Text(v@),
    {
        Field::String(v.to_string())
    }
}

impl<'a> vstd::std_specs::convert::FromSpecImpl<&'a str> for Field {
    open spec fn obeys_from_spec() -> bool {
        false
    }

    open spec fn from_spec(v: &'a str) -> Field {
        arbitrary()
    }
}

/// Lexicographic comparison of two byte strings.
pub open spec fn spec_lex_cmp(a: Seq<u8>, b: Seq<u8>) -> core::cmp::Ordering
    decreases a.len(),
{
    if a.len() == 0 && b.len() == 0 {
        core::cmp::Ordering::Equal
    } else if a.len() == 0 {
        core::cmp::Ordering::Less
    } else if b.len() == 0 {
        core::cmp::Ordering::Greater
    } else if a[0] < b[0] {
        core::cmp::Ordering::Less
    } else if a[0] > b[0] {
        core::cmp::Ordering::Greater
    } else {
        spec_lex_cmp(a.drop_first(), b.drop_first())
    }
}

/// Lexicographic comparison of two byte slices.
pub fn lex_cmp_bytes(a: &[u8], b: &[u8]) -> (r: core::cmp::Ordering)
    ensures
        r == spec_lex_cmp(a@, b@),
{
    let a_len: usize = a.len();
    let b_len: usize = b.len();
    let mut i: usize = 0;
    proof {
        assert(a@.skip(0) =~= a@);
        assert(b@.skip(0) =~= b@);
    }
    loop
        invariant
            i <= a_len,
            i <= b_len,
            a_len == a@.len(),
            b_len == b@.len(),
            spec_lex_cmp(a@, b@) == spec_lex_cmp(a@.skip(i as int), b@.skip(i as int)),
        decreases a_len - i,
    {
        if i == a_len && i == b_len {
            return core::cmp::Ordering::Equal;
        }
        if i == a_len {
            return core::cmp::Ordering::Less;
        }
        if i == b_len {
            return core::cmp::Ordering::Greater;
        }
        let x = a[i];
        let y = b[i];
        if x < y {
            return core::cmp::Ordering::Less;
        }
        if x > y {
            return core::cmp::Ordering::Greater;
        }
        proof {
            assert(a@.skip(i as int)[0] == a@[i as int]);
            assert(b@.skip(i as int)[0] == b@[i as int]);
            assert(a@.skip(i as int).drop_first() =~= a@.skip(i as int + 1));
            assert(b@.skip(i as int).drop_first() =~= b@.skip(i as int + 1));
        }
        i = i + 1;
    }
}

/// Rank of a field variant in the total order over variants:
/// null, then booleans, integers, floats, and text.
pub open spec fn spec_field_rank(f: FieldView) -> int {
    match f {
        FieldView::Null => 0,
        FieldView::Boolean(_) => 1,
        FieldView::Integer(_) => 2,
        FieldView::Float(_) => 3,
        FieldView::Text(_) => 4,
    }
}

/// Total order over field values: variants compare by rank; booleans,
/// integers and text by their natural orders; floats by the IEEE order
/// with every NaN equal to itself and greater than every other float.
pub open spec fn spec_field_cmp(a: FieldView, b: FieldView) -> core::cmp::Ordering {
    match (a, b) {
        (FieldView::Boolean(x), FieldView::Boolean(y)) => {
            if x == y {
                core::cmp::Ordering::Equal
            } else if !x {
                core::cmp::Ordering::Less
            } else {
                core::cmp::Ordering::Greater
            }
        },
        (FieldView::Integer(x), FieldView::Integer(y)) => {
            if x < y {
                core::cmp::Ordering::Less
            } else if x > y {
                core::cmp::Ordering::Greater
            } else {
                core::cmp::Ordering::Equal
            }
        },
        (FieldView::Float(x), FieldView::Float(y)) => {
            if spec_f32_bits_is_nan(x) && spec_f32_bits_is_nan(y) {
                core::cmp::Ordering::Equal
            } else if spec_f32_bits_is_nan(x) {
                core::cmp::Ordering::Greater
            } else if spec_f32_bits_is_nan(y) {
                core::cmp::Ordering::Less
            } else if spec_f32_bits_lt(x, y) {
                core::cmp::Ordering::Less
            } else if spec_f32_bits_lt(y, x) {
                core::cmp::Ordering::Greater
            } else {
                core::cmp::Ordering::Equal
            }
        },
        (FieldView::Text(x), FieldView::Text(y)) => spec_lex_cmp(
            vstd::utf8::encode_utf8(x),
            vstd::utf8::encode_utf8(y),
        ),
        _ => {
            if spec_field_rank(a) < spec_field_rank(b) {
                core::cmp::Ordering::Less
            } else if spec_field_rank(a) > spec_field_rank(b) {
                core::cmp::Ordering::Greater
            } else {
                core::cmp::Ordering::Equal
            }
        },
    }
}

impl Field {
    /// Total-order comparison used for sorting and for min/max aggregates.
    pub fn cmp(&self, other: &Field) -> (r: core::cmp::Ordering)
        ensures
            r == spec_field_cmp(self@, other@),
    {
        match (self, other) {
            (Field::Null, Field::Null) => core::cmp::Ordering::Equal,
            (Field::Boolean(x), Field::Boolean(y)) => {
                if *x == *y {
                    core::cmp::Ordering::Equal
                } else if !*x {
                    core::cmp::Ordering::Less
                } else {
                    core::cmp::Ordering::Greater
                }
            },
            (Field::Integer(x), Field::Integer(y)) => {
                if *x < *y {
                    core::cmp::Ordering::Less
                } else if *x > *y {
                    core::cmp::Ordering::Greater
                } else {
                    core::cmp::Ordering::Equal
                }
            },
            (Field::Float(x), Field::Float(y)) => {
                if f32_bits_is_nan(*x) && f32_bits_is_nan(*y) {
                    core::cmp::Ordering::Equal
                } else if f32_bits_is_nan(*x) {
                    core::cmp::Ordering::Greater
                } else if f32_bits_is_nan(*y) {
                    core::cmp::Ordering::Less
                } else if f32_bits_lt(*x, *y) {
                    core::cmp::Ordering::Less
                } else if f32_bits_lt(*y, *x) {
                    core::cmp::Ordering::Greater
                } else {
                    core::cmp::Ordering::Equal
                }
            },
            (Field::String(x), Field::String(y)) => lex_cmp_bytes(x.as_str().as_bytes(), y.as_str().as_bytes()),
            _ => {
                let ra = self.rank();
                let rb = other.rank();
                if ra < rb {
                    core::cmp::Ordering::Less
                } else if ra > rb {
                    core::cmp::Ordering::Greater
                } else {
                    core::cmp::Ordering::Equal
                }
            },
        }
    }

    /// Rank of this value's variant in the cross-variant order.
    fn rank(&self) -> (r: u8)
        ensures
            r as int == spec_field_rank(self@),
    {
        match self {
            Field::Null => 0,
            Field::Boolean(_) => 1,
            Field::Integer(_) => 2,
            Field::Float(_) => 3,
            Field::String(_) => 4,
        }
    }
}

impl PartialOrd for Field {
    fn partial_cmp(&self, other: &Field) -> (r: Option<core::cmp::Ordering>) {
        Some(self.cmp(other))
    }
}

impl vstd::std_specs::cmp::PartialOrdSpecImpl for Field {
    open spec fn obeys_partial_cmp_spec() -> bool {
        true
    }

    open spec fn partial_cmp_spec(&self, other: &Field) -> Option<core::cmp::Ordering> {
        Some(spec_field_cmp(self@, other@))
    }
}

} // verus!

verus! {

/// The byte length of a field value when serialized into a row.
pub open spec fn spec_field_size(f: FieldView) -> int {
    match f {
        FieldView::Null => 0,
        FieldView::Boolean(_) => 1,
        FieldView::Integer(_) => 4,
        FieldView::Float(_) => 4,
        FieldView::Text(t) => vstd::utf8::encode_utf8(t).len() as int,
    }
}

/// The serialized bytes of one field value: booleans as one byte, numbers
/// little-endian, text as its UTF-8 encoding, and null as a single zero byte.
pub open spec fn spec_field_serialize(f: FieldView) -> Seq<u8> {
    match f {
        FieldView::Null => seq![0u8],
        FieldView::Boolean(b) => seq![if b { 1u8 } else { 0u8 }],
        FieldView::Integer(i) => vstd::bytes::spec_u32_to_le_bytes(spec_i32_to_u32(i)),
        FieldView::Float(bits) => vstd::bytes::spec_u32_to_le_bytes(bits),
        FieldView::Text(t) => vstd::utf8::encode_utf8(t),
    }
}

/// The field value read back from serialized bytes of the given type.
pub open spec fn spec_field_deserialize(data: Seq<u8>, dt: DataType) -> FieldView {
    match dt {
        DataType::Bool => FieldView::Boolean(data[0] != 0),
        DataType::Int => FieldView::Integer(spec_u32_to_i32(vstd::bytes::spec_u32_from_le_bytes(data))),
        DataType::Float => FieldView::Float(vstd::bytes::spec_u32_from_le_bytes(data)),
        DataType::Text => FieldView::Text(vstd::utf8::decode_utf8(data)),
        DataType::Invalid => FieldView::Null,
    }
}

/// Relies on `String::from_utf8` of std: it succeeds exactly on valid UTF-8
/// input and returns the string holding those bytes.
#[verifier::external_body]
pub(crate) fn string_from_utf8(v: Vec<u8>) -> (r: Option<String>)
    ensures
        r is Some <==> vstd::utf8::valid_utf8(v@),
        r matches Some(s) ==> s@ == vstd::utf8::decode_utf8(v@),
{
    String::from_utf8(v).ok()
}

impl Field {
    /// The byte length of this value when serialized into a row.
    pub fn get_size(&self) -> (r: u16)
        requires
            spec_field_size(self@) <= u16::MAX,
        ensures
            r == spec_field_size(self@),
    {
        match self {
            Field::Null => 0,
            Field::Boolean(_) => 1,
            Field::Integer(_) => 4,
            Field::Float(_) => 4,
            Field::String(s) => s.as_str().len() as u16,
        }
    }

    /// Serializes this value into the bytes that a row stores for it.
    pub fn serialize(&self) -> (r: Vec<u8>)
        ensures
            r@ == spec_field_serialize(self@),
    {
        match self {
            Field::Null => {
                let mut v: Vec<u8> = Vec::new();
                v.push(0);
                proof {
                    assert(v@ =~= seq![0u8]);
                }
                v
            },
            Field::Boolean(b) => {
                let mut v: Vec<u8> = Vec::new();
                if *b {
                    v.push(1);
                } else {
                    v.push(0);
                }
                proof {
                    assert(v@ =~= seq![if self@->Boolean_0 { 1u8 } else { 0u8 }]);
                }
                v
            },
            Field::Integer(i) => vstd::bytes::u32_to_le_bytes(i32_to_u32(*i)),
            Field::Float(bits) => vstd::bytes::u32_to_le_bytes(*bits),
            Field::String(s) => s.as_str().as_bytes_vec(),
        }
    }

    /// Reads a value of the given type back from its serialized bytes.
    ///
    /// Numbers take exactly four bytes, booleans one; text must be valid
    /// UTF-8, as every buffer written by `serialize` is.
    pub fn deserialize(data: &[u8], data_type: DataType) -> (r: Field)
        requires
            data_type is Bool ==> data@.len() >= 1,
            data_type is Int ==> data@.len() == 4,
            data_type is Float ==> data@.len() == 4,
            data_type is Text ==> vstd::utf8::valid_utf8(data@),
        ensures
            r@ == spec_field_deserialize(data@, data_type),
    {
        match data_type {
            DataType::Bool => {
                if data[0] == 0 {
                    Field::Boolean(false)
                } else {
                    Field::Boolean(true)
                }
            },
            DataType::Int => Field::Integer(u32_to_i32(vstd::bytes::u32_from_le_bytes(data))),
            DataType::Float => Field::Float(vstd::bytes::u32_from_le_bytes(data)),
            DataType::Text => {
                let v = vstd::slice::slice_to_vec(data);
                match string_from_utf8(v) {
                    Some(s) => Field::String(s),
                    Option::None => Field::Null,
                }
            },
            DataType::Invalid => Field::Null,
        }
    }
}

/// Serializing a field and reading it back with its own type yields the
/// same value, for every field whose type is concrete.
pub proof fn lemma_field_roundtrip(f: FieldView)
    ensures
        !(f is Null) ==> spec_field_deserialize(
            spec_field_serialize(f),
            spec_field_type(f),
        ) == f,
{
    vstd::bytes::lemma_auto_spec_u32_to_from_le_bytes();
    match f {
        FieldView::Text(t) => {
            vstd::utf8::encode_utf8_decode_utf8(t);
            assert(spec_field_deserialize(spec_field_serialize(f), spec_field_type(f)) == f);
        },
        FieldView::Integer(i) => {
            let u = spec_i32_to_u32(i);
            assert(vstd::bytes::spec_u32_to_le_bytes(u).len() == 4);
            assert(vstd::bytes::spec_u32_from_le_bytes(vstd::bytes::spec_u32_to_le_bytes(u)) == u);
            lemma_i32_u32_roundtrip(i);
            assert(spec_field_deserialize(spec_field_serialize(f), spec_field_type(f)) == f);
        },
        FieldView::Float(bits) => {
            assert(vstd::bytes::spec_u32_to_le_bytes(bits).len() == 4);
            assert(vstd::bytes::spec_u32_from_le_bytes(vstd::bytes::spec_u32_to_le_bytes(bits))
                == bits);
            assert(spec_field_deserialize(spec_field_serialize(f), spec_field_type(f)) == f);
        },
        FieldView::Boolean(b) => {
            assert(spec_field_serialize(f)[0] == if b {
                1u8
            } else {
                0u8
            });
            assert(spec_field_deserialize(spec_field_serialize(f), spec_field_type(f)) == f);
        },
        FieldView::Null => {},
    }
}

} // verus!

verus! {

/// Outcome of a checked arithmetic operation on two field values.
pub enum FieldArith {
    /// The operation has this result.
    Value(FieldView),
    /// The exact integer result does not fit in 32 bits.
    Overflow,
    /// The operands fit no supported operation: a type mismatch, a division
    /// by zero, or arithmetic on floats, which stays outside this engine.
    Invalid,
}

/// Checked addition of two field values.
pub open spec fn spec_checked_add(a: FieldView, b: FieldView) -> FieldArith {
    match (a, b) {
        (FieldView::Integer(x), FieldView::Integer(y)) => {
            if i32::MIN <= x + y <= i32::MAX {
                FieldArith::Value(FieldView::Integer((x + y) as i32))
            } else {
                FieldArith::Overflow
            }
        },
        (FieldView::Null, FieldView::Integer(_)) => FieldArith::Value(FieldView::Null),
        (FieldView::Null, FieldView::Float(_)) => FieldArith::Value(FieldView::Null),
        (FieldView::Integer(_), FieldView::Null) => FieldArith::Value(FieldView::Null),
        (FieldView::Float(_), FieldView::Null) => FieldArith::Value(FieldView::Null),
        (FieldView::Null, FieldView::Null) => FieldArith::Value(FieldView::Null),
        _ => FieldArith::Invalid,
    }
}

/// Checked subtraction of two field values.
pub open spec fn spec_checked_sub(a: FieldView, b: FieldView) -> FieldArith {
    match (a, b) {
        (FieldView::Integer(x), FieldView::Integer(y)) => {
            if i32::MIN <= x - y <= i32::MAX {
                FieldArith::Value(FieldView::Integer((x - y) as i32))
            } else {
                FieldArith::Overflow
            }
        },
        (FieldView::Null, FieldView::Integer(_)) => FieldArith::Value(FieldView::Null),
        (FieldView::Null, FieldView::Float(_)) => FieldArith::Value(FieldView::Null),
        (FieldView::Integer(_), FieldView::Null) => FieldArith::Value(FieldView::Null),
        (FieldView::Float(_), FieldView::Null) => FieldArith::Value(FieldView::Null),
        (FieldView::Null, FieldView::Null) => FieldArith::Value(FieldView::Null),
        _ => FieldArith::Invalid,
    }
}

/// Checked multiplication of two field values.
pub open spec fn spec_checked_mul(a: FieldView, b: FieldView) -> FieldArith {
    match (a, b) {
        (FieldView::Integer(x), FieldView::Integer(y)) => {
            if i32::MIN <= x * y <= i32::MAX {
                FieldArith::Value(FieldView::Integer((x * y) as i32))
            } else {
                FieldArith::Overflow
            }
        },
        (FieldView::Null, FieldView::Integer(_)) => FieldArith::Value(FieldView::Null),
        (FieldView::Null, FieldView::Float(_)) => FieldArith::Value(FieldView::Null),
        (FieldView::Integer(_), FieldView::Null) => FieldArith::Value(FieldView::Null),
        (FieldView::Float(_), FieldView::Null) => FieldArith::Value(FieldView::Null),
        (FieldView::Null, FieldView::Null) => FieldArith::Value(FieldView::Null),
        _ => FieldArith::Invalid,
    }
}

/// Quotient of two integers with truncation toward zero.
pub open spec fn spec_trunc_div(x: int, y: int) -> int {
    let q = vstd::math::abs(x) / vstd::math::abs(y);
    if (x < 0) != (y < 0) {
        -(q as int)
    } else {
        q as int
    }
}

/// Remainder of two integers with the sign of the dividend.
pub open spec fn spec_trunc_rem(x: int, y: int) -> int {
    let r = vstd::math::abs(x) % vstd::math::abs(y);
    if x < 0 {
        -(r as int)
    } else {
        r as int
    }
}

/// Checked division of two field values. A zero divisor is refused outright;
/// an integer division is exact or refused, since an inexact quotient would
/// be a float.
pub open spec fn spec_checked_div(a: FieldView, b: FieldView) -> FieldArith {
    if b == FieldView::Integer(0) || (b matches FieldView::Float(z) && spec_f32_bits_is_zero(z)) {
        FieldArith::Invalid
    } else {
        match (a, b) {
            (FieldView::Integer(x), FieldView::Integer(y)) => {
                if x == i32::MIN && y == -1 {
                    FieldArith::Overflow
                } else if spec_trunc_rem(x as int, y as int) == 0 {
                    FieldArith::Value(FieldView::Integer(spec_trunc_div(x as int, y as int) as i32))
                } else {
                    FieldArith::Invalid
                }
            },
            (FieldView::Null, FieldView::Integer(_)) => FieldArith::Value(FieldView::Null),
            (FieldView::Null, FieldView::Float(_)) => FieldArith::Value(FieldView::Null),
            (FieldView::Integer(_), FieldView::Null) => FieldArith::Value(FieldView::Null),
            (FieldView::Float(_), FieldView::Null) => FieldArith::Value(FieldView::Null),
            (FieldView::Null, FieldView::Null) => FieldArith::Value(FieldView::Null),
            _ => FieldArith::Invalid,
        }
    }
}

/// Checked remainder of two field values.
pub open spec fn spec_checked_mod(a: FieldView, b: FieldView) -> FieldArith {
    match (a, b) {
        (FieldView::Integer(x), FieldView::Integer(y)) => {
            if y == 0 {
                FieldArith::Invalid
            } else if x == i32::MIN && y == -1 {
                FieldArith::Overflow
            } else {
                FieldArith::Value(FieldView::Integer(spec_trunc_rem(x as int, y as int) as i32))
            }
        },
        (FieldView::Null, FieldView::Integer(_)) => FieldArith::Value(FieldView::Null),
        (FieldView::Null, FieldView::Float(_)) => FieldArith::Value(FieldView::Null),
        (FieldView::Integer(_), FieldView::Null) => FieldArith::Value(FieldView::Null),
        (FieldView::Float(_), FieldView::Null) => FieldArith::Value(FieldView::Null),
        (FieldView::Null, FieldView::Null) => FieldArith::Value(FieldView::Null),
        _ => FieldArith::Invalid,
    }
}

/// The absolute value of a 32-bit integer, as an unsigned 64-bit number.
fn i32_abs_u64(x: i32) -> (r: u64)
    ensures
        r == vstd::math::abs(x as int),
{
    if x >= 0 {
        x as u64
    } else {
        let v: i64 = -(x as i64);
        v as u64
    }
}

impl Field {
    /// Adds two values; null propagates through numbers, an integer overflow
    /// and a type mismatch are errors, and float arithmetic is refused.
    pub fn checked_add(&self, other: &Field) -> (r: Result<Field, Error>)
        ensures
            spec_checked_add(self@, other@) matches FieldArith::Value(v) ==> (r matches Ok(f)
                && f@ == v),
            spec_checked_add(self@, other@) is Overflow ==> r == Err::<Field, Error>(
                Error::OverflowError,
            ),
            spec_checked_add(self@, other@) is Invalid ==> (r matches Err(e) && e is InvalidInput),
    {
        match (self, other) {
            (Field::Integer(x), Field::Integer(y)) => {
                let s: i64 = *x as i64 + *y as i64;
                if i32::MIN as i64 <= s && s <= i32::MAX as i64 {
                    Ok(Field::Integer(s as i32))
                } else {
                    Err(Error::OverflowError)
                }
            },
            (Field::Null, Field::Integer(_)) => Ok(Field::Null),
            (Field::Null, Field::Float(_)) => Ok(Field::Null),
            (Field::Integer(_), Field::Null) => Ok(Field::Null),
            (Field::Float(_), Field::Null) => Ok(Field::Null),
            (Field::Null, Field::Null) => Ok(Field::Null),
            _ => Err(Error::InvalidInput("cannot add these field values".to_string())),
        }
    }

    /// Subtracts two values, with the same rules as addition.
    pub fn checked_sub(&self, other: &Field) -> (r: Result<Field, Error>)
        ensures
            spec_checked_sub(self@, other@) matches FieldArith::Value(v) ==> (r matches Ok(f)
                && f@ == v),
            spec_checked_sub(self@, other@) is Overflow ==> r == Err::<Field, Error>(
                Error::OverflowError,
            ),
            spec_checked_sub(self@, other@) is Invalid ==> (r matches Err(e) && e is InvalidInput),
    {
        match (self, other) {
            (Field::Integer(x), Field::Integer(y)) => {
                let s: i64 = *x as i64 - *y as i64;
                if i32::MIN as i64 <= s && s <= i32::MAX as i64 {
                    Ok(Field::Integer(s as i32))
                } else {
                    Err(Error::OverflowError)
                }
            },
            (Field::Null, Field::Integer(_)) => Ok(Field::Null),
            (Field::Null, Field::Float(_)) => Ok(Field::Null),
            (Field::Integer(_), Field::Null) => Ok(Field::Null),
            (Field::Float(_), Field::Null) => Ok(Field::Null),
            (Field::Null, Field::Null) => Ok(Field::Null),
            _ => Err(Error::InvalidInput("cannot subtract these field values".to_string())),
        }
    }

    /// Multiplies two values, with the same rules as addition.
    pub fn checked_mul(&self, other: &Field) -> (r: Result<Field, Error>)
        ensures
            spec_checked_mul(self@, other@) matches FieldArith::Value(v) ==> (r matches Ok(f)
                && f@ == v),
            spec_checked_mul(self@, other@) is Overflow ==> r == Err::<Field, Error>(
                Error::OverflowError,
            ),
            spec_checked_mul(self@, other@) is Invalid ==> (r matches Err(e) && e is InvalidInput),
    {
        match (self, other) {
            (Field::Integer(x), Field::Integer(y)) => {
                proof {
                    let xi = *x as int;
                    let yi = *y as int;
                    assert(-0x4000_0000_0000_0000 <= xi * yi <= 0x4000_0000_0000_0000)
                        by (nonlinear_arith)
                        requires
                            -0x8000_0000 <= xi <= 0x7fff_ffff,
                            -0x8000_0000 <= yi <= 0x7fff_ffff,
                    ;
                }
                let s: i64 = (*x as i64) * (*y as i64);
                if i32::MIN as i64 <= s && s <= i32::MAX as i64 {
                    Ok(Field::Integer(s as i32))
                } else {
                    Err(Error::OverflowError)
                }
            },
            (Field::Null, Field::Integer(_)) => Ok(Field::Null),
            (Field::Null, Field::Float(_)) => Ok(Field::Null),
            (Field::Integer(_), Field::Null) => Ok(Field::Null),
            (Field::Float(_), Field::Null) => Ok(Field::Null),
            (Field::Null, Field::Null) => Ok(Field::Null),
            _ => Err(Error::InvalidInput("cannot multiply these field values".to_string())),
        }
    }

    /// Divides two values. Division by zero is an error; an integer quotient
    /// must be exact, since an inexact one would be a float.
    pub fn checked_div(&self, other: &Field) -> (r: Result<Field, Error>)
        ensures
            spec_checked_div(self@, other@) matches FieldArith::Value(v) ==> (r matches Ok(f)
                && f@ == v),
            spec_checked_div(self@, other@) is Overflow ==> r == Err::<Field, Error>(
                Error::OverflowError,
            ),
            spec_checked_div(self@, other@) is Invalid ==> (r matches Err(e) && e is InvalidInput),
    {
        let zero_divisor = match other {
            Field::Integer(y) => *y == 0,
            Field::Float(z) => f32_bits_is_zero(*z),
            _ => false,
        };
        if zero_divisor {
            return Err(Error::InvalidInput("Division by zero".to_string()));
        }
        match (self, other) {
            (Field::Integer(x), Field::Integer(y)) => {
                if *x == i32::MIN && *y == -1 {
                    return Err(Error::OverflowError);
                }
                let ax = i32_abs_u64(*x);
                let ay = i32_abs_u64(*y);
                if ax % ay == 0 {
                    let q = ax / ay;
                    if (*x < 0) != (*y < 0) {
                        Ok(Field::Integer((-(q as i64)) as i32))
                    } else {
                        Ok(Field::Integer(q as i32))
                    }
                } else {
                    Err(Error::InvalidInput("inexact integer division".to_string()))
                }
            },
            (Field::Null, Field::Integer(_)) => Ok(Field::Null),
            (Field::Null, Field::Float(_)) => Ok(Field::Null),
            (Field::Integer(_), Field::Null) => Ok(Field::Null),
            (Field::Float(_), Field::Null) => Ok(Field::Null),
            (Field::Null, Field::Null) => Ok(Field::Null),
            _ => Err(Error::InvalidInput("cannot divide these field values".to_string())),
        }
    }

    /// Takes the remainder of two values, with the dividend's sign.
    pub fn checked_mod(&self, other: &Field) -> (r: Result<Field, Error>)
        ensures
            spec_checked_mod(self@, other@) matches FieldArith::Value(v) ==> (r matches Ok(f)
                && f@ == v),
            spec_checked_mod(self@, other@) is Overflow ==> r == Err::<Field, Error>(
                Error::OverflowError,
            ),
            spec_checked_mod(self@, other@) is Invalid ==> (r matches Err(e) && e is InvalidInput),
    {
        match (self, other) {
            (Field::Integer(x), Field::Integer(y)) => {
                if *y == 0 {
                    return Err(Error::InvalidInput("Division by zero".to_string()));
                }
                if *x == i32::MIN && *y == -1 {
                    return Err(Error::OverflowError);
                }
                let ax = i32_abs_u64(*x);
                let ay = i32_abs_u64(*y);
                let rm = ax % ay;
                if *x < 0 {
                    Ok(Field::Integer((-(rm as i64)) as i32))
                } else {
                    Ok(Field::Integer(rm as i32))
                }
            },
            (Field::Null, Field::Integer(_)) => Ok(Field::Null),
            (Field::Null, Field::Float(_)) => Ok(Field::Null),
            (Field::Integer(_), Field::Null) => Ok(Field::Null),
            (Field::Float(_), Field::Null) => Ok(Field::Null),
            (Field::Null, Field::Null) => Ok(Field::Null),
            _ => Err(Error::InvalidInput("cannot take the remainder of these field values".to_string())),
        }
    }
}

} // verus!
