use rustydb::errors::Error;
use rustydb::field::{DataType, Field};

#[test]
pub fn test_init() {
    let v = Field::Null;
    assert_eq!(v, Field::Null);
}

#[test]
pub fn test_field_by_type() {
    let v = Field::Integer(10);
    match v {
        Field::Integer(i) => assert_eq!(i, 10),
        _ => panic!("Expected Integer"),
    }

    let v = Field::Float((7.0f32).to_bits());
    match v {
        Field::Float(bits) => assert_eq!(f32::from_bits(bits), 7.0),
        _ => panic!("Expected Float"),
    }
}

#[test]
pub fn field_test_comparison() {
    let lhs = Field::Integer(10);
    let rhs = Field::Integer(7);

    assert!(lhs > rhs);

    let lhs = Field::Float((10.0f32).to_bits());
    let rhs = Field::Float((7.0f32).to_bits());

    assert!(lhs > rhs);
}

#[test]
pub fn test_serialization() {
    let v = Field::Integer(10);
    let serialized = v.serialize();
    let deserialized = Field::deserialize(serialized.as_slice(), DataType::Int);

    assert_eq!(v, deserialized);

    let s = Field::from("testing, 1, 2, 3");
    let serialized = s.serialize();
    let deserialized = Field::deserialize(serialized.as_slice(), DataType::Text);
    assert_eq!(s, deserialized);
}

#[test]
pub fn integer_checked_arithmetic() {
    assert_eq!(
        Field::Integer(10).checked_add(&Field::Integer(7)).unwrap(),
        Field::Integer(17)
    );
    assert_eq!(
        Field::Integer(10).checked_sub(&Field::Integer(7)).unwrap(),
        Field::Integer(3)
    );
    assert_eq!(
        Field::Integer(6).checked_mul(&Field::Integer(7)).unwrap(),
        Field::Integer(42)
    );
    assert_eq!(
        Field::Integer(42).checked_div(&Field::Integer(6)).unwrap(),
        Field::Integer(7)
    );
    assert_eq!(
        Field::Integer(43).checked_mod(&Field::Integer(6)).unwrap(),
        Field::Integer(1)
    );
    // null propagates through numeric arithmetic
    assert_eq!(
        Field::Null.checked_add(&Field::Integer(1)).unwrap(),
        Field::Null
    );
    // overflow surfaces as an error
    assert!(Field::Integer(i32::MAX).checked_add(&Field::Integer(1)).is_err());
    // division by zero fails
    assert!(Field::Integer(1).checked_div(&Field::Integer(0)).is_err());
    // a type mismatch fails
    assert!(Field::Boolean(true).checked_add(&Field::Integer(1)).is_err());
}

#[test]
pub fn float_ordering_and_nan() {
    let nan = Field::Float(f32::NAN.to_bits());
    let one = Field::Float((1.0f32).to_bits());
    let neg = Field::Float((-5.5f32).to_bits());
    // NaN sorts as the greatest float and equals itself
    assert!(nan > one);
    assert_eq!(nan, Field::Float(f32::NAN.to_bits()));
    assert!(nan.is_undefined());
    assert!(!one.is_undefined());
    // the two zeroes are equal
    assert_eq!(
        Field::Float((0.0f32).to_bits()),
        Field::Float((-0.0f32).to_bits())
    );
    assert!(neg < one);
    // the cross-variant order: null, booleans, integers, floats, text
    assert!(Field::Null < Field::Boolean(false));
    assert!(Field::Boolean(true) < Field::Integer(-7));
    assert!(Field::Integer(100) < neg);
    assert!(one < Field::from("a"));
}

#[test]
pub fn data_type_names_round_trip() {
    assert_eq!(DataType::from_string("Bool").unwrap(), DataType::Bool);
    assert_eq!(DataType::from_string("Int").unwrap(), DataType::Int);
    assert_eq!(DataType::from_string("Float").unwrap(), DataType::Float);
    assert_eq!(DataType::from_string("Text").unwrap(), DataType::Text);
    assert_eq!(DataType::from_string("Invalid").unwrap(), DataType::Invalid);
    assert_eq!(DataType::from_string("Null").unwrap(), DataType::Invalid);
    assert!(DataType::from_string("Decimal").is_err());
    assert_eq!(DataType::Bool.length_bytes(), 1);
    assert_eq!(DataType::Int.length_bytes(), 4);
    assert_eq!(DataType::Float.length_bytes(), 4);
    assert_eq!(DataType::Text.length_bytes(), 0);
}

#[test]
fn division_and_modulo_by_zero_report_invalid_input() {
    let div = Field::Integer(1).checked_div(&Field::Integer(0));
    assert!(matches!(div, Err(Error::InvalidInput(_))));
    let rem = Field::Integer(1).checked_mod(&Field::Integer(0));
    assert!(matches!(rem, Err(Error::InvalidInput(_))));
}
