use db::data_type::DataType;
use db::decimal::Decimal;
use db::value::Value;

#[test]
fn test_is_null() {
    assert!(Value::Null.is_null());
    assert!(!Value::Int(1).is_null());
    assert!(!Value::Float(Decimal::new(10, 1)).is_null());
    assert!(!Value::Text("x".into()).is_null());
    assert!(!Value::Bool(true).is_null());
}

#[test]
fn test_as_int() {
    assert_eq!(Value::Int(42).as_int(), Some(42));
    assert_eq!(Value::Null.as_int(), None);
    assert_eq!(Value::Float(Decimal::new(10, 1)).as_int(), None);
    assert_eq!(Value::Text("42".into()).as_int(), None);
    assert_eq!(Value::Bool(true).as_int(), None);
}

#[test]
fn test_as_float() {
    assert_eq!(
        Value::Float(Decimal::new(314, 2)).as_float(),
        Some(Decimal::new(314, 2))
    );
    assert_eq!(Value::Null.as_float(), None);
    assert_eq!(Value::Int(1).as_float(), None);
    assert_eq!(Value::Text("3.14".into()).as_float(), None);
    assert_eq!(Value::Bool(false).as_float(), None);
}

#[test]
fn test_as_str() {
    let v = Value::Text("hello".into());

    assert_eq!(v.as_str(), Some("hello"));
    assert_eq!(Value::Null.as_str(), None);
    assert_eq!(Value::Int(1).as_str(), None);
    assert_eq!(Value::Float(Decimal::new(10, 1)).as_str(), None);
    assert_eq!(Value::Bool(true).as_str(), None);
}

#[test]
fn test_as_bool() {
    assert_eq!(Value::Bool(true).as_bool(), Some(true));
    assert_eq!(Value::Bool(false).as_bool(), Some(false));
    assert_eq!(Value::Null.as_bool(), None);
    assert_eq!(Value::Int(1).as_bool(), None);
    assert_eq!(Value::Float(Decimal::new(0, 0)).as_bool(), None);
    assert_eq!(Value::Text("true".into()).as_bool(), None);
}

#[test]
fn test_data_type() {
    assert_eq!(Value::Null.data_type(), None);
    assert_eq!(Value::Int(1).data_type(), Some(DataType::Int));
    assert_eq!(
        Value::Float(Decimal::new(10, 1)).data_type(),
        Some(DataType::Float)
    );
    assert_eq!(Value::Text("x".into()).data_type(), Some(DataType::Text));
    assert_eq!(Value::Bool(true).data_type(), Some(DataType::Bool));
}

#[test]
fn test_value_equality() {
    assert_eq!(Value::Null, Value::Null);
    assert_eq!(Value::Int(10), Value::Int(10));
    assert_ne!(Value::Int(10), Value::Int(20));
    assert_eq!(
        Value::Float(Decimal::new(15, 1)),
        Value::Float(Decimal::new(15, 1))
    );
    assert_eq!(Value::Text("abc".into()), Value::Text("abc".into()));
    assert_ne!(Value::Bool(true), Value::Bool(false));
}

#[test]
fn test_clone() {
    let v1 = Value::Text("hello".into());
    let v2 = v1.clone();

    assert_eq!(v1, v2);
}

#[test]
fn test_value_round_trip() {
    let values = vec![
        Value::Null,
        Value::Int(42),
        Value::Float(Decimal::new(314, 2)),
        Value::Text("hello".into()),
        Value::Bool(true),
    ];

    for v in values {
        match v.clone() {
            Value::Null => assert!(v.is_null()),
            Value::Int(i) => assert_eq!(v.as_int(), Some(i)),
            Value::Float(f) => assert_eq!(v.as_float(), Some(f)),
            Value::Text(s) => assert_eq!(v.as_str(), Some(s.as_str())),
            Value::Bool(b) => assert_eq!(v.as_bool(), Some(b)),
        }
    }
}
