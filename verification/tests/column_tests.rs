use db::column::Column;
use db::data_type::DataType;
use db::value::Value;

#[test]
fn test_column_new() {
    let col = Column::new("age".into(), DataType::Int);

    assert_eq!(col.name, "age");
    assert_eq!(col.data_type, DataType::Int);
    assert_eq!(col.len(), 0);
    assert_eq!(col.null_bitmap.len(), 0);
}

#[test]
fn test_push_and_get() {
    let mut col = Column::new("test".into(), DataType::Int);

    col.push(Value::Int(42)).unwrap();

    assert_eq!(col.len(), 1);
    assert_eq!(col.get(0), Some(Value::Int(42)));
    assert!(!col.null_bitmap.get(0));
}

#[test]
fn test_null_handling() {
    let mut col = Column::new("nullable".into(), DataType::Int);

    col.push(Value::Int(10)).unwrap();
    col.push(Value::Null).unwrap();
    col.push(Value::Int(20)).unwrap();

    assert_eq!(col.len(), 3);

    assert_eq!(col.get(0), Some(Value::Int(10)));
    assert_eq!(col.get(1), Some(Value::Null));
    assert_eq!(col.get(2), Some(Value::Int(20)));

    assert!(!col.null_bitmap.get(0));
    assert!(col.null_bitmap.get(1));
    assert!(!col.null_bitmap.get(2));
}

#[test]
fn test_type_mismatch() {
    let mut col = Column::new("int_col".into(), DataType::Int);

    let result = col.push(Value::Text("hello".into()));

    assert!(result.is_err());
    assert_eq!(col.len(), 0);
}

#[test]
fn test_out_of_bounds() {
    let col = Column::new("test".into(), DataType::Int);

    assert_eq!(col.get(0), None);
    assert_eq!(col.get(100), None);
}

#[test]
fn test_large_column() {
    let mut col = Column::new("big".into(), DataType::Int);

    for i in 0..10_000 {
        col.push(Value::Int(i)).unwrap();
    }

    assert_eq!(col.len(), 10_000);
    assert_eq!(col.get(5_000), Some(Value::Int(5_000)));
    assert_eq!(col.get(9_999), Some(Value::Int(9_999)));
}

#[test]
fn test_all_nulls() {
    let mut col = Column::new("nulls".into(), DataType::Int);

    for _ in 0..100 {
        col.push(Value::Null).unwrap();
    }

    assert_eq!(col.len(), 100);

    for i in 0..100 {
        assert!(col.get(i).unwrap().is_null());
        assert!(col.null_bitmap.get(i));
    }
}

#[test]
fn test_delete() {
    let mut col = Column::new("test".into(), DataType::Int);

    col.push(Value::Int(42)).unwrap();
    col.push(Value::Int(59)).unwrap();
    col.push(Value::Null).unwrap();

    assert_eq!(col.len(), 3);

    col.remove(1).unwrap();
    assert_eq!(col.len(), 2);
    assert_eq!(col.get(0), Some(Value::Int(42)));
    assert!(!col.null_bitmap.get(0));
    assert_eq!(col.get(1), Some(Value::Null));
    assert!(col.null_bitmap.get(1));
}

#[test]
fn test_column_set() {
    let mut col = Column::new("age".into(), DataType::Int);
    col.push(Value::Int(30)).unwrap();
    col.push(Value::Null).unwrap();

    col.set(0, &Value::Int(31)).unwrap();
    assert_eq!(col.get(0), Some(Value::Int(31)));

    col.set(1, &Value::Int(25)).unwrap();
    assert_eq!(col.get(1), Some(Value::Int(25)));
    assert!(!col.null_bitmap.get(1));

    col.set(0, &Value::Null).unwrap();
    assert_eq!(col.get(0), Some(Value::Null));
    assert!(col.null_bitmap.get(0));

    assert!(col.set(0, &Value::Text("hello".into())).is_err());

    assert!(col.set(10, &Value::Int(42)).is_err());
}
