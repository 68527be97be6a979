use db::data_type::DataType;
use db::table::{ColumnDef, Schema, Table};
use db::value::Value;

#[test]
fn test_table_creation() {
    let schema = Schema {
        columns: vec![
            ColumnDef {
                name: "id".into(),
                data_type: DataType::Int,
            },
            ColumnDef {
                name: "name".into(),
                data_type: DataType::Text,
            },
        ],
    };

    let table = Table::new("users".into(), schema);
    assert_eq!(table.columns.len(), 2);
    assert_eq!(table.row_count, 0);
}

#[test]
fn test_table_insert_and_get() {
    let schema = Schema {
        columns: vec![
            ColumnDef {
                name: "id".into(),
                data_type: DataType::Int,
            },
            ColumnDef {
                name: "age".into(),
                data_type: DataType::Int,
            },
        ],
    };

    let mut table = Table::new("test".into(), schema);

    table.insert(vec![Value::Int(1), Value::Int(30)]).unwrap();
    table.insert(vec![Value::Int(2), Value::Null]).unwrap();

    assert_eq!(table.row_count, 2);

    let row0 = table.get_row(0).unwrap();
    assert_eq!(row0, vec![Value::Int(1), Value::Int(30)]);

    let row1 = table.get_row(1).unwrap();
    assert_eq!(row1, vec![Value::Int(2), Value::Null]);
}

#[test]
fn test_column_count_mismatch() {
    let schema = Schema {
        columns: vec![ColumnDef {
            name: "id".into(),
            data_type: DataType::Int,
        }],
    };

    let mut table = Table::new("test".into(), schema);

    let result = table.insert(vec![Value::Int(1), Value::Int(2)]);
    assert!(result.is_err());

    let result = table.insert(vec![]);
    assert!(result.is_err());
}

#[test]
fn test_type_mismatch_error() {
    let schema = Schema {
        columns: vec![ColumnDef {
            name: "id".into(),
            data_type: DataType::Int,
        }],
    };

    let mut table = Table::new("test".into(), schema);

    let result = table.insert(vec![Value::Text("hello".into())]);
    assert!(result.is_err());
}

#[test]
fn test_get_col() {
    let schema = Schema {
        columns: vec![
            ColumnDef {
                name: "id".into(),
                data_type: DataType::Int,
            },
            ColumnDef {
                name: "name".into(),
                data_type: DataType::Text,
            },
        ],
    };

    let table = Table::new("users".into(), schema);

    assert!(table.get_col("id").is_some());
    assert!(table.get_col("name").is_some());
    assert!(table.get_col("age").is_none());
}

#[test]
fn test_get_col_mut() {
    let schema = Schema {
        columns: vec![
            ColumnDef {
                name: "id".into(),
                data_type: DataType::Int,
            },
            ColumnDef {
                name: "age".into(),
                data_type: DataType::Int,
            },
        ],
    };

    let mut table = Table::new("users".into(), schema);
    table.insert(vec![Value::Int(1), Value::Int(30)]).unwrap();

    assert!(table.get_col_mut("missing").is_none());

    let col = table.get_col_mut("age").unwrap();
    col.set(0, &Value::Int(31)).unwrap();

    assert_eq!(
        table.get_row(0),
        Some(vec![Value::Int(1), Value::Int(31)])
    );
}
