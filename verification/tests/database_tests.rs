use db::data_type::DataType;
use db::database::Database;
use db::table::{ColumnDef, Schema};
use db::value::Value;

fn simple_schema() -> Schema {
    Schema {
        columns: vec![
            ColumnDef {
                name: "id".to_string(),
                data_type: DataType::Int,
            },
            ColumnDef {
                name: "name".to_string(),
                data_type: DataType::Text,
            },
        ],
    }
}

#[test]
fn test_create_and_drop_table() {
    let mut db = Database::new();

    assert!(db.create_table("users".to_string(), simple_schema()).is_ok());
    assert!(db.get_table("users").is_some());

    assert!(db.drop_table("users").is_ok());
    assert!(db.get_table("users").is_none());
}

#[test]
fn test_duplicate_table_error() {
    let mut db = Database::new();

    assert!(db.create_table("users".to_string(), simple_schema()).is_ok());
    let err = db.create_table("users".to_string(), simple_schema());

    assert!(err.is_err());
}

#[test]
fn test_drop_nonexistent_table() {
    let mut db = Database::new();

    let err = db.drop_table("unknown");
    assert!(err.is_err());
}

#[test]
fn test_list_tables() {
    let mut db = Database::new();

    db.create_table("users".to_string(), simple_schema()).unwrap();
    db.create_table("posts".to_string(), simple_schema()).unwrap();

    let mut tables = db.list_tables();
    tables.sort();

    assert_eq!(tables, vec!["posts", "users"]);
}

#[test]
fn test_get_table_mut() {
    let mut db = Database::new();
    db.create_table("users".to_string(), simple_schema()).unwrap();

    {
        let table = db.get_table_mut("users").unwrap();
        table
            .insert(vec![Value::Int(1), Value::Text("Alice".into())])
            .unwrap();
        table
            .insert(vec![Value::Int(2), Value::Text("Bob".into())])
            .unwrap();
    }

    let table = db.get_table("users").unwrap();
    assert_eq!(table.row_count, 2);
    assert_eq!(
        table.get_row(0),
        Some(vec![Value::Int(1), Value::Text("Alice".into())])
    );
    assert_eq!(
        table.get_row(1),
        Some(vec![Value::Int(2), Value::Text("Bob".into())])
    );
}

#[test]
fn test_execute_insert_and_query_star() {
    let mut db = Database::new();
    db.execute("CREATE TABLE users (id INT, name TEXT)").unwrap();

    db.execute("INSERT INTO users VALUES (1, 'Alice')").unwrap();
    db.execute("INSERT INTO users VALUES (2, 'Bob')").unwrap();

    let result = db.query("SELECT * FROM users").unwrap();

    assert_eq!(result.columns, vec!["id", "name"]);

    assert_eq!(result.rows.len(), 2);
    assert_eq!(
        result.rows[0],
        vec![Value::Int(1), Value::Text("Alice".into())]
    );
    assert_eq!(
        result.rows[1],
        vec![Value::Int(2), Value::Text("Bob".into())]
    );
}

#[test]
fn test_insert_with_column_reordering() {
    let mut db = Database::new();
    db.execute("CREATE TABLE users (id INT, name TEXT)").unwrap();

    db.execute("INSERT INTO users (name, id) VALUES ('Charlie', 3)")
        .unwrap();

    let result = db.query("SELECT id, name FROM users").unwrap();

    assert_eq!(
        result.rows[0],
        vec![Value::Int(3), Value::Text("Charlie".into())]
    );
}

#[test]
fn test_insert_partial_columns() {
    let mut db = Database::new();
    db.execute("CREATE TABLE users (id INT, name TEXT)").unwrap();

    db.execute("INSERT INTO users (id) VALUES (4)").unwrap();

    let result = db.query("SELECT name, id FROM users").unwrap();

    assert_eq!(result.rows[0], vec![Value::Null, Value::Int(4)]);
}

#[test]
fn test_query_specific_columns_subset() {
    let mut db = Database::new();
    db.execute("CREATE TABLE users (id INT, name TEXT, age INT)")
        .unwrap();
    db.execute("INSERT INTO users VALUES (1, 'Alice', 30)").unwrap();

    let result = db.query("SELECT name FROM users").unwrap();

    assert_eq!(result.columns, vec!["name"]);
    assert_eq!(result.rows[0], vec![Value::Text("Alice".into())]);
}

#[test]
fn test_query_with_where_simple() {
    let mut db = Database::new();
    db.execute("CREATE TABLE users (id INT, name TEXT, age INT)")
        .unwrap();
    db.execute("INSERT INTO users VALUES (1, 'Alice', 30)").unwrap();
    db.execute("INSERT INTO users VALUES (2, 'Bob', 17)").unwrap();
    db.execute("INSERT INTO users VALUES (3, 'Charlie', 25)").unwrap();

    let result = db.query("SELECT name FROM users WHERE age > 18").unwrap();

    assert_eq!(result.columns, vec!["name"]);
    assert_eq!(result.rows.len(), 2);
    assert_eq!(result.rows[0], vec![Value::Text("Alice".into())]);
    assert_eq!(result.rows[1], vec![Value::Text("Charlie".into())]);
}

#[test]
fn test_query_with_where_and() {
    let mut db = Database::new();
    db.execute("CREATE TABLE users (id INT, age INT, active INT)")
        .unwrap();
    db.execute("INSERT INTO users VALUES (1, 30, 1)").unwrap();
    db.execute("INSERT INTO users VALUES (2, 17, 1)").unwrap();
    db.execute("INSERT INTO users VALUES (3, 25, 0)").unwrap();

    let result = db
        .query("SELECT id FROM users WHERE age > 18 AND active = 1")
        .unwrap();

    assert_eq!(result.rows.len(), 1);
    assert_eq!(result.rows[0], vec![Value::Int(1)]);
}

#[test]
fn test_query_with_null_comparison() {
    let mut db = Database::new();
    db.execute("CREATE TABLE users (id INT, age INT)").unwrap();
    db.execute("INSERT INTO users (id) VALUES (1)").unwrap();
    db.execute("INSERT INTO users VALUES (2, 25)").unwrap();

    let result = db.query("SELECT id FROM users WHERE age > 18").unwrap();

    assert_eq!(result.rows.len(), 1);
    assert_eq!(result.rows[0], vec![Value::Int(2)]);
}

#[test]
fn test_query_with_limit() {
    let mut db = Database::new();
    db.execute("CREATE TABLE users (id INT, age INT, active INT)")
        .unwrap();
    db.execute("INSERT INTO users VALUES (1, 30, 1)").unwrap();
    db.execute("INSERT INTO users VALUES (2, 17, 1)").unwrap();
    db.execute("INSERT INTO users VALUES (3, 25, 0)").unwrap();

    let result = db.query("SELECT id FROM users LIMIT 2").unwrap();

    assert_eq!(result.rows.len(), 2);
    assert_eq!(result.rows[0], vec![Value::Int(1)]);
    assert_eq!(result.rows[1], vec![Value::Int(2)]);
}

#[test]
fn test_query_with_where_no_match() {
    let mut db = Database::new();
    db.execute("CREATE TABLE users (id INT, age INT)").unwrap();
    db.execute("INSERT INTO users VALUES (1, 10)").unwrap();
    db.execute("INSERT INTO users VALUES (2, 15)").unwrap();

    let result = db.query("SELECT id FROM users WHERE age > 100").unwrap();

    assert_eq!(result.rows.len(), 0);
}

#[test]
fn test_query_order_by_asc_desc() {
    let mut db = Database::new();
    db.execute("CREATE TABLE users (id INT, age INT)").unwrap();
    db.execute("INSERT INTO users VALUES (1, 30)").unwrap();
    db.execute("INSERT INTO users VALUES (2, 20)").unwrap();
    db.execute("INSERT INTO users VALUES (3, 25)").unwrap();

    let res_asc = db.query("SELECT age FROM users ORDER BY age ASC").unwrap();
    assert_eq!(res_asc.rows[0][0], Value::Int(20));
    assert_eq!(res_asc.rows[2][0], Value::Int(30));

    let res_desc = db.query("SELECT age FROM users ORDER BY age DESC").unwrap();
    assert_eq!(res_desc.rows[0][0], Value::Int(30));
    assert_eq!(res_desc.rows[2][0], Value::Int(20));
}

#[test]
fn test_query_order_by_multiple_columns() {
    let mut db = Database::new();
    db.execute("CREATE TABLE users (name TEXT, score INT)").unwrap();
    db.execute("INSERT INTO users VALUES ('Alice', 100)").unwrap();
    db.execute("INSERT INTO users VALUES ('Bob', 100)").unwrap();
    db.execute("INSERT INTO users VALUES ('Charlie', 50)").unwrap();

    let res = db
        .query("SELECT name, score FROM users ORDER BY score DESC, name ASC")
        .unwrap();

    assert_eq!(res.rows[0][0], Value::Text("Alice".into()));
    assert_eq!(res.rows[1][0], Value::Text("Bob".into()));
    assert_eq!(res.rows[2][0], Value::Text("Charlie".into()));
}

#[test]
fn test_query_order_by_hidden_column() {
    let mut db = Database::new();
    db.execute("CREATE TABLE users (id INT, age INT)").unwrap();
    db.execute("INSERT INTO users VALUES (1, 30)").unwrap();
    db.execute("INSERT INTO users VALUES (2, 20)").unwrap();

    let res = db.query("SELECT id FROM users ORDER BY age ASC").unwrap();

    assert_eq!(res.columns, vec!["id"]);
    assert_eq!(res.rows[0][0], Value::Int(2));
    assert_eq!(res.rows[1][0], Value::Int(1));
}

#[test]
fn test_query_order_by_with_limit() {
    let mut db = Database::new();
    db.execute("CREATE TABLE users (id INT)").unwrap();
    for i in 1..=10 {
        let mut stmt = String::from("INSERT INTO users VALUES (");
        stmt.push_str(&i.to_string());
        stmt.push(')');
        db.execute(&stmt).unwrap();
    }

    let res = db
        .query("SELECT id FROM users ORDER BY id DESC LIMIT 3")
        .unwrap();

    assert_eq!(res.rows.len(), 3);
    assert_eq!(res.rows[0][0], Value::Int(10));
    assert_eq!(res.rows[2][0], Value::Int(8));
}

#[test]
fn test_delete_specific_row() {
    let mut db = Database::new();
    db.execute("CREATE TABLE users (id INT, name TEXT)").unwrap();
    db.execute("INSERT INTO users VALUES (1, 'Alice')").unwrap();
    db.execute("INSERT INTO users VALUES (2, 'Bob')").unwrap();

    db.execute("DELETE FROM users WHERE id = 1").unwrap();

    let result = db.query("SELECT * FROM users").unwrap();
    assert_eq!(result.rows.len(), 1);
    assert_eq!(result.rows[0][0], Value::Int(2));
    assert_eq!(result.rows[0][1], Value::Text("Bob".into()));
}

#[test]
fn test_delete_multiple_rows() {
    let mut db = Database::new();
    db.execute("CREATE TABLE products (id INT, price INT)").unwrap();
    db.execute("INSERT INTO products VALUES (1, 10)").unwrap();
    db.execute("INSERT INTO products VALUES (2, 50)").unwrap();
    db.execute("INSERT INTO products VALUES (3, 100)").unwrap();
    db.execute("INSERT INTO products VALUES (4, 20)").unwrap();

    db.execute("DELETE FROM products WHERE price > 40").unwrap();

    let result = db.query("SELECT id FROM products ORDER BY id ASC").unwrap();
    assert_eq!(result.rows.len(), 2);
    assert_eq!(result.rows[0][0], Value::Int(1));
    assert_eq!(result.rows[1][0], Value::Int(4));
}

#[test]
fn test_delete_no_match() {
    let mut db = Database::new();
    db.create_table("users".to_string(), simple_schema()).unwrap();
    db.execute("INSERT INTO users VALUES (1, 'Alice')").unwrap();

    db.execute("DELETE FROM users WHERE id = 99").unwrap();

    let result = db.query("SELECT id FROM users").unwrap();
    assert_eq!(result.rows.len(), 1);
}

#[test]
fn test_delete_with_complex_condition() {
    let mut db = Database::new();
    db.execute("CREATE TABLE tasks (id INT, priority INT, done INT)")
        .unwrap();
    db.execute("INSERT INTO tasks VALUES (1, 1, 1)").unwrap();
    db.execute("INSERT INTO tasks VALUES (2, 1, 0)").unwrap();
    db.execute("INSERT INTO tasks VALUES (3, 5, 1)").unwrap();

    db.execute("DELETE FROM tasks WHERE priority > 3 OR done = 1")
        .unwrap();

    let result = db.query("SELECT id FROM tasks").unwrap();
    assert_eq!(result.rows.len(), 1);
    assert_eq!(result.rows[0][0], Value::Int(2));
}

#[test]
fn test_delete_all_rows_condition() {
    let mut db = Database::new();
    db.execute("CREATE TABLE data (id INT)").unwrap();
    db.execute("INSERT INTO data VALUES (1)").unwrap();
    db.execute("INSERT INTO data VALUES (2)").unwrap();

    db.execute("DELETE FROM data WHERE id > 0").unwrap();

    let result = db.query("SELECT * FROM data").unwrap();
    assert_eq!(result.rows.len(), 0);
}

#[test]
fn test_update_single_column() {
    let mut db = Database::new();
    db.execute("CREATE TABLE users (id INT, age INT)").unwrap();
    db.execute("INSERT INTO users VALUES (1, 30)").unwrap();
    db.execute("INSERT INTO users VALUES (2, 20)").unwrap();

    db.execute("UPDATE users SET age = 99 WHERE id = 1").unwrap();

    let result = db.query("SELECT age FROM users ORDER BY id ASC").unwrap();
    assert_eq!(result.rows[0][0], Value::Int(99));
    assert_eq!(result.rows[1][0], Value::Int(20));
}

#[test]
fn test_update_multiple_columns() {
    let mut db = Database::new();
    db.execute("CREATE TABLE products (id INT, name TEXT, price INT)")
        .unwrap();
    db.execute("INSERT INTO products VALUES (1, 'Keyboard', 50)")
        .unwrap();

    db.execute("UPDATE products SET name = 'Mechanical Keyboard', price = 120 WHERE id = 1")
        .unwrap();

    let result = db.query("SELECT name, price FROM products").unwrap();
    assert_eq!(result.rows[0][0], Value::Text("Mechanical Keyboard".into()));
    assert_eq!(result.rows[0][1], Value::Int(120));
}

#[test]
fn test_update_with_complex_where() {
    let mut db = Database::new();
    db.execute("CREATE TABLE employees (id INT, dept TEXT, salary INT)")
        .unwrap();
    db.execute("INSERT INTO employees VALUES (1, 'IT', 3000)").unwrap();
    db.execute("INSERT INTO employees VALUES (2, 'HR', 2500)").unwrap();
    db.execute("INSERT INTO employees VALUES (3, 'IT', 3500)").unwrap();

    db.execute("UPDATE employees SET salary = 3300 WHERE dept = 'IT' AND salary < 3200")
        .unwrap();

    let result = db
        .query("SELECT id, salary FROM employees ORDER BY id ASC")
        .unwrap();
    assert_eq!(result.rows[0][1], Value::Int(3300));
    assert_eq!(result.rows[1][1], Value::Int(2500));
    assert_eq!(result.rows[2][1], Value::Int(3500));
}

#[test]
fn test_update_type_mismatch_error() {
    let mut db = Database::new();
    db.execute("CREATE TABLE test (id INT)").unwrap();
    db.execute("INSERT INTO test VALUES (1)").unwrap();

    let result = db.execute("UPDATE test SET id = 'Invalid' WHERE id = 1");

    assert!(result.is_err());
    assert!(result.unwrap_err().contains("type"));
}

#[test]
fn test_update_no_rows_matched() {
    let mut db = Database::new();
    db.execute("CREATE TABLE test (id INT, val INT)").unwrap();
    db.execute("INSERT INTO test VALUES (1, 10)").unwrap();

    db.execute("UPDATE test SET val = 99 WHERE id = 404").unwrap();

    let result = db.query("SELECT val FROM test").unwrap();
    assert_eq!(result.rows[0][0], Value::Int(10));
}

#[test]
fn test_update_non_existent_column() {
    let mut db = Database::new();
    db.execute("CREATE TABLE test (id INT)").unwrap();
    db.execute("INSERT INTO test VALUES (1)").unwrap();

    let result = db.execute("UPDATE test SET unknown_col = 10 WHERE id = 1");
    assert!(result.is_err());
}
