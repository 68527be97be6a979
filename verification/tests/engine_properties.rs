//! Whole-engine scenarios: round trips, NULL semantics, index-shift
//! safety, multi-key sorting, the CRUD lifecycle, and rejected inputs.

use db::column::Column;
use db::data_type::DataType;
use db::database::Database;
use db::decimal::Decimal;
use db::value::Value;

// Schema round-trip: a value whose type matches the column comes back
// unchanged from the slot it was pushed into.
#[test]
fn test_push_get_round_trip_all_types() {
    let cases = vec![
        (DataType::Int, Value::Int(-7)),
        (DataType::Float, Value::Float(Decimal::new(250, 2))),
        (DataType::Text, Value::Text("round trip".into())),
        (DataType::Bool, Value::Bool(true)),
    ];
    for (dt, v) in cases {
        let mut col = Column::new("c".into(), dt);
        col.push(v.clone()).unwrap();
        assert_eq!(col.get(col.len() - 1), Some(v));
    }
}

// Null placeholder invariant: after pushes, removes and sets, the typed
// buffer and the bitmap stay aligned, so every index still reads back.
#[test]
fn test_buffer_bitmap_alignment_after_mixed_ops() {
    let mut col = Column::new("c".into(), DataType::Text);
    col.push(Value::Text("a".into())).unwrap();
    col.push(Value::Null).unwrap();
    col.push(Value::Text("b".into())).unwrap();
    col.remove(0).unwrap();
    col.set(0, &Value::Text("z".into())).unwrap();
    col.set(1, &Value::Null).unwrap();
    col.push(Value::Null).unwrap();

    assert_eq!(col.len(), 3);
    for i in 0..col.len() {
        assert!(col.get(i).is_some());
    }
    assert_eq!(col.get(0), Some(Value::Text("z".into())));
    assert_eq!(col.get(1), Some(Value::Null));
    assert_eq!(col.get(2), Some(Value::Null));
}

// Three-valued NULL comparison: NULL on either side of any operator is
// false, so such rows neither match nor raise an error.
#[test]
fn test_null_comparison_is_false_for_every_operator() {
    let mut d2 = Database::new();
    d2.execute("CREATE TABLE t (a INT, b INT)").unwrap();
    d2.execute("INSERT INTO t (b) VALUES (1)").unwrap();
    for op_sql in ["a > 0", "a < 0", "a = 0"] {
        let mut q = String::from("SELECT b FROM t WHERE ");
        q.push_str(op_sql);
        let r = d2.query(&q).unwrap();
        assert_eq!(r.rows.len(), 0, "NULL {} must not match", op_sql);
    }
}

// Insert column remap: a reordered column list stores the same row as a
// positional insert.
#[test]
fn test_insert_remap_matches_positional() {
    let mut d1 = Database::new();
    d1.execute("CREATE TABLE t (a INT, b INT)").unwrap();
    d1.execute("INSERT INTO t (b, a) VALUES (2, 1)").unwrap();

    let mut d2 = Database::new();
    d2.execute("CREATE TABLE t (a INT, b INT)").unwrap();
    d2.execute("INSERT INTO t VALUES (1, 2)").unwrap();

    let r1 = d1.query("SELECT * FROM t").unwrap();
    let r2 = d2.query("SELECT * FROM t").unwrap();
    assert_eq!(r1.rows, r2.rows);
    assert_eq!(r1.rows[0], vec![Value::Int(1), Value::Int(2)]);
}

// Delete index-shift safety: deleting rows 1, 3 and 4 of five leaves
// exactly the rows that stood at 0 and 2.
#[test]
fn test_delete_index_shift_safety() {
    let mut database = Database::new();
    database.execute("CREATE TABLE t (id INT, keep INT)").unwrap();
    database.execute("INSERT INTO t VALUES (0, 1)").unwrap();
    database.execute("INSERT INTO t VALUES (1, 0)").unwrap();
    database.execute("INSERT INTO t VALUES (2, 1)").unwrap();
    database.execute("INSERT INTO t VALUES (3, 0)").unwrap();
    database.execute("INSERT INTO t VALUES (4, 0)").unwrap();

    database.execute("DELETE FROM t WHERE keep = 0").unwrap();

    let r = database.query("SELECT id FROM t").unwrap();
    assert_eq!(r.rows.len(), 2);
    assert_eq!(r.rows[0][0], Value::Int(0));
    assert_eq!(r.rows[1][0], Value::Int(2));
}

// Sort stability and multi-key tie-break.
#[test]
fn test_sort_multi_key_tie_break() {
    let mut database = Database::new();
    database
        .execute("CREATE TABLE t (name TEXT, score INT)")
        .unwrap();
    database.execute("INSERT INTO t VALUES ('Bob', 100)").unwrap();
    database.execute("INSERT INTO t VALUES ('Alice', 100)").unwrap();
    database.execute("INSERT INTO t VALUES ('Charlie', 50)").unwrap();

    let r = database
        .query("SELECT name, score FROM t ORDER BY score DESC, name ASC")
        .unwrap();
    assert_eq!(
        r.rows[0],
        vec![Value::Text("Alice".into()), Value::Int(100)]
    );
    assert_eq!(r.rows[1], vec![Value::Text("Bob".into()), Value::Int(100)]);
    assert_eq!(
        r.rows[2],
        vec![Value::Text("Charlie".into()), Value::Int(50)]
    );
}

// A sort without a direction on ties keeps the original row order.
#[test]
fn test_sort_is_stable_on_equal_keys() {
    let mut database = Database::new();
    database.execute("CREATE TABLE t (g INT, id INT)").unwrap();
    database.execute("INSERT INTO t VALUES (1, 10)").unwrap();
    database.execute("INSERT INTO t VALUES (0, 20)").unwrap();
    database.execute("INSERT INTO t VALUES (1, 30)").unwrap();
    database.execute("INSERT INTO t VALUES (0, 40)").unwrap();

    let r = database.query("SELECT id FROM t ORDER BY g ASC").unwrap();
    assert_eq!(r.rows[0][0], Value::Int(20));
    assert_eq!(r.rows[1][0], Value::Int(40));
    assert_eq!(r.rows[2][0], Value::Int(10));
    assert_eq!(r.rows[3][0], Value::Int(30));
}

// The CRUD lifecycle end to end.
#[test]
fn test_crud_lifecycle() {
    let mut database = Database::new();
    database
        .execute("CREATE TABLE users (id INT, name TEXT, age INT)")
        .unwrap();
    database
        .execute("INSERT INTO users (id, name) VALUES (1, 'Alice')")
        .unwrap();

    let r = database.query("SELECT * FROM users").unwrap();
    assert_eq!(
        r.rows[0],
        vec![Value::Int(1), Value::Text("Alice".into()), Value::Null]
    );

    database
        .execute("UPDATE users SET age = 31 WHERE id = 1")
        .unwrap();
    let r = database.query("SELECT age FROM users").unwrap();
    assert_eq!(r.rows[0][0], Value::Int(31));

    database.execute("DELETE FROM users WHERE age > 18").unwrap();
    let r = database.query("SELECT * FROM users").unwrap();
    assert_eq!(r.rows.len(), 0);
}

// LIMIT composed with ORDER BY: ten rows, the top three by id.
#[test]
fn test_limit_order_by_composition() {
    let mut database = Database::new();
    database.execute("CREATE TABLE t (id INT)").unwrap();
    for i in 1..=10 {
        let mut stmt = String::from("INSERT INTO t VALUES (");
        stmt.push_str(&i.to_string());
        stmt.push(')');
        database.execute(&stmt).unwrap();
    }

    let r = database
        .query("SELECT id FROM t ORDER BY id DESC LIMIT 3")
        .unwrap();
    assert_eq!(r.rows.len(), 3);
    assert_eq!(r.rows[0][0], Value::Int(10));
    assert_eq!(r.rows[1][0], Value::Int(9));
    assert_eq!(r.rows[2][0], Value::Int(8));
}

// Type mismatch rejected without mutation: the failed insert leaves the
// column length unchanged.
#[test]
fn test_type_mismatch_rejected_without_mutation() {
    let mut database = Database::new();
    database.execute("CREATE TABLE t (n INT)").unwrap();
    database.execute("INSERT INTO t VALUES (1)").unwrap();

    let before = database.get_table("t").unwrap().row_count;
    let res = database.execute("INSERT INTO t VALUES ('text')");
    assert!(res.is_err());

    let table = database.get_table("t").unwrap();
    assert_eq!(table.row_count, before);
    assert_eq!(table.get_col("n").unwrap().len(), before);
}

// Decimal literals: exact comparison and ordering in WHERE and ORDER BY.
#[test]
fn test_float_where_and_order() {
    let mut database = Database::new();
    database.execute("CREATE TABLE t (id INT, p FLOAT)").unwrap();
    database.execute("INSERT INTO t VALUES (1, 2.50)").unwrap();
    database.execute("INSERT INTO t VALUES (2, 2.5)").unwrap();
    database.execute("INSERT INTO t VALUES (3, 10.25)").unwrap();
    database.execute("INSERT INTO t VALUES (4, 0.5)").unwrap();

    // 2.50 and 2.5 are numerically equal.
    let r = database.query("SELECT id FROM t WHERE p = 2.5").unwrap();
    assert_eq!(r.rows.len(), 2);

    let r = database.query("SELECT id FROM t WHERE p > 2.5").unwrap();
    assert_eq!(r.rows.len(), 1);
    assert_eq!(r.rows[0][0], Value::Int(3));

    let r = database.query("SELECT id FROM t ORDER BY p ASC").unwrap();
    assert_eq!(r.rows[0][0], Value::Int(4));
    assert_eq!(r.rows[3][0], Value::Int(3));
}

// Text supports only equality in WHERE; an ordering operator on text is a
// type error.
#[test]
fn test_text_ordering_comparison_rejected() {
    let mut database = Database::new();
    database.execute("CREATE TABLE t (name TEXT)").unwrap();
    database.execute("INSERT INTO t VALUES ('a')").unwrap();

    assert!(database.query("SELECT * FROM t WHERE name = 'a'").is_ok());
    assert!(database.query("SELECT * FROM t WHERE name > 'a'").is_err());
    assert!(database.query("SELECT * FROM t WHERE name < 'a'").is_err());
}

// Statement-kind mismatch: a SELECT cannot be executed, a mutation cannot
// be queried.
#[test]
fn test_statement_kind_mismatch() {
    let mut database = Database::new();
    database.execute("CREATE TABLE t (id INT)").unwrap();

    assert!(database.execute("SELECT * FROM t").is_err());
    assert!(database.query("INSERT INTO t VALUES (1)").is_err());
}

// Unknown names surface as errors, never as results.
#[test]
fn test_unknown_names_are_errors() {
    let mut database = Database::new();
    database.execute("CREATE TABLE t (id INT)").unwrap();
    database.execute("INSERT INTO t VALUES (1)").unwrap();

    assert!(database.query("SELECT * FROM missing").is_err());
    assert!(database.query("SELECT nope FROM t").is_err());
    assert!(database.query("SELECT id FROM t WHERE nope = 1").is_err());
    assert!(database.query("SELECT id FROM t ORDER BY nope").is_err());
    assert!(database
        .execute("INSERT INTO t (nope) VALUES (1)")
        .is_err());
    assert!(database.execute("DELETE FROM missing WHERE id = 1").is_err());
}

// Cross-type comparison in WHERE is an error, not a silent false.
#[test]
fn test_cross_type_comparison_rejected() {
    let mut database = Database::new();
    database.execute("CREATE TABLE t (id INT)").unwrap();
    database.execute("INSERT INTO t VALUES (1)").unwrap();

    assert!(database.query("SELECT id FROM t WHERE id = 'one'").is_err());
    assert!(database.query("SELECT id FROM t WHERE id = TRUE").is_err());
}

// A LIMIT larger than the table returns everything.
#[test]
fn test_limit_larger_than_table() {
    let mut database = Database::new();
    database.execute("CREATE TABLE t (id INT)").unwrap();
    database.execute("INSERT INTO t VALUES (1)").unwrap();

    let r = database.query("SELECT id FROM t LIMIT 100").unwrap();
    assert_eq!(r.rows.len(), 1);
}

// Booleans: literals, storage and equality comparison.
#[test]
fn test_bool_column_and_comparison() {
    let mut database = Database::new();
    database.execute("CREATE TABLE t (id INT, on BOOL)").unwrap();
    database.execute("INSERT INTO t VALUES (1, TRUE)").unwrap();
    database.execute("INSERT INTO t VALUES (2, FALSE)").unwrap();

    let r = database.query("SELECT id FROM t WHERE on = TRUE").unwrap();
    assert_eq!(r.rows.len(), 1);
    assert_eq!(r.rows[0][0], Value::Int(1));

    let r = database.query("SELECT on FROM t WHERE id = 2").unwrap();
    assert_eq!(r.rows[0][0], Value::Bool(false));
}

// OR evaluates the right side when the left is false.
#[test]
fn test_or_right_side_matters() {
    let mut database = Database::new();
    database.execute("CREATE TABLE t (a INT, b INT)").unwrap();
    database.execute("INSERT INTO t VALUES (0, 1)").unwrap();
    database.execute("INSERT INTO t VALUES (0, 0)").unwrap();

    let r = database
        .query("SELECT a FROM t WHERE a = 1 OR b = 1")
        .unwrap();
    assert_eq!(r.rows.len(), 1);
}

// AND short-circuits: a type error on the right side never surfaces when
// the left side is already false.
#[test]
fn test_and_short_circuit() {
    let mut database = Database::new();
    database.execute("CREATE TABLE t (a INT, b INT)").unwrap();
    database.execute("INSERT INTO t VALUES (0, 1)").unwrap();

    let r = database
        .query("SELECT a FROM t WHERE a = 1 AND b = 'oops'")
        .unwrap();
    assert_eq!(r.rows.len(), 0);
}

// A failed update of a later assignment keeps the earlier ones applied.
#[test]
fn test_update_partial_application_on_error() {
    let mut database = Database::new();
    database.execute("CREATE TABLE t (a INT, b INT)").unwrap();
    database.execute("INSERT INTO t VALUES (1, 1)").unwrap();

    let res = database.execute("UPDATE t SET a = 9, b = 'bad' WHERE a = 1");
    assert!(res.is_err());

    let r = database.query("SELECT a, b FROM t").unwrap();
    assert_eq!(r.rows[0], vec![Value::Int(9), Value::Int(1)]);
}
