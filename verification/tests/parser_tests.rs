use db::ast::{ColumnsSelect, ComparisonOp, Expr, SortDirection, Statement};
use db::data_type::DataType;
use db::parser::Parser;
use db::tokenizer::Tokenizer;
use db::value::Value;

#[test]
fn test_parse_create_table() {
    let sql = "CREATE TABLE users (id INT, name TEXT)";
    let mut tokenizer = Tokenizer::new(sql);
    let tokens = tokenizer.tokenize().unwrap();

    let mut parser = Parser::new(tokens);
    let statement = parser.parse().unwrap();

    match statement {
        Statement::CreateTable(ct) => {
            assert_eq!(ct.name, "users");
            assert_eq!(ct.columns.len(), 2);
            assert_eq!(ct.columns[0].name, "id");
            assert_eq!(ct.columns[0].data_type, DataType::Int);
            assert_eq!(ct.columns[1].name, "name");
            assert_eq!(ct.columns[1].data_type, DataType::Text);
        }
        _ => panic!("Expected CreateTable"),
    }
}

#[test]
fn test_parse_insert() {
    let sql = "INSERT INTO users (id, name) VALUES (1, 'Alice')";
    let mut tokenizer = Tokenizer::new(sql);
    let tokens = tokenizer.tokenize().unwrap();

    let mut parser = Parser::new(tokens);
    let statement = parser.parse().unwrap();

    match statement {
        Statement::InsertInto(ins) => {
            assert_eq!(ins.table, "users");
            assert_eq!(ins.columns, Some(vec!["id".into(), "name".into()]));
            assert_eq!(ins.values.len(), 2);
            assert_eq!(ins.values[0], Value::Int(1));
            assert_eq!(ins.values[1], Value::Text("Alice".into()));
        }
        _ => panic!("Expected InsertInto"),
    }
}

#[test]
fn test_parse_insert_no_columns() {
    let sql = "INSERT INTO users VALUES (1, 'Alice')";
    let mut tokenizer = Tokenizer::new(sql);
    let tokens = tokenizer.tokenize().unwrap();

    let mut parser = Parser::new(tokens);
    let statement = parser.parse().unwrap();

    match statement {
        Statement::InsertInto(ins) => {
            assert_eq!(ins.table, "users");
            assert_eq!(ins.columns, None);
            assert_eq!(ins.values.len(), 2);
            assert_eq!(ins.values[0], Value::Int(1));
            assert_eq!(ins.values[1], Value::Text("Alice".into()));
        }
        _ => panic!("Expected InsertInto"),
    }
}

#[test]
fn test_select_star() {
    let sql = "SELECT * FROM users";
    let mut tokenizer = Tokenizer::new(sql);
    let tokens = tokenizer.tokenize().unwrap();

    let mut parser = Parser::new(tokens);
    let statement = parser.parse().unwrap();

    match statement {
        Statement::Select(sel) => {
            assert_eq!(sel.columns, ColumnsSelect::Star);
            assert_eq!(sel.table, "users".to_string());
        }
        _ => panic!("Expected Select"),
    }
}

#[test]
fn test_select_columns() {
    let sql = "SELECT name, age FROM users";
    let mut tokenizer = Tokenizer::new(sql);
    let tokens = tokenizer.tokenize().unwrap();

    let mut parser = Parser::new(tokens);
    let statement = parser.parse().unwrap();

    match statement {
        Statement::Select(sel) => {
            let columns: Vec<String> = vec!["name".into(), "age".into()];
            assert_eq!(sel.columns, ColumnsSelect::ColumnsNames(columns));
            assert_eq!(sel.table, "users".to_string());
        }
        _ => panic!("Expected Select"),
    }
}

#[test]
fn test_parse_select_with_where() {
    let sql = "SELECT * FROM users WHERE age > 18";
    let mut tokenizer = Tokenizer::new(sql);
    let tokens = tokenizer.tokenize().unwrap();

    let mut parser = Parser::new(tokens);
    let statement = parser.parse().unwrap();

    match statement {
        Statement::Select(sel) => {
            assert_eq!(sel.table, "users");
            assert!(sel.where_clause.is_some());

            if let Some(Expr::Comparison { column, op, value }) = sel.where_clause {
                assert_eq!(column, "age");
                assert_eq!(op, ComparisonOp::Gt);
                assert_eq!(value, Value::Int(18));
            } else {
                panic!("Expected Comparison");
            }
        }
        _ => panic!("Expected Select"),
    }
}

#[test]
fn test_parse_select_with_and() {
    let sql = "SELECT name FROM users WHERE age > 18 AND active = TRUE";
    let mut tokenizer = Tokenizer::new(sql);
    let tokens = tokenizer.tokenize().unwrap();

    let mut parser = Parser::new(tokens);
    let statement = parser.parse().unwrap();

    match statement {
        Statement::Select(sel) => {
            assert!(matches!(sel.where_clause, Some(Expr::And { .. })));
        }
        _ => panic!("Expected Select"),
    }
}

#[test]
fn test_parse_select_single_order_by() {
    let sql = "SELECT name FROM users ORDER BY age ASC";
    let mut tokenizer = Tokenizer::new(sql);
    let tokens = tokenizer.tokenize().unwrap();

    let mut parser = Parser::new(tokens);
    let statement = parser.parse().unwrap();

    match statement {
        Statement::Select(sel) => {
            let order_by = sel.order_by.unwrap();
            assert_eq!(order_by.len(), 1);
            assert_eq!(order_by[0].column, "age");
            assert_eq!(order_by[0].direction, SortDirection::Asc);
        }
        _ => panic!("Expected Select"),
    }
}

#[test]
fn test_parse_select_multiple_order_by() {
    let sql = "SELECT name FROM users ORDER BY age ASC, name DESC";
    let mut tokenizer = Tokenizer::new(sql);
    let tokens = tokenizer.tokenize().unwrap();

    let mut parser = Parser::new(tokens);
    let statement = parser.parse().unwrap();

    match statement {
        Statement::Select(sel) => {
            let order_by = sel.order_by.unwrap();
            assert_eq!(order_by.len(), 2);

            assert_eq!(order_by[0].column, "age");
            assert_eq!(order_by[0].direction, SortDirection::Asc);

            assert_eq!(order_by[1].column, "name");
            assert_eq!(order_by[1].direction, SortDirection::Desc);
        }
        _ => panic!("Expected Select"),
    }
}

#[test]
fn test_parse_update_statement() {
    let sql = "UPDATE users SET age = 31, name = 'Ann' WHERE id = 1";
    let mut tokenizer = Tokenizer::new(sql);
    let tokens = tokenizer.tokenize().unwrap();

    let mut parser = Parser::new(tokens);
    let statement = parser.parse().unwrap();

    match statement {
        Statement::Update(up) => {
            assert_eq!(up.table, "users");
            assert_eq!(up.assignments.len(), 2);
            assert_eq!(up.assignments[0].0, "age");
            assert_eq!(up.assignments[0].1, Value::Int(31));
            assert_eq!(up.assignments[1].0, "name");
            assert_eq!(up.assignments[1].1, Value::Text("Ann".into()));
        }
        _ => panic!("Expected Update"),
    }
}

#[test]
fn test_parse_delete_statement() {
    let sql = "DELETE FROM users WHERE id = 1;";
    let mut tokenizer = Tokenizer::new(sql);
    let tokens = tokenizer.tokenize().unwrap();

    let mut parser = Parser::new(tokens);
    let statement = parser.parse().unwrap();

    match statement {
        Statement::Delete(del) => {
            assert_eq!(del.table, "users");
            assert!(matches!(del.where_clause, Expr::Comparison { .. }));
        }
        _ => panic!("Expected Delete"),
    }
}

#[test]
fn test_parse_trailing_tokens_rejected() {
    let sql = "SELECT * FROM users extra";
    let mut tokenizer = Tokenizer::new(sql);
    let tokens = tokenizer.tokenize().unwrap();

    let mut parser = Parser::new(tokens);
    assert!(parser.parse().is_err());
}

#[test]
fn test_parse_unexpected_leading_token_rejected() {
    let sql = "TABLE users";
    let mut tokenizer = Tokenizer::new(sql);
    let tokens = tokenizer.tokenize().unwrap();

    let mut parser = Parser::new(tokens);
    assert!(parser.parse().is_err());
}

#[test]
fn test_parse_limit_requires_number() {
    let sql = "SELECT * FROM users LIMIT x";
    let mut tokenizer = Tokenizer::new(sql);
    let tokens = tokenizer.tokenize().unwrap();

    let mut parser = Parser::new(tokens);
    assert!(parser.parse().is_err());
}
