use mysql_rust::query::eval::{compare_values, like_matches};
use mysql_rust::query::executor::{Executor, QueryResult};
use mysql_rust::query::order::sort_names;
use mysql_rust::query::parser::{bind_parameters, parse, parse_prepared, CompareOp, Expr, Statement};
use mysql_rust::query::variables::SystemVariables;
use mysql_rust::storage::value::{parse_date_literal, parse_decimal_literal, rescale_decimal};
use mysql_rust::storage::{InMemoryStorage, Storage, Value};
use mysql_rust::Error;

fn run(storage: &mut InMemoryStorage, sql: &str) -> Result<QueryResult, Error> {
    let vars = SystemVariables::new("8.0.0-test", 1024);
    Executor::new(storage, &vars).execute(parse(sql)?)
}

fn store(setup: &[&str]) -> InMemoryStorage {
    let mut storage = InMemoryStorage::new();
    for sql in setup {
        run(&mut storage, sql).unwrap();
    }
    storage
}

fn refusal(storage: &mut InMemoryStorage, sql: &str) -> String {
    match run(storage, sql) {
        Err(Error::Execution(text)) => text,
        other => panic!("expected {sql} to be refused, got {other:?}"),
    }
}

fn vc(s: &str) -> Value {
    Value::Varchar(s.to_string())
}

#[test]
fn auto_increment_fills_omitted_and_null_values() {
    let mut s = store(&["CREATE TABLE t (id INT AUTO_INCREMENT PRIMARY KEY, name VARCHAR(9))"]);
    run(&mut s, "INSERT INTO t (name) VALUES ('a'), ('b')").unwrap();
    run(&mut s, "INSERT INTO t VALUES (NULL, 'c')").unwrap();
    run(&mut s, "INSERT INTO t VALUES (10, 'd')").unwrap();
    run(&mut s, "INSERT INTO t (name) VALUES ('e')").unwrap();
    let ids: Vec<Value> = run(&mut s, "SELECT id FROM t")
        .unwrap()
        .rows
        .into_iter()
        .map(|r| r[0].clone())
        .collect();
    assert_eq!(
        ids,
        vec![Value::Int(1), Value::Int(2), Value::Int(3), Value::Int(10), Value::Int(11)]
    );
}

#[test]
fn auto_increment_belongs_on_the_primary_key() {
    let mut s = InMemoryStorage::new();
    assert_eq!(
        refusal(&mut s, "CREATE TABLE t (id INT PRIMARY KEY, n INT AUTO_INCREMENT)"),
        "AUTO_INCREMENT column 'n' must be the primary key"
    );
    assert!(s.tables().unwrap().is_empty());
}

#[test]
fn not_null_columns_refuse_null() {
    let mut s = store(&["CREATE TABLE t (a INT NOT NULL, b INT)"]);
    assert_eq!(
        refusal(&mut s, "INSERT INTO t VALUES (NULL, 1)"),
        "Column 'a' cannot be NULL"
    );
    run(&mut s, "INSERT INTO t VALUES (1, NULL)").unwrap();
}

#[test]
fn a_failing_row_takes_the_whole_insert_with_it() {
    let mut s = store(&["CREATE TABLE t (id INT PRIMARY KEY)", "INSERT INTO t VALUES (1)"]);
    assert_eq!(
        refusal(&mut s, "INSERT INTO t VALUES (2), (1), (3)"),
        "Duplicate entry '1' for key 'PRIMARY'"
    );
    assert_eq!(s.scan("t").unwrap(), vec![vec![Value::Int(1)]]);
}

#[test]
fn decimals_are_kept_at_the_declared_scale() {
    let mut s = store(&["CREATE TABLE t (p DECIMAL(10,2))"]);
    run(&mut s, "INSERT INTO t VALUES ('12.5'), (7)").unwrap();
    assert_eq!(
        run(&mut s, "SELECT * FROM t").unwrap().rows,
        vec![vec![Value::Decimal(1250, 2)], vec![Value::Decimal(700, 2)]]
    );
    assert!(run(&mut s, "INSERT INTO t VALUES ('abc')").is_err());
}

#[test]
fn dates_are_checked() {
    let mut s = store(&["CREATE TABLE t (d DATE)"]);
    run(&mut s, "INSERT INTO t VALUES ('2024-02-28')").unwrap();
    assert!(run(&mut s, "INSERT INTO t VALUES ('2024-13-01')").is_err());
    assert!(run(&mut s, "INSERT INTO t VALUES ('yesterday')").is_err());
    assert_eq!(
        run(&mut s, "SELECT * FROM t WHERE d > '2024-01-01'").unwrap().rows,
        vec![vec![Value::Date("2024-02-28".to_string())]]
    );
}

#[test]
fn databases_and_tables_are_listed_in_order() {
    let mut s = store(&[
        "CREATE DATABASE zoo",
        "CREATE SCHEMA ark",
        "CREATE TABLE b (x INT)",
        "CREATE TABLE a (x INT)",
    ]);
    let listed = run(&mut s, "SHOW DATABASES").unwrap();
    assert_eq!(listed.rows, vec![vec![vc("ark")], vec![vc("zoo")]]);
    let listed = run(&mut s, "SHOW TABLES").unwrap();
    assert_eq!(listed.rows, vec![vec![vc("a")], vec![vc("b")]]);
    run(&mut s, "DROP DATABASE zoo").unwrap();
    assert_eq!(run(&mut s, "SHOW DATABASES").unwrap().rows, vec![vec![vc("ark")]]);
    assert!(run(&mut s, "DROP DATABASE zoo").is_err());
    run(&mut s, "DROP DATABASE IF EXISTS zoo").unwrap();
}

#[test]
fn other_shows_are_empty() {
    let mut s = InMemoryStorage::new();
    for sql in ["SHOW CHARACTER SET", "SHOW COLLATION", "SHOW ENGINES"] {
        assert!(run(&mut s, sql).unwrap().rows.is_empty(), "{sql}");
    }
}

#[test]
fn aliases_name_the_columns_of_a_table_too() {
    let mut s = store(&["CREATE TABLE t (a INT, b INT)", "INSERT INTO t VALUES (1, 2)"]);
    let result = run(&mut s, "SELECT b AS second, a FROM t").unwrap();
    assert_eq!(result.column_names(), vec!["second", "a"]);
    assert_eq!(result.rows, vec![vec![Value::Int(2), Value::Int(1)]]);
}

#[test]
fn patterns_match_as_in_like() {
    assert!(like_matches("max%", "max_allowed_packet"));
    assert!(like_matches("%packet", "max_allowed_packet"));
    assert!(like_matches("m_x%", "max_allowed_packet"));
    assert!(!like_matches("max", "max_allowed_packet"));
    assert!(like_matches("%", ""));
    assert!(!like_matches("_", ""));
    assert!(like_matches("MAX%", "max_allowed_packet"));
}

#[test]
fn null_compares_with_nothing() {
    for op in [CompareOp::Eq, CompareOp::NotEq, CompareOp::Lt, CompareOp::Gt, CompareOp::Le, CompareOp::Ge] {
        assert!(!compare_values(&Value::Null, op, &Value::Int(1)));
        assert!(!compare_values(&Value::Int(1), op, &Value::Null));
        assert!(!compare_values(&Value::Null, op, &Value::Null));
    }
    assert!(compare_values(&Value::Int(9), CompareOp::Lt, &Value::Int(10)));
    assert!(compare_values(&vc("9"), CompareOp::Gt, &vc("10")));
}

#[test]
fn names_are_sorted_by_their_characters() {
    let names: Vec<String> = ["b", "a", "", "ab", "B"].iter().map(|s| s.to_string()).collect();
    assert_eq!(sort_names(&names), vec!["", "B", "a", "ab", "b"]);
}

#[test]
fn decimal_literals_read_back() {
    assert_eq!(parse_decimal_literal("-12.50", "p").unwrap(), (-1250, 2));
    assert_eq!(parse_decimal_literal("7", "p").unwrap(), (7, 0));
    assert!(parse_decimal_literal("1.2.3", "p").is_err());
    assert_eq!(rescale_decimal(125, 1, 2, "p").unwrap(), 1250);
    assert!(parse_date_literal("2024-1-1", "d").is_err());
    assert_eq!(parse_date_literal("2024-01-31", "d").unwrap(), "2024-01-31");
}

#[test]
fn identifiers_and_spaces_follow_unicode() {
    // A no-break space separates words, and letters of any script make names.
    let stmt = parse("SELECT\u{a0}gr\u{f6}\u{df}e FROM \u{3c4}").unwrap();
    match stmt {
        Statement::Select { projection, from, .. } => {
            assert_eq!(projection.len(), 1);
            assert_eq!(from.as_deref(), Some("\u{3c4}"));
        }
        other => panic!("expected a select, got {other:?}"),
    }
    // A numeral of another script goes on a name but does not start one.
    assert!(parse("SELECT a\u{661} FROM t").is_ok());
    assert!(parse("SELECT \u{661} FROM t").is_err());
}

#[test]
fn quoted_text_reads_back_with_its_quotes() {
    for text in ["", "it's", "''", "a;b -- c", "\u{1f600}"] {
        let sql = format!("SELECT '{}'", text.replace('\'', "''"));
        let mut s = InMemoryStorage::new();
        assert_eq!(run(&mut s, &sql).unwrap().rows, vec![vec![vc(text)]]);
    }
}

#[test]
fn bound_values_run_like_literals() {
    let mut s = store(&["CREATE TABLE t (id INT PRIMARY KEY, name VARCHAR(9))"]);
    let (stmt, count) = parse_prepared("INSERT INTO t VALUES (?, ?)").unwrap();
    assert_eq!(count, 2);
    let bound = bind_parameters(stmt, &[Expr::Integer(4), Expr::String("x'y".to_string())]).unwrap();
    let vars = SystemVariables::new("8.0.0-test", 1024);
    Executor::new(&mut s, &vars).execute(bound).unwrap();
    assert_eq!(s.scan("t").unwrap(), vec![vec![Value::Int(4), vc("x'y")]]);
}

#[test]
fn errors_read_as_their_kind_and_text() {
    let texts = [
        (Error::Io("disk".to_string()), "io error: disk"),
        (Error::Protocol("p".to_string()), "protocol error: p"),
        (Error::Auth("a".to_string()), "authentication error: a"),
        (Error::Parse("q".to_string()), "parse error: q"),
        (Error::Execution("e".to_string()), "execution error: e"),
        (Error::Unsupported("u"), "unsupported: u"),
    ];
    for (error, text) in texts {
        assert_eq!(error.to_text(), text);
    }
}
