use mysql_rust::query::executor::{Executor, QueryResult};
use mysql_rust::query::parser::parse;
use mysql_rust::query::variables::SystemVariables;
use mysql_rust::storage::{ColumnType, InMemoryStorage, Value};
use mysql_rust::Error;

fn test_vars() -> SystemVariables {
    SystemVariables::new("8.0.0-mysql-rust-test", 64 * 1024 * 1024)
}

fn run(storage: &mut InMemoryStorage, sql: &str) -> Result<QueryResult, Error> {
    let vars = test_vars();
    Executor::new(storage, &vars).execute(parse(sql)?)
}

fn num(n: i64) -> Value {
    Value::Int(n)
}

fn vc(s: &str) -> Value {
    Value::Varchar(s.to_string())
}

#[test]
fn select_1_returns_a_single_row() {
    let mut storage = InMemoryStorage::new();
    let result = run(&mut storage, "SELECT 1").expect("execute");
    assert_eq!(result.column_names(), vec!["1"]);
    assert_eq!(result.rows, vec![vec![num(1)]]);
    // The literal 1 is reported as an integer column, not a string.
    assert_eq!(result.columns[0].column_type, ColumnType::Int);
}

#[test]
fn select_1_is_case_and_whitespace_insensitive() {
    let mut storage = InMemoryStorage::new();
    for sql in ["select 1", "  SELECT 1  ", "SELECT 1;", "Select 1 ;"] {
        let result =
            run(&mut storage, sql).unwrap_or_else(|e| panic!("execute({sql:?}) failed: {e:?}"));
        assert_eq!(result.rows, vec![vec![num(1)]]);
    }
}

#[test]
fn select_null_literal_is_a_null_value_not_the_text_null() {
    let mut storage = InMemoryStorage::new();
    let result = run(&mut storage, "SELECT NULL").expect("execute");
    assert_eq!(result.column_names(), vec!["NULL"]); // display header only
    assert_eq!(result.rows, vec![vec![Value::Null]]);
}

#[test]
fn select_version_returns_configured_server_version() {
    let mut storage = InMemoryStorage::new();
    let result = run(&mut storage, "SELECT @@version").expect("execute");
    assert_eq!(result.column_names(), vec!["@@version"]);
    assert_eq!(result.rows, vec![vec![vc("8.0.0-mysql-rust-test")]]);
}

#[test]
fn unknown_system_variable_resolves_to_null() {
    // Lenient by design: an unknown @@var yields NULL, not an error, so a
    // client's connect-time batch of variable reads never fails on one we
    // don't model.
    let mut storage = InMemoryStorage::new();
    let result = run(&mut storage, "SELECT @@bogus").expect("execute");
    assert_eq!(result.rows, vec![vec![Value::Null]]);
}

#[test]
fn scope_qualified_and_aliased_system_variables() {
    let mut storage = InMemoryStorage::new();
    let result = run(&mut storage, "SELECT @@session.max_allowed_packet AS m").expect("execute");
    assert_eq!(result.column_names(), vec!["m"]);
    assert_eq!(result.rows, vec![vec![num(64 * 1024 * 1024)]]);
}

#[test]
fn set_use_and_show_are_accepted() {
    let mut storage = InMemoryStorage::new();
    run(&mut storage, "SET NAMES utf8mb4").expect("SET");
    run(&mut storage, "SET @@session.autocommit = 1").expect("SET session");
    run(&mut storage, "USE mydb").expect("USE");
    run(&mut storage, "CREATE TABLE t (a INT)").expect("create");
    let tables = run(&mut storage, "SHOW TABLES").expect("SHOW TABLES");
    assert_eq!(tables.rows, vec![vec![vc("t")]]);
    let warnings = run(&mut storage, "SHOW WARNINGS").expect("SHOW WARNINGS");
    assert!(warnings.rows.is_empty());
    assert_eq!(warnings.column_names(), vec!["Level", "Code", "Message"]);
}

#[test]
fn show_variables_like_filters() {
    let mut storage = InMemoryStorage::new();
    let result = run(&mut storage, "SHOW VARIABLES LIKE 'max_allowed%'").expect("SHOW VARIABLES");
    assert_eq!(result.column_names(), vec!["Variable_name", "Value"]);
    assert_eq!(
        result.rows,
        vec![vec![vc("max_allowed_packet"), num(64 * 1024 * 1024)]]
    );
}

#[test]
fn database_function_is_null_without_a_schema() {
    let mut storage = InMemoryStorage::new();
    let result = run(&mut storage, "SELECT DATABASE()").expect("execute");
    assert_eq!(result.rows, vec![vec![Value::Null]]);
}

#[test]
fn connect_time_system_variables_resolve_with_types() {
    // The exact multi-variable query mysql_async issues on connect.
    let mut storage = InMemoryStorage::new();
    let result = run(
        &mut storage,
        "SELECT @@max_allowed_packet,@@wait_timeout,@@socket",
    )
    .expect("execute");
    assert_eq!(
        result.column_names(),
        vec!["@@max_allowed_packet", "@@wait_timeout", "@@socket"]
    );
    // max_allowed_packet and wait_timeout are numeric; socket is NULL.
    assert_eq!(result.columns[0].column_type, ColumnType::Int);
    assert_eq!(result.columns[1].column_type, ColumnType::Int);
    assert_eq!(
        result.rows,
        vec![vec![num(64 * 1024 * 1024), num(28_800), Value::Null]]
    );
}

#[test]
fn create_table_then_select_star_is_empty() {
    let mut storage = InMemoryStorage::new();
    run(&mut storage, "CREATE TABLE t (a INT, b VARCHAR)").expect("create");
    let result = run(&mut storage, "SELECT * FROM t").expect("select");
    assert_eq!(result.column_names(), vec!["a", "b"]);
    // Column types are reported per the schema: INT then VARCHAR.
    assert_eq!(result.columns[0].column_type, ColumnType::Int);
    assert_eq!(result.columns[1].column_type, ColumnType::Varchar);
    assert!(result.rows.is_empty());
}

#[test]
fn executor_create_table_rejects_duplicate() {
    let mut storage = InMemoryStorage::new();
    run(&mut storage, "CREATE TABLE t (a INT)").expect("create");
    assert!(matches!(
        run(&mut storage, "CREATE TABLE t (a INT)"),
        Err(Error::Execution(_))
    ));
}

#[test]
fn create_table_rejects_unknown_type() {
    let mut storage = InMemoryStorage::new();
    assert!(matches!(
        run(&mut storage, "CREATE TABLE t (a BOGUS)"),
        Err(Error::Execution(_))
    ));
}

#[test]
fn create_table_rejects_two_primary_keys() {
    let mut storage = InMemoryStorage::new();
    assert!(matches!(
        run(
            &mut storage,
            "CREATE TABLE t (a INT PRIMARY KEY, b INT PRIMARY KEY)"
        ),
        Err(Error::Execution(_))
    ));
}

#[test]
fn insert_then_select_returns_the_row() {
    let mut storage = InMemoryStorage::new();
    run(&mut storage, "CREATE TABLE t (a INT, b VARCHAR)").expect("create");
    let inserted =
        run(&mut storage, "INSERT INTO t (a, b) VALUES (1, 'x'), (2, 'y')").expect("insert");
    assert_eq!(inserted.rows_affected, 2);

    let result = run(&mut storage, "SELECT * FROM t").expect("select");
    assert_eq!(
        result.rows,
        vec![vec![num(1), vc("x")], vec![num(2), vc("y")]]
    );
}

#[test]
fn insert_without_explicit_columns_uses_table_order() {
    let mut storage = InMemoryStorage::new();
    run(&mut storage, "CREATE TABLE t (a INT, b VARCHAR)").expect("create");
    run(&mut storage, "INSERT INTO t VALUES (1, 'x')").expect("insert");
    let result = run(&mut storage, "SELECT * FROM t").expect("select");
    assert_eq!(result.rows, vec![vec![num(1), vc("x")]]);
}

#[test]
fn insert_with_reordered_columns_places_values_correctly() {
    let mut storage = InMemoryStorage::new();
    run(&mut storage, "CREATE TABLE t (a INT, b VARCHAR)").expect("create");
    run(&mut storage, "INSERT INTO t (b, a) VALUES ('x', 1)").expect("insert");
    let result = run(&mut storage, "SELECT a, b FROM t").expect("select");
    assert_eq!(result.rows, vec![vec![num(1), vc("x")]]);
}

#[test]
fn insert_rejects_unknown_column() {
    let mut storage = InMemoryStorage::new();
    run(&mut storage, "CREATE TABLE t (a INT)").expect("create");
    assert!(matches!(
        run(&mut storage, "INSERT INTO t (bogus) VALUES (1)"),
        Err(Error::Execution(_))
    ));
}

#[test]
fn insert_rejects_missing_columns_in_partial_list() {
    let mut storage = InMemoryStorage::new();
    run(&mut storage, "CREATE TABLE t (a INT, b VARCHAR)").expect("create");
    assert!(matches!(
        run(&mut storage, "INSERT INTO t (a) VALUES (1)"),
        Err(Error::Execution(_))
    ));
}

#[test]
fn insert_into_missing_table_errors() {
    let mut storage = InMemoryStorage::new();
    assert!(matches!(
        run(&mut storage, "INSERT INTO missing VALUES (1)"),
        Err(Error::Execution(_))
    ));
}

#[test]
fn insert_null_into_ordinary_column_is_allowed() {
    let mut storage = InMemoryStorage::new();
    run(&mut storage, "CREATE TABLE t (a INT, b VARCHAR)").expect("create");
    run(&mut storage, "INSERT INTO t VALUES (1, NULL)").expect("insert");
    let result = run(&mut storage, "SELECT * FROM t").expect("select");
    assert_eq!(result.rows, vec![vec![num(1), Value::Null]]);
}

#[test]
fn insert_null_into_primary_key_is_rejected() {
    let mut storage = InMemoryStorage::new();
    run(&mut storage, "CREATE TABLE t (id INT PRIMARY KEY)").expect("create");
    assert!(matches!(
        run(&mut storage, "INSERT INTO t VALUES (NULL)"),
        Err(Error::Execution(_))
    ));
}

#[test]
fn insert_coerces_numeric_string_into_int_column() {
    let mut storage = InMemoryStorage::new();
    run(&mut storage, "CREATE TABLE t (a INT)").expect("create");
    run(&mut storage, "INSERT INTO t VALUES ('42')").expect("insert");
    let result = run(&mut storage, "SELECT * FROM t").expect("select");
    assert_eq!(result.rows, vec![vec![num(42)]]);
}

#[test]
fn insert_coerces_integer_into_varchar_column() {
    let mut storage = InMemoryStorage::new();
    run(&mut storage, "CREATE TABLE t (a VARCHAR)").expect("create");
    run(&mut storage, "INSERT INTO t VALUES (42)").expect("insert");
    let result = run(&mut storage, "SELECT * FROM t").expect("select");
    assert_eq!(result.rows, vec![vec![vc("42")]]);
}

#[test]
fn insert_rejects_non_numeric_string_into_int_column() {
    let mut storage = InMemoryStorage::new();
    run(&mut storage, "CREATE TABLE t (a INT)").expect("create");
    assert!(matches!(
        run(&mut storage, "INSERT INTO t VALUES ('not-a-number')"),
        Err(Error::Execution(_))
    ));
}

#[test]
fn insert_rejects_duplicate_primary_key() {
    let mut storage = InMemoryStorage::new();
    run(
        &mut storage,
        "CREATE TABLE t (id INT PRIMARY KEY, name VARCHAR)",
    )
    .expect("create");
    run(&mut storage, "INSERT INTO t VALUES (1, 'alice')").expect("insert");
    assert!(matches!(
        run(&mut storage, "INSERT INTO t VALUES (1, 'bob')"),
        Err(Error::Execution(_))
    ));
}

#[test]
fn select_with_projection_and_where_equality() {
    let mut storage = InMemoryStorage::new();
    run(&mut storage, "CREATE TABLE t (id INT, name VARCHAR)").expect("create");
    run(
        &mut storage,
        "INSERT INTO t (id, name) VALUES (1, 'alice'), (2, 'bob')",
    )
    .expect("insert");

    let result = run(&mut storage, "SELECT name FROM t WHERE id = 2").expect("select");
    assert_eq!(result.column_names(), vec!["name"]);
    assert_eq!(result.rows, vec![vec![vc("bob")]]);
}

#[test]
fn where_equality_on_primary_key_uses_indexed_lookup_and_is_correct() {
    let mut storage = InMemoryStorage::new();
    run(
        &mut storage,
        "CREATE TABLE t (id INT PRIMARY KEY, name VARCHAR)",
    )
    .expect("create");
    run(
        &mut storage,
        "INSERT INTO t VALUES (1, 'alice'), (2, 'bob'), (3, 'carol')",
    )
    .expect("insert");

    let result = run(&mut storage, "SELECT name FROM t WHERE id = 2").expect("select");
    assert_eq!(result.rows, vec![vec![vc("bob")]]);

    let miss = run(&mut storage, "SELECT name FROM t WHERE id = 999").expect("select");
    assert!(miss.rows.is_empty());
}

#[test]
fn where_compares_numerically_not_lexically() {
    let mut storage = InMemoryStorage::new();
    run(&mut storage, "CREATE TABLE t (id INT)").expect("create");
    for v in ["1", "2", "9", "10", "20"] {
        run(&mut storage, &format!("INSERT INTO t VALUES ({v})")).expect("insert");
    }

    // Lexically, "10" and "20" < "9"; numerically they must sort after it.
    let result = run(&mut storage, "SELECT id FROM t WHERE id > 9").expect("select");
    let mut got: Vec<i64> = result
        .rows
        .into_iter()
        .map(|r| match &r[0] {
            Value::Int(n) => *n,
            other => panic!("expected an integer, got {other:?}"),
        })
        .collect();
    got.sort();
    assert_eq!(got, vec![10, 20]);
}

#[test]
fn where_null_column_never_matches_even_equality() {
    let mut storage = InMemoryStorage::new();
    run(&mut storage, "CREATE TABLE t (a INT, b VARCHAR)").expect("create");
    run(&mut storage, "INSERT INTO t VALUES (1, NULL)").expect("insert");

    // A NULL column value can't satisfy any comparison, even against NULL.
    assert!(run(&mut storage, "SELECT * FROM t WHERE b = NULL")
        .expect("select")
        .rows
        .is_empty());
}

#[test]
fn select_from_missing_table_errors() {
    let mut storage = InMemoryStorage::new();
    assert!(matches!(
        run(&mut storage, "SELECT * FROM missing"),
        Err(Error::Execution(_))
    ));
}

#[test]
fn select_unknown_column_errors() {
    let mut storage = InMemoryStorage::new();
    run(&mut storage, "CREATE TABLE t (a INT)").expect("create");
    assert!(matches!(
        run(&mut storage, "SELECT bogus FROM t"),
        Err(Error::Execution(_))
    ));
}

#[test]
fn select_unknown_column_in_where_errors() {
    let mut storage = InMemoryStorage::new();
    run(&mut storage, "CREATE TABLE t (a INT)").expect("create");
    assert!(matches!(
        run(&mut storage, "SELECT a FROM t WHERE bogus = 1"),
        Err(Error::Execution(_))
    ));
}

#[test]
fn wildcard_mixed_with_column_errors() {
    let mut storage = InMemoryStorage::new();
    run(&mut storage, "CREATE TABLE t (a INT)").expect("create");
    assert!(matches!(
        run(&mut storage, "SELECT *, a FROM t"),
        Err(Error::Execution(_))
    ));
}
