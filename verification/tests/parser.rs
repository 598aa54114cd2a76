use mysql_rust::query::parser::{
    bind_parameters, parse, parse_many, parse_prepared, ColumnDef, CompareOp, Condition, Expr,
    SelectItem, ShowStatement, Statement,
};
use mysql_rust::Error;

// ---- tokenizer / low-level parsing behavior, exercised via parse() ----

#[test]
fn keywords_are_case_insensitive() {
    assert!(parse("select 1").is_ok());
    assert!(parse("SeLeCt 1").is_ok());
}

#[test]
fn rejects_empty_statement() {
    assert!(matches!(parse(""), Err(Error::Parse(_))));
    assert!(matches!(parse("   "), Err(Error::Parse(_))));
}

#[test]
fn rejects_unterminated_string() {
    assert!(matches!(parse("SELECT 'abc"), Err(Error::Parse(_))));
}

#[test]
fn string_literal_handles_escaped_quote() {
    let stmt = parse("SELECT 'it''s'").unwrap();
    match stmt {
        Statement::Select { projection, .. } => {
            assert_eq!(
                projection,
                vec![SelectItem::Expr(Expr::String("it's".to_string()), None)]
            );
        }
        other => panic!("expected Select, got {other:?}"),
    }
}

#[test]
fn negative_integer_literal() {
    let stmt = parse("SELECT -5").unwrap();
    match stmt {
        Statement::Select { projection, .. } => {
            assert_eq!(projection, vec![SelectItem::Expr(Expr::Integer(-5), None)]);
        }
        other => panic!("expected Select, got {other:?}"),
    }
}

#[test]
fn null_literal() {
    let stmt = parse("SELECT NULL").unwrap();
    match stmt {
        Statement::Select { projection, .. } => {
            assert_eq!(projection, vec![SelectItem::Expr(Expr::Null, None)]);
        }
        other => panic!("expected Select, got {other:?}"),
    }
    assert_eq!(Expr::Null.to_value_string(), None);
}

#[test]
fn null_is_case_insensitive() {
    assert!(parse("SELECT null").is_ok());
    assert!(parse("INSERT INTO t VALUES (Null)").is_ok());
}

#[test]
fn rejects_unexpected_character() {
    // `~` isn't part of the supported grammar (unlike `#`/`--`/`/* */`,
    // which are comments).
    assert!(matches!(parse("SELECT ~1"), Err(Error::Parse(_))));
}

#[test]
fn comments_are_skipped() {
    // Line comments (`#`, `-- `) and block comments, including the MySQL
    // executable form `/*! ... */`, whose inner SQL is unwrapped.
    assert!(parse("SELECT 1 # trailing line comment").is_ok());
    assert!(parse("SELECT 1 -- trailing line comment").is_ok());
    assert!(parse("/* leading block comment */ SELECT 1").is_ok());
    assert!(parse("SELECT /* inline */ 1").is_ok());
    assert!(parse("/*! SELECT 1 */").is_ok());
    assert!(parse("/*!40101 SELECT 1 */").is_ok());
}

#[test]
fn backtick_quoted_identifiers() {
    assert!(parse("SELECT `id`, `full name` FROM `my table`").is_ok());
}

// ---- CREATE TABLE ----

#[test]
fn create_table_basic() {
    let stmt = parse("CREATE TABLE users (id INT, name VARCHAR)").unwrap();
    assert_eq!(
        stmt,
        Statement::CreateTable {
            table: "users".to_string(),
            columns: vec![
                ColumnDef {
                    name: "id".to_string(),
                    type_text: "INT".to_string(),
                    is_primary_key: false,
                    nullable: true,
                    auto_increment: false,
                },
                ColumnDef {
                    name: "name".to_string(),
                    type_text: "VARCHAR".to_string(),
                    is_primary_key: false,
                    nullable: true,
                    auto_increment: false,
                },
            ],
        }
    );
}

#[test]
fn create_table_with_primary_key() {
    let stmt = parse("CREATE TABLE t (id INT PRIMARY KEY, name VARCHAR)").unwrap();
    match stmt {
        Statement::CreateTable { columns, .. } => {
            assert!(columns[0].is_primary_key);
            assert!(!columns[1].is_primary_key);
        }
        other => panic!("expected CreateTable, got {other:?}"),
    }
}

#[test]
fn create_table_rejects_primary_without_key() {
    assert!(matches!(
        parse("CREATE TABLE t (id INT PRIMARY, name VARCHAR)"),
        Err(Error::Parse(_))
    ));
}

#[test]
fn create_table_with_type_size_is_accepted() {
    assert!(parse("CREATE TABLE t (name VARCHAR(255))").is_ok());
}

#[test]
fn create_table_requires_at_least_one_column() {
    assert!(matches!(parse("CREATE TABLE t ()"), Err(Error::Parse(_))));
}

#[test]
fn create_table_rejects_missing_closing_paren() {
    assert!(matches!(
        parse("CREATE TABLE t (id INT"),
        Err(Error::Parse(_))
    ));
}

/// A table as DBeaver's visual editor writes it: a schema-qualified name,
/// `AUTO_INCREMENT NOT NULL`, `NULL`, a table-level named `CONSTRAINT ...
/// PRIMARY KEY (...)`, and trailing `DEFAULT CHARSET=... COLLATE=...`.
#[test]
fn dbeaver_generated_create_table_parses() {
    let sql = "CREATE TABLE testfd.NewTable (\n\
                \tId INT auto_increment NOT NULL,\n\
                \tName varchar(100) NULL,\n\
                \tCONSTRAINT NewTable_PK PRIMARY KEY (Id)\n\
                )\n\
                DEFAULT CHARSET=utf8mb4\n\
                COLLATE=utf8mb4_general_ci";
    let stmt = parse(sql).unwrap_or_else(|e| panic!("parse failed: {e:?}"));
    match stmt {
        Statement::CreateTable { table, columns } => {
            // The schema qualifier is dropped; only the table name is kept.
            assert_eq!(table, "NewTable");
            assert_eq!(columns.len(), 2);
            assert_eq!(columns[0].name, "Id");
            assert!(
                columns[0].is_primary_key,
                "set by the table-level CONSTRAINT"
            );
            assert!(!columns[0].nullable, "NOT NULL, and implied by PRIMARY KEY");
            assert!(columns[0].auto_increment);
            assert_eq!(columns[1].name, "Name");
            assert!(!columns[1].is_primary_key);
            assert!(columns[1].nullable);
            assert!(!columns[1].auto_increment);
        }
        other => panic!("expected CreateTable, got {other:?}"),
    }
}

#[test]
fn create_table_name_can_be_schema_qualified() {
    let stmt = parse("CREATE TABLE mydb.t (a INT)").unwrap();
    match stmt {
        Statement::CreateTable { table, .. } => assert_eq!(table, "t"),
        other => panic!("expected CreateTable, got {other:?}"),
    }
}

#[test]
fn not_null_and_null_column_attributes() {
    let stmt = parse("CREATE TABLE t (a INT NOT NULL, b INT NULL, c INT)").unwrap();
    match stmt {
        Statement::CreateTable { columns, .. } => {
            assert!(!columns[0].nullable);
            assert!(columns[1].nullable);
            assert!(columns[2].nullable, "nullable by default");
        }
        other => panic!("expected CreateTable, got {other:?}"),
    }
}

#[test]
fn auto_increment_column_attribute() {
    let stmt = parse("CREATE TABLE t (id INT AUTO_INCREMENT PRIMARY KEY)").unwrap();
    match stmt {
        Statement::CreateTable { columns, .. } => {
            assert!(columns[0].auto_increment);
            assert!(columns[0].is_primary_key);
        }
        other => panic!("expected CreateTable, got {other:?}"),
    }
}

#[test]
fn table_level_primary_key_constraint_marks_the_column() {
    let stmt = parse("CREATE TABLE t (id INT, name VARCHAR, PRIMARY KEY (id))").unwrap();
    match stmt {
        Statement::CreateTable { columns, .. } => {
            assert!(columns[0].is_primary_key);
            assert!(!columns[1].is_primary_key);
        }
        other => panic!("expected CreateTable, got {other:?}"),
    }
}

#[test]
fn table_level_composite_primary_key_is_unsupported() {
    assert!(matches!(
        parse("CREATE TABLE t (a INT, b INT, PRIMARY KEY (a, b))"),
        Err(Error::Unsupported(_))
    ));
}

#[test]
fn table_level_primary_key_unknown_column_is_a_parse_error() {
    assert!(matches!(
        parse("CREATE TABLE t (a INT, PRIMARY KEY (bogus))"),
        Err(Error::Parse(_))
    ));
}

#[test]
fn unique_key_index_and_foreign_key_constraints_are_parsed_and_discarded() {
    assert!(parse("CREATE TABLE t (a INT, UNIQUE (a))").is_ok());
    assert!(parse("CREATE TABLE t (a INT, UNIQUE KEY uq_a (a))").is_ok());
    assert!(parse("CREATE TABLE t (a INT, KEY idx_a (a))").is_ok());
    assert!(parse("CREATE TABLE t (a INT, INDEX idx_a (a))").is_ok());
    assert!(parse(
        "CREATE TABLE t (a INT, b INT, \
         CONSTRAINT fk_b FOREIGN KEY (b) REFERENCES other(id) ON DELETE CASCADE)"
    )
    .is_ok());
}

#[test]
fn column_default_comment_and_unique_attributes_are_parsed_and_discarded() {
    assert!(parse("CREATE TABLE t (a INT DEFAULT 0, b VARCHAR DEFAULT NULL)").is_ok());
    assert!(parse("CREATE TABLE t (a INT COMMENT 'a column')").is_ok());
    assert!(parse("CREATE TABLE t (a INT UNIQUE, b INT UNIQUE KEY)").is_ok());
    assert!(parse("CREATE TABLE t (a INT UNSIGNED, b BIGINT ZEROFILL)").is_ok());
}

#[test]
fn create_table_trailing_options_are_discarded() {
    assert!(parse(
        "CREATE TABLE t (a INT) ENGINE=InnoDB DEFAULT CHARSET=utf8mb4 \
         COLLATE=utf8mb4_general_ci COMMENT='a table'"
    )
    .is_ok());
}

// ---- INSERT ----

#[test]
fn insert_into_qualified_table_name() {
    let stmt = parse("INSERT INTO mydb.t VALUES (1)").unwrap();
    match stmt {
        Statement::Insert { table, .. } => assert_eq!(table, "t"),
        other => panic!("expected Insert, got {other:?}"),
    }
}

#[test]
fn insert_with_explicit_columns_multi_row() {
    let stmt = parse("INSERT INTO t (a, b) VALUES (1, 'x'), (2, 'y')").unwrap();
    assert_eq!(
        stmt,
        Statement::Insert {
            table: "t".to_string(),
            columns: Some(vec!["a".to_string(), "b".to_string()]),
            rows: vec![
                vec![Expr::Integer(1), Expr::String("x".to_string())],
                vec![Expr::Integer(2), Expr::String("y".to_string())],
            ],
        }
    );
}

#[test]
fn insert_without_explicit_columns() {
    let stmt = parse("INSERT INTO t VALUES (1, 'x')").unwrap();
    assert_eq!(
        stmt,
        Statement::Insert {
            table: "t".to_string(),
            columns: None,
            rows: vec![vec![Expr::Integer(1), Expr::String("x".to_string())]],
        }
    );
}

#[test]
fn insert_rejects_missing_values_keyword() {
    // Valid column list, but the VALUES keyword itself is missing.
    assert!(matches!(
        parse("INSERT INTO t (a, b) (1, 2)"),
        Err(Error::Parse(_))
    ));
}

#[test]
fn insert_rejects_non_identifier_in_column_list() {
    assert!(matches!(
        parse("INSERT INTO t (1, 2) VALUES (1, 2)"),
        Err(Error::Parse(_))
    ));
}

// ---- transaction control ----

#[test]
fn begin_and_start_transaction_are_synonyms() {
    assert_eq!(parse("BEGIN").unwrap(), Statement::Begin);
    assert_eq!(parse("begin").unwrap(), Statement::Begin);
    assert_eq!(parse("START TRANSACTION").unwrap(), Statement::Begin);
    assert_eq!(parse("start transaction").unwrap(), Statement::Begin);
}

#[test]
fn commit_and_rollback() {
    assert_eq!(parse("COMMIT").unwrap(), Statement::Commit);
    assert_eq!(parse("COMMIT;").unwrap(), Statement::Commit);
    assert_eq!(parse("ROLLBACK").unwrap(), Statement::Rollback);
}

#[test]
fn start_without_transaction_keyword_is_a_parse_error() {
    assert!(matches!(parse("START"), Err(Error::Parse(_))));
    assert!(matches!(parse("START FOO"), Err(Error::Parse(_))));
}

#[test]
fn transaction_control_rejects_trailing_garbage() {
    assert!(matches!(parse("BEGIN FOO"), Err(Error::Parse(_))));
    assert!(matches!(parse("COMMIT NOW"), Err(Error::Parse(_))));
}

// ---- prepared-statement placeholders ----

#[test]
fn plain_parse_rejects_placeholders() {
    assert!(matches!(
        parse("SELECT * FROM t WHERE id = ?"),
        Err(Error::Parse(_))
    ));
    assert!(matches!(
        parse("INSERT INTO t VALUES (?)"),
        Err(Error::Parse(_))
    ));
}

#[test]
fn parse_prepared_counts_and_indexes_placeholders() {
    let (stmt, count) = parse_prepared("INSERT INTO t (a, b) VALUES (?, ?)").unwrap();
    assert_eq!(count, 2);
    match stmt {
        Statement::Insert { rows, .. } => {
            assert_eq!(rows[0], vec![Expr::Placeholder(0), Expr::Placeholder(1)]);
        }
        other => panic!("expected Insert, got {other:?}"),
    }
}

#[test]
fn parse_prepared_placeholder_in_where() {
    let (stmt, count) = parse_prepared("SELECT * FROM t WHERE id = ?").unwrap();
    assert_eq!(count, 1);
    match stmt {
        Statement::Select {
            selection: Some(cond),
            ..
        } => {
            assert_eq!(cond.value, Expr::Placeholder(0));
        }
        other => panic!("expected Select with WHERE, got {other:?}"),
    }
}

#[test]
fn parse_prepared_with_no_placeholders_reports_zero() {
    let (_stmt, count) = parse_prepared("SELECT 1").unwrap();
    assert_eq!(count, 0);
}

// ---- multi-statement parsing ----

#[test]
fn parse_many_single_statement() {
    let stmts = parse_many("SELECT 1").unwrap();
    assert_eq!(stmts.len(), 1);
}

#[test]
fn parse_many_splits_on_semicolons() {
    let stmts = parse_many("SELECT 1; SELECT 2; SELECT 3").unwrap();
    assert_eq!(stmts.len(), 3);
}

#[test]
fn parse_many_ignores_trailing_and_empty_segments() {
    assert_eq!(parse_many("SELECT 1;").unwrap().len(), 1);
    assert_eq!(parse_many("SELECT 1;;SELECT 2;").unwrap().len(), 2);
}

#[test]
fn parse_many_does_not_split_semicolons_inside_string_literals() {
    // The ';' is inside a string literal, so this is one statement.
    let stmts = parse_many("INSERT INTO t VALUES ('a;b')").unwrap();
    assert_eq!(stmts.len(), 1);
    match &stmts[0] {
        Statement::Insert { rows, .. } => {
            assert_eq!(rows[0], vec![Expr::String("a;b".to_string())]);
        }
        other => panic!("expected Insert, got {other:?}"),
    }
}

#[test]
fn parse_many_rejects_a_malformed_segment() {
    assert!(matches!(
        parse_many("SELECT 1; GARBAGE HERE"),
        Err(Error::Parse(_))
    ));
}

#[test]
fn parse_many_rejects_all_empty() {
    assert!(matches!(parse_many(";;"), Err(Error::Parse(_))));
    assert!(matches!(parse_many("  "), Err(Error::Parse(_))));
}

#[test]
fn bind_parameters_fills_placeholders_in_order() {
    let (stmt, _) = parse_prepared("INSERT INTO t (a, b) VALUES (?, ?)").unwrap();
    let bound =
        bind_parameters(stmt, &[Expr::Integer(1), Expr::String("x".to_string())]).unwrap();
    match bound {
        Statement::Insert { rows, .. } => {
            assert_eq!(
                rows[0],
                vec![Expr::Integer(1), Expr::String("x".to_string())]
            );
        }
        other => panic!("expected Insert, got {other:?}"),
    }
}

#[test]
fn bind_parameters_errors_when_a_value_is_missing() {
    let (stmt, _) = parse_prepared("SELECT * FROM t WHERE id = ?").unwrap();
    assert!(matches!(
        bind_parameters(stmt, &[]),
        Err(Error::Execution(_))
    ));
}

#[test]
fn bind_parameters_leaves_non_placeholder_statements_unchanged() {
    let (stmt, _) = parse_prepared("SELECT 1").unwrap();
    let bound = bind_parameters(stmt.clone(), &[]).unwrap();
    assert_eq!(bound, stmt);
}

// ---- SELECT ----

#[test]
fn select_from_qualified_table_name() {
    let stmt = parse("SELECT * FROM information_schema.TABLES").unwrap();
    assert_eq!(
        stmt,
        Statement::Select {
            projection: vec![SelectItem::Wildcard],
            from: Some("TABLES".to_string()),
            selection: None,
        }
    );
}

#[test]
fn select_from_table_with_bare_and_as_alias() {
    assert!(parse("SELECT * FROM t alias").is_ok());
    assert!(parse("SELECT * FROM t AS alias").is_ok());
    // The alias is parsed and discarded, but WHERE afterward still works.
    assert!(parse("SELECT * FROM t alias WHERE a = 1").is_ok());
}

#[test]
fn select_wildcard_from_table() {
    let stmt = parse("SELECT * FROM t").unwrap();
    assert_eq!(
        stmt,
        Statement::Select {
            projection: vec![SelectItem::Wildcard],
            from: Some("t".to_string()),
            selection: None,
        }
    );
}

#[test]
fn select_columns_with_where_equality() {
    let stmt = parse("SELECT a, b FROM t WHERE a = 1").unwrap();
    assert_eq!(
        stmt,
        Statement::Select {
            projection: vec![
                SelectItem::Expr(Expr::Column("a".to_string()), None),
                SelectItem::Expr(Expr::Column("b".to_string()), None),
            ],
            from: Some("t".to_string()),
            selection: Some(Condition {
                column: "a".to_string(),
                op: CompareOp::Eq,
                value: Expr::Integer(1),
            }),
        }
    );
}

#[test]
fn select_where_supports_all_comparison_operators() {
    for (text, op) in [
        ("=", CompareOp::Eq),
        ("<>", CompareOp::NotEq),
        ("!=", CompareOp::NotEq),
        ("<", CompareOp::Lt),
        (">", CompareOp::Gt),
        ("<=", CompareOp::Le),
        (">=", CompareOp::Ge),
    ] {
        let sql = format!("SELECT * FROM t WHERE a {text} 1");
        let stmt = parse(&sql).unwrap_or_else(|e| panic!("parse({sql:?}) failed: {e:?}"));
        match stmt {
            Statement::Select {
                selection: Some(cond),
                ..
            } => assert_eq!(cond.op, op),
            other => panic!("expected a Select with a WHERE, got {other:?}"),
        }
    }
}

#[test]
fn select_literal_without_from() {
    let stmt = parse("SELECT 1").unwrap();
    assert_eq!(
        stmt,
        Statement::Select {
            projection: vec![SelectItem::Expr(Expr::Integer(1), None)],
            from: None,
            selection: None,
        }
    );
}

#[test]
fn select_system_variable() {
    let stmt = parse("SELECT @@version").unwrap();
    assert_eq!(
        stmt,
        Statement::Select {
            projection: vec![SelectItem::Expr(
                Expr::SystemVariable("version".to_string()),
                None
            )],
            from: None,
            selection: None,
        }
    );
}

#[test]
fn select_trailing_semicolon_is_optional() {
    assert!(parse("SELECT 1;").is_ok());
    assert!(parse("SELECT 1").is_ok());
}

#[test]
fn select_rejects_trailing_garbage() {
    // A trailing integer isn't a valid alias, so it's genuine garbage.
    // (`SELECT 1 alias` is fine: a bare identifier is an alias.)
    assert!(matches!(parse("SELECT 1 2"), Err(Error::Parse(_))));
}

#[test]
fn select_supports_column_aliases() {
    let stmt = parse("SELECT @@version AS v, 1 AS one, 2 three").unwrap();
    match stmt {
        Statement::Select { projection, .. } => {
            let aliases: Vec<Option<String>> = projection
                .iter()
                .map(|item| match item {
                    SelectItem::Expr(_, alias) => alias.clone(),
                    SelectItem::Wildcard => None,
                })
                .collect();
            assert_eq!(
                aliases,
                vec![
                    Some("v".to_string()),
                    Some("one".to_string()),
                    Some("three".to_string()),
                ]
            );
        }
        other => panic!("expected Select, got {other:?}"),
    }
}

// ---- CREATE/DROP DATABASE, SHOW CHARACTER SET/COLLATION ----

#[test]
fn create_database_basic_and_if_not_exists() {
    assert_eq!(
        parse("CREATE DATABASE mydb").unwrap(),
        Statement::CreateDatabase {
            name: "mydb".to_string(),
            if_not_exists: false,
        }
    );
    assert_eq!(
        parse("CREATE DATABASE IF NOT EXISTS mydb").unwrap(),
        Statement::CreateDatabase {
            name: "mydb".to_string(),
            if_not_exists: true,
        }
    );
    // Case-insensitive, and CREATE TABLE is unaffected by the lookahead.
    assert!(parse("create database mydb").is_ok());
    assert!(parse("CREATE TABLE t (a INT)").is_ok());
}

/// `SCHEMA` is a true MySQL synonym for `DATABASE` (unlike standard SQL).
/// JDBC drivers, and so DBeaver's "Create Database" action, emit
/// `CREATE SCHEMA`.
#[test]
fn schema_is_a_synonym_for_database() {
    assert_eq!(
        parse("CREATE SCHEMA mydb").unwrap(),
        Statement::CreateDatabase {
            name: "mydb".to_string(),
            if_not_exists: false,
        }
    );
    assert_eq!(
        parse("CREATE SCHEMA IF NOT EXISTS mydb").unwrap(),
        Statement::CreateDatabase {
            name: "mydb".to_string(),
            if_not_exists: true,
        }
    );
    assert_eq!(
        parse("DROP SCHEMA IF EXISTS mydb").unwrap(),
        Statement::DropDatabase {
            name: "mydb".to_string(),
            if_exists: true,
        }
    );
}

#[test]
fn create_database_discards_charset_and_collate_clauses() {
    assert!(parse("CREATE DATABASE mydb DEFAULT CHARACTER SET utf8mb4").is_ok());
    assert!(
        parse("CREATE DATABASE mydb CHARACTER SET = utf8mb4 COLLATE = utf8mb4_general_ci")
            .is_ok()
    );
}

#[test]
fn drop_database_basic_and_if_exists() {
    assert_eq!(
        parse("DROP DATABASE mydb").unwrap(),
        Statement::DropDatabase {
            name: "mydb".to_string(),
            if_exists: false,
        }
    );
    assert_eq!(
        parse("DROP DATABASE IF EXISTS mydb").unwrap(),
        Statement::DropDatabase {
            name: "mydb".to_string(),
            if_exists: true,
        }
    );
}

#[test]
fn show_character_set_and_charset_and_collation() {
    assert_eq!(
        parse("SHOW CHARACTER SET").unwrap(),
        Statement::Show(ShowStatement::CharacterSet)
    );
    assert_eq!(
        parse("SHOW CHARSET").unwrap(),
        Statement::Show(ShowStatement::CharacterSet)
    );
    assert_eq!(
        parse("SHOW COLLATION").unwrap(),
        Statement::Show(ShowStatement::Collation)
    );
}

#[test]
fn select_rejects_where_without_from() {
    // No FROM means no columns exist to filter on; this should be a
    // syntax error the same way real MySQL rejects it.
    assert!(matches!(
        parse("SELECT 1 WHERE a = 1"),
        Err(Error::Parse(_))
    ));
}

#[test]
fn parse_error_messages_name_the_offending_token() {
    let err = parse("DELETE FROM t").unwrap_err();
    let message = err.to_text();
    assert!(message.contains("DELETE"), "message was: {message}");
}
