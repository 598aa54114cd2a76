use mysql_rust::protocol::resultset::encode_binary_row;
use mysql_rust::protocol::{parse_execute_params, Cell};
use mysql_rust::query::executor::{Executor, QueryResult};
use mysql_rust::query::parser::{bind_parameters, parse, parse_many, parse_prepared, Expr};
use mysql_rust::query::variables::SystemVariables;
use mysql_rust::server::work::{run, Work};
use mysql_rust::storage::log::{replay, Entry};
use mysql_rust::storage::value::{parse_decimal_literal, rescale_decimal};
use mysql_rust::storage::{
    format_decimal, ColumnSchema, ColumnType, InMemoryStorage, Storage, Transaction, Value,
};
use mysql_rust::Error;
use mysql_rust::text::{chars_of, i64_text, read_i64};

fn vars() -> SystemVariables {
    SystemVariables::new("8.0.0-test", 1024)
}

fn exec(storage: &mut InMemoryStorage, sql: &str) -> QueryResult {
    Executor::new(storage, &vars()).execute(parse(sql).unwrap()).unwrap()
}

#[test]
fn values_sent_in_a_result_come_back_as_parameters() {
    let cells = vec![
        Cell::Int(i64::MIN),
        Cell::Null,
        Cell::Text("h\u{e9}llo".to_string()),
        Cell::Int(-1),
        Cell::Text(String::new()),
    ];
    let row = encode_binary_row(&cells, 0).unwrap().payload;
    // A result row has a header byte and a bitmap that is two bits further on.
    let values = &row[1 + (cells.len() + 2 + 7) / 8..];
    let mut payload = vec![0x17, 1, 0, 0, 0, 0, 1, 0, 0, 0];
    payload.push(0b0000_0010);
    payload.push(1);
    for cell in &cells {
        payload.push(if matches!(cell, Cell::Int(_)) { 0x08 } else { 0xfd });
        payload.push(0);
    }
    payload.extend_from_slice(values);
    assert_eq!(parse_execute_params(&payload, cells.len()).unwrap(), cells);
}

#[test]
fn every_number_reads_back_from_its_numeral() {
    for n in [0, 7, -7, 1234567890, i64::MAX, i64::MIN] {
        let text = i64_text(n);
        assert_eq!(text, n.to_string());
        let chars = chars_of(&text);
        assert_eq!(read_i64(&chars, 0, chars.len()), Some(n));
    }
}

#[test]
fn decimals_read_back_and_survive_rescaling() {
    for (n, scale) in [(0, 0), (5, 2), (-1550, 2), (i64::MAX, 4), (-1, 9)] {
        assert_eq!(parse_decimal_literal(&format_decimal(n, scale), "c").unwrap(), (n, scale));
    }
    let wide = rescale_decimal(-1234, 2, 5, "c").unwrap();
    assert_eq!(wide, -1234000);
    assert_eq!(rescale_decimal(wide, 5, 2, "c").unwrap(), -1234);
    assert!(rescale_decimal(i64::MAX, 0, 1, "c").is_err());
}

#[test]
fn a_lookup_finds_what_a_scan_would() {
    let mut s = InMemoryStorage::new();
    exec(&mut s, "CREATE TABLE t (id INT PRIMARY KEY, n INT)");
    exec(&mut s, "INSERT INTO t VALUES (1, 1), (2, 2), (3, 3)");
    for id in 0..5 {
        let by_key = exec(&mut s, &format!("SELECT * FROM t WHERE id = {id}"));
        let by_scan = exec(&mut s, &format!("SELECT * FROM t WHERE n = {id}"));
        assert_eq!(by_key.rows, by_scan.rows);
    }
}

#[test]
fn reading_changes_nothing() {
    let mut s = InMemoryStorage::new();
    exec(&mut s, "CREATE TABLE t (id INT)");
    exec(&mut s, "INSERT INTO t VALUES (1)");
    let before = s.snapshot();
    for sql in ["SELECT * FROM t", "SHOW TABLES", "SET NAMES utf8", "USE x", "SELECT @@version"] {
        exec(&mut s, sql);
    }
    assert_eq!(s.snapshot(), before);
}

#[test]
fn results_have_one_value_per_column() {
    let mut s = InMemoryStorage::new();
    exec(&mut s, "CREATE TABLE t (a INT, b VARCHAR(5), c DATE)");
    exec(&mut s, "INSERT INTO t VALUES (1, 'x', NULL), (2, NULL, '2024-01-01')");
    for sql in ["SELECT * FROM t", "SELECT c, a FROM t", "SELECT 1, NULL, @@nope, DATABASE()"] {
        let result = exec(&mut s, sql);
        assert!(!result.columns.is_empty());
        assert!(result.rows.iter().all(|r| r.len() == result.columns.len()));
    }
}

#[test]
fn reserved_values_are_used_up_by_a_rollback() {
    let mut s = InMemoryStorage::new();
    s.create_table(
        "t",
        vec![ColumnSchema {
            name: "id".to_string(),
            column_type: ColumnType::Int,
            nullable: false,
            auto_increment: true,
        }],
        Some("id".to_string()),
    )
    .unwrap();
    let mut tx = Transaction::new(s);
    assert_eq!(tx.next_auto_increment("t").unwrap(), 1);
    tx.insert_row("t", vec![Value::Int(1)]).unwrap();
    let mut s = tx.rollback();
    assert!(s.scan("t").unwrap().is_empty());
    assert_eq!(s.next_auto_increment("t").unwrap(), 2);
}

#[test]
fn a_counter_stops_at_the_end_of_its_range() {
    let mut s = InMemoryStorage::new();
    exec(&mut s, "CREATE TABLE t (id INT AUTO_INCREMENT PRIMARY KEY)");
    exec(&mut s, "INSERT INTO t VALUES (9223372036854775807)");
    assert_eq!(s.next_auto_increment("t").unwrap(), i64::MAX);
    assert_eq!(s.next_auto_increment("t").unwrap(), i64::MAX);
}

/// A client's session from its first statement to its last.
#[test]
fn a_shop_session_runs_through() {
    let steps: [(&str, usize); 17] = [
        ("CREATE DATABASE IF NOT EXISTS shop", 0),
        ("CREATE SCHEMA IF NOT EXISTS shop_alt", 0),
        ("SHOW DATABASES", 2),
        (
            "CREATE TABLE shop.customers (\n\tid INT AUTO_INCREMENT NOT NULL,\n\t\
             name VARCHAR(100) NOT NULL,\n\temail VARCHAR(255) NULL,\n\t\
             CONSTRAINT customers_pk PRIMARY KEY (id)\n)\n\
             DEFAULT CHARSET=utf8mb4\nCOLLATE=utf8mb4_general_ci",
            0,
        ),
        ("INSERT INTO customers (name, email) VALUES ('Ada Lovelace', 'ada@example.com')", 0),
        (
            "INSERT INTO customers (name, email) VALUES \
             ('Grace Hopper', 'grace@example.com'), ('Alan Turing', NULL)",
            0,
        ),
        ("SELECT * FROM customers", 3),
        ("SELECT name FROM customers WHERE id = 1", 1),
        ("SHOW TABLES", 1),
        ("SHOW VARIABLES LIKE 'max_allowed_packet'", 1),
        ("SELECT @@version", 1),
        ("BEGIN", 0),
        ("INSERT INTO customers (name, email) VALUES ('Margaret Hamilton', NULL)", 0),
        ("COMMIT", 0),
        ("SELECT name FROM customers WHERE name = 'Margaret Hamilton'", 1),
        ("DROP SCHEMA IF EXISTS shop_alt", 0),
        ("SHOW DATABASES", 1),
    ];
    let mut work = Work::Direct(InMemoryStorage::new());
    for (sql, rows) in steps {
        let (after, outcome) = run(work, &vars(), parse(sql).unwrap());
        assert_eq!(outcome.unwrap().rows.len(), rows, "{sql}");
        work = after;
    }
}

#[test]
fn a_checkpoint_has_one_batch_per_table_and_restores_the_store() {
    let mut s = InMemoryStorage::new();
    exec(&mut s, "CREATE TABLE t (id INT AUTO_INCREMENT PRIMARY KEY, x VARCHAR(5))");
    for _ in 0..5 {
        exec(&mut s, "INSERT INTO t (x) VALUES ('a')");
    }
    exec(&mut s, "CREATE TABLE empty (a INT)");
    exec(&mut s, "CREATE DATABASE d");
    let log = s.snapshot();
    let (entries, good) = replay(&log).unwrap();
    assert_eq!(good, log.len());
    assert_eq!(entries.len(), 4);
    assert!(matches!(&entries[0], Entry::CreateTable { table, .. } if table == "t"));
    assert!(matches!(&entries[1], Entry::Transaction { rows } if rows.len() == 5));
    assert!(matches!(&entries[2], Entry::CreateTable { table, .. } if table == "empty"));
    assert!(matches!(&entries[3], Entry::CreateDatabase { name } if name == "d"));
    let (mut restored, good) = InMemoryStorage::restore(&log).unwrap();
    assert_eq!(good, log.len());
    assert_eq!(restored.scan("t").unwrap(), s.scan("t").unwrap());
    assert_eq!(restored.databases().unwrap(), vec!["d".to_string()]);
    assert_eq!(restored.next_auto_increment("t").unwrap(), 6);
}

#[test]
fn attributes_may_stand_in_any_order() {
    let clauses = ["NOT NULL", "AUTO_INCREMENT", "PRIMARY KEY", "UNIQUE KEY", "DEFAULT f(1, 2)", "COMMENT 'c'"];
    let wanted = parse(&format!("CREATE TABLE t (a INT(11) UNSIGNED {})", clauses.join(" "))).unwrap();
    for turn in 0..clauses.len() {
        let mut turned = clauses.to_vec();
        turned.rotate_left(turn);
        let sql = format!("CREATE TABLE t (a INT(11) UNSIGNED {})", turned.join(" "));
        assert_eq!(parse(&sql).unwrap(), wanted);
        turned.reverse();
        let sql = format!("CREATE TABLE t (a INT(11) UNSIGNED {})", turned.join(" "));
        assert_eq!(parse(&sql).unwrap(), wanted);
    }
}

#[test]
fn text_without_placeholders_is_the_same_when_prepared() {
    for sql in ["SELECT 1", "INSERT INTO t VALUES (1, 'a?b')", "CREATE TABLE t (a INT) COMMENT ?", "SHOW ?"] {
        assert_eq!(parse_prepared(sql).unwrap(), (parse(sql).unwrap(), 0));
    }
    for sql in ["SELECT ?", "CREATE TABLE t (a INT DEFAULT ?)"] {
        assert_eq!(parse_prepared(sql).unwrap().1, 1);
        assert!(parse(sql).is_err());
    }
}

#[test]
fn placeholders_are_numbered_in_the_order_of_the_text() {
    let (statement, n) = parse_prepared("SELECT ?, f(?, 1, g(?)) FROM t WHERE a = ?").unwrap();
    assert_eq!(n, 4);
    let params: Vec<Expr> = (10..14).map(Expr::Integer).collect();
    assert_eq!(
        bind_parameters(statement, &params).unwrap(),
        parse("SELECT 10, f(11, 1, g(12)) FROM t WHERE a = 13").unwrap()
    );
    let (statement, n) = parse_prepared("INSERT INTO t VALUES (?, 'x'), (?, ?)").unwrap();
    assert_eq!(n, 3);
    assert_eq!(
        bind_parameters(statement, &params).unwrap(),
        parse("INSERT INTO t VALUES (10, 'x'), (11, 12)").unwrap()
    );
}

#[test]
fn joined_texts_are_joined_lists() {
    let a = "BEGIN; SELECT 'x;y' -- a comment; with a semicolon";
    let b = "COMMIT;";
    let x = parse_many(a).unwrap();
    let y = parse_many(b).unwrap();
    assert_eq!((x.len(), y.len()), (2, 1));
    assert_eq!(y, vec![parse(b).unwrap()]);
    let both = parse_many(&format!("{a}\n;{b}")).unwrap();
    assert_eq!(both, [x.clone(), y].concat());
    assert_eq!(parse_many(&format!("{a}\n;;")).unwrap(), x);
    assert_eq!(parse_many(&format!(";\n;{a}")).unwrap(), x);
    assert!(parse_many(" ;; ").is_err());
    assert_eq!(parse_many("SELECT 1;SELECT").unwrap_err(), parse("SELECT").unwrap_err());
}

#[test]
fn white_space_is_that_of_unicode() {
    let plain = parse("SELECT 1").unwrap();
    for c in ['\u{85}', '\u{a0}', '\u{1680}', '\u{2000}', '\u{200a}', '\u{2028}', '\u{2029}', '\u{202f}', '\u{205f}', '\u{3000}'] {
        assert_eq!(parse(&format!("SELECT{c}1")).unwrap(), plain);
    }
    for c in ['\u{180e}', '\u{200b}', '\u{2060}', '\u{feff}'] {
        assert!(parse(&format!("SELECT{c}1")).is_err());
    }
}

#[test]
fn a_batch_is_refused_for_its_first_fault() {
    let mut s = InMemoryStorage::new();
    exec(&mut s, "CREATE TABLE t (id INT PRIMARY KEY, n INT)");
    exec(&mut s, "CREATE TABLE u (id INT PRIMARY KEY)");
    exec(&mut s, "INSERT INTO t VALUES (1, 1)");
    let place = |table: &str, row: &[i64]| {
        (table.to_string(), row.iter().map(|n| Value::Int(*n)).collect::<Vec<Value>>())
    };
    let good = place("t", &[2, 2]);
    for (bad, message) in [
        (place("v", &[1]), "Table 'v' doesn't exist"),
        (place("t", &[3]), "Column count doesn't match value count: table 't' has 2 column(s), got 1"),
        (place("t", &[1, 5]), "Duplicate entry '1' for key 'PRIMARY'"),
        (place("t", &[2, 5]), "Duplicate entry '2' for key 'PRIMARY'"),
    ] {
        let batch = vec![good.clone(), place("u", &[2]), bad, place("w", &[])];
        let e = s.insert_rows(batch).unwrap_err();
        assert_eq!(e, Error::Execution(message.to_string()));
        assert_eq!(s.scan("t").unwrap().len(), 1);
        assert!(s.scan("u").unwrap().is_empty());
    }
    s.insert_rows(vec![good, place("u", &[2]), place("t", &[3, 3])]).unwrap();
    let ids: Vec<Value> = s.scan("t").unwrap().into_iter().map(|r| r[0].clone()).collect();
    assert_eq!(ids, vec![Value::Int(1), Value::Int(2), Value::Int(3)]);
    assert_eq!(s.scan("u").unwrap(), vec![vec![Value::Int(2)]]);
}

#[test]
fn reserved_values_only_grow() {
    let mut s = InMemoryStorage::new();
    exec(&mut s, "CREATE TABLE t (id INT AUTO_INCREMENT PRIMARY KEY)");
    let mut last = 0;
    for sql in ["INSERT INTO t VALUES (41)", "SELECT 1", "INSERT INTO t VALUES (7), (NULL)", "INSERT INTO t VALUES (-9)"] {
        let v = s.next_auto_increment("t").unwrap();
        assert!(v > last);
        last = v;
        exec(&mut s, sql);
        let greatest = s.scan("t").unwrap().iter().map(|r| match r[0] {
            Value::Int(n) => n,
            _ => 0,
        }).max().unwrap();
        assert!(s.next_auto_increment("t").unwrap() > greatest);
    }
    let mut fresh = InMemoryStorage::new();
    exec(&mut fresh, "CREATE TABLE t (id INT AUTO_INCREMENT PRIMARY KEY)");
    assert_eq!(fresh.next_auto_increment("t").unwrap(), 1);
    exec(&mut fresh, "INSERT INTO t VALUES (41)");
    assert_eq!(fresh.next_auto_increment("t").unwrap(), 42);
}
