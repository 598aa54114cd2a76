use mysql_rust::observability::{format_line, LogLevel, Metrics};

#[test]
fn log_line_format_is_structured() {
    let line = format_line(
        1_720_000_000,
        LogLevel::Info,
        "connection_opened",
        &[("connection_id", "5"), ("peer", "127.0.0.1:5000")],
    );
    assert_eq!(
        line,
        "1720000000 INFO connection_opened connection_id=5 peer=127.0.0.1:5000"
    );
}

#[test]
fn log_line_with_no_fields() {
    let line = format_line(1, LogLevel::Error, "boom", &[]);
    assert_eq!(line, "1 ERROR boom");
}

#[test]
fn level_ordering_filters_correctly() {
    assert!(LogLevel::Debug < LogLevel::Info);
    assert!(LogLevel::Info < LogLevel::Warn);
    assert!(LogLevel::Warn < LogLevel::Error);
}

#[test]
fn level_from_name() {
    assert_eq!(LogLevel::from_name("info"), Some(LogLevel::Info));
    assert_eq!(LogLevel::from_name("WARNING"), Some(LogLevel::Warn));
    assert_eq!(LogLevel::from_name("bogus"), None);
}

#[test]
fn metrics_count_connections_and_queries() {
    let mut m = Metrics::new();
    m.connection_opened();
    m.connection_opened();
    m.query_executed();
    m.error();
    let snap = m.snapshot();
    assert_eq!(snap.connections_total, 2);
    assert_eq!(snap.connections_active, 2);
    assert_eq!(snap.queries_total, 1);
    assert_eq!(snap.errors_total, 1);

    m.connection_closed();
    assert_eq!(m.snapshot().connections_active, 1);
    assert_eq!(m.snapshot().connections_total, 2); // total never decrements
}

#[test]
fn connection_closed_saturates_at_zero() {
    let mut m = Metrics::new();
    m.connection_closed(); // no open connections — must not underflow
    assert_eq!(m.snapshot().connections_active, 0);
}
