use mysql_rust::auth::AuthPlugin;
use mysql_rust::config::accounts_from_env;
use mysql_rust::observability::{LogLevel, Logger, Observability};
use mysql_rust::protocol::Packet;
use mysql_rust::query::executor::QueryResult;
use mysql_rust::query::parser::parse;
use mysql_rust::query::variables::SystemVariables;
use mysql_rust::server::admission::{rejection, Admission};
use mysql_rust::server::lifecycle::{
    drained, listening, truncate_sql, volatile_mode, Event, Lobby, DRAIN_SECS,
};
use mysql_rust::server::replay_buffer::ReplayBuffer;
use mysql_rust::server::work::{attach, detach, lock_held, lock_wanted, locks_released, run, Work};
use mysql_rust::storage::{InMemoryStorage, Storage, Value};
use mysql_rust::Error;

fn go(work: Work<InMemoryStorage>, sql: &str) -> (Work<InMemoryStorage>, Result<QueryResult, Error>) {
    let vars = SystemVariables::new("8.0.0-test", 1024);
    run(work, &vars, parse(sql).unwrap())
}

fn ok(work: Work<InMemoryStorage>, sql: &str) -> Work<InMemoryStorage> {
    let (work, outcome) = go(work, sql);
    outcome.unwrap();
    work
}

fn rows(work: &Work<InMemoryStorage>, table: &str) -> usize {
    match work {
        Work::Direct(s) => s.scan(table).unwrap().len(),
        Work::Open(t) => t.scan(table).unwrap().len(),
    }
}

#[test]
fn the_limit_on_connections_is_kept() {
    let mut desk = Admission::new(2);
    assert_eq!(desk.arrive(), (1, true));
    assert_eq!(desk.arrive(), (2, true));
    assert_eq!(desk.arrive(), (3, false));
    desk.leave();
    assert_eq!(desk.arrive(), (4, true));
    let mut open = Admission::new(0);
    for id in 1..50 {
        assert_eq!(open.arrive(), (id, true));
    }
    open.next_connection_id = u32::MAX;
    assert_eq!(open.arrive(), (u32::MAX, true));
    assert_eq!(open.arrive(), (0, true));
}

#[test]
fn a_client_too_many_gets_a_real_error() {
    let packet = Packet::decode(&rejection().unwrap()).unwrap();
    assert_eq!(packet.sequence_id, 0);
    assert_eq!(&packet.payload[1..3], &1040u16.to_le_bytes());
    assert_eq!(&packet.payload[4..9], b"08004");
    assert_eq!(&packet.payload[9..], b"Too many connections");
}

#[test]
fn bytes_read_ahead_are_given_out_first() {
    let mut buffer = ReplayBuffer::new(b"hello ".to_vec());
    assert!(!buffer.is_done());
    assert_eq!(buffer.take(4), b"hell");
    assert_eq!(buffer.take(100), b"o ");
    assert!(buffer.is_done());
    assert_eq!(buffer.take(100), b"");
    assert!(ReplayBuffer::new(Vec::new()).is_done());
}

#[test]
fn the_environment_makes_at_most_one_account() {
    assert!(accounts_from_env(None, Some("pw"), Some("bogus")).unwrap().is_empty());
    let accounts = accounts_from_env(Some("alice"), None, None).unwrap();
    assert_eq!(accounts.len(), 1);
    assert_eq!(accounts[0].username, "alice");
    assert_eq!(accounts[0].plugin, AuthPlugin::CachingSha2Password);
    assert_eq!(accounts[0].verifier, None);
    let accounts = accounts_from_env(Some("bob"), Some("pw"), Some("MySQL_Native_Password")).unwrap();
    assert_eq!(accounts[0].plugin, AuthPlugin::MysqlNativePassword);
    assert_eq!(accounts[0].verifier.as_ref().map(|v| v.len()), Some(20));
    assert_eq!(
        accounts_from_env(Some("bob"), None, Some("sha1")).unwrap_err(),
        Error::Auth("unknown auth plugin 'sha1'".to_string())
    );
}

#[test]
fn commit_keeps_and_rollback_discards() {
    let work = ok(Work::Direct(InMemoryStorage::new()), "CREATE TABLE t (id INT PRIMARY KEY)");
    let work = ok(work, "BEGIN");
    let work = ok(work, "INSERT INTO t VALUES (1)");
    assert_eq!(rows(&work, "t"), 1);
    let work = ok(work, "ROLLBACK");
    assert_eq!(rows(&work, "t"), 0);
    let work = ok(work, "START TRANSACTION");
    let work = ok(work, "INSERT INTO t VALUES (1), (2)");
    let work = ok(work, "COMMIT");
    assert!(matches!(work, Work::Direct(_)));
    assert_eq!(rows(&work, "t"), 2);
}

#[test]
fn begin_commits_the_transaction_before_it() {
    let work = ok(Work::Direct(InMemoryStorage::new()), "CREATE TABLE t (id INT)");
    let work = ok(work, "BEGIN");
    let work = ok(work, "INSERT INTO t VALUES (1)");
    let work = ok(work, "BEGIN");
    let work = ok(work, "ROLLBACK");
    assert_eq!(rows(&work, "t"), 1);
    // Without a transaction both are harmless.
    let work = ok(work, "COMMIT");
    let work = ok(work, "ROLLBACK");
    assert_eq!(rows(&work, "t"), 1);
}

#[test]
fn a_failed_statement_leaves_the_transaction_open() {
    let work = ok(Work::Direct(InMemoryStorage::new()), "CREATE TABLE t (id INT PRIMARY KEY)");
    let work = ok(work, "BEGIN");
    let work = ok(work, "INSERT INTO t VALUES (1)");
    let (work, outcome) = go(work, "INSERT INTO t VALUES (1)");
    assert_eq!(
        outcome.unwrap_err(),
        Error::Execution("Duplicate entry '1' for key 'PRIMARY'".to_string())
    );
    let work = ok(work, "COMMIT");
    assert_eq!(rows(&work, "t"), 1);
}

#[test]
fn only_inserts_ask_for_a_lock_and_only_once() {
    let work = ok(Work::Direct(InMemoryStorage::new()), "CREATE TABLE t (id INT)");
    let insert = parse("INSERT INTO t VALUES (1)").unwrap();
    assert_eq!(lock_wanted(&work, &insert).as_deref(), Some("t"));
    assert_eq!(lock_wanted(&work, &parse("SELECT * FROM t").unwrap()), None);
    let work = lock_held(ok(work, "BEGIN"), "t");
    assert_eq!(lock_wanted(&work, &insert), None);
    let work = ok(work, "COMMIT");
    assert_eq!(lock_wanted(&work, &insert).as_deref(), Some("t"));
}

#[test]
fn connections_take_turns_on_one_store() {
    let work = ok(Work::Direct(InMemoryStorage::new()), "CREATE TABLE t (id INT PRIMARY KEY)");
    let work = ok(work, "CREATE TABLE u (id INT PRIMARY KEY)");
    let work = ok(work, "BEGIN");
    let work = ok(work, "INSERT INTO t VALUES (1)");
    let (store, first) = detach(work);
    // The other connection sees nothing of it, and writes elsewhere.
    let other = attach(store, None);
    assert_eq!(rows(&other, "t"), 0);
    let (store, none) = detach(ok(other, "INSERT INTO u VALUES (5)"));
    assert!(none.is_none());
    let work = attach(store, first);
    assert_eq!((rows(&work, "t"), rows(&work, "u")), (1, 1));
    let work = ok(work, "COMMIT");
    assert_eq!(rows(&work, "t"), 1);
    match &work {
        Work::Direct(s) => assert_eq!(s.scan("t").unwrap(), vec![vec![Value::Int(1)]]),
        Work::Open(_) => panic!("the transaction is over"),
    }
}

#[test]
fn the_logger_filters_by_level() {
    let logger = Logger::new(LogLevel::Warn);
    assert!(!logger.enabled(LogLevel::Info));
    assert!(logger.enabled(LogLevel::Warn));
    assert_eq!(logger.line(5, LogLevel::Debug, "quiet", &[]), None);
    assert_eq!(
        logger.line(5, LogLevel::Error, "loud", &[("why", "x")]),
        Some("5 ERROR loud why=x".to_string())
    );
    let shared = Observability::new(LogLevel::Debug);
    assert!(shared.logger.enabled(LogLevel::Debug));
    assert_eq!(shared.metrics.snapshot().connections_total, 0);
}

#[test]
fn long_queries_are_cut_off_in_the_log() {
    assert_eq!(truncate_sql("SELECT 1"), "SELECT 1");
    let exact = "\u{e9}".repeat(500);
    assert_eq!(truncate_sql(&exact), exact);
    let long = "x".repeat(501);
    assert_eq!(truncate_sql(&long), format!("{}\u{2026}", "x".repeat(500)));
}

#[test]
fn comings_and_goings_are_counted_and_logged() {
    let mut lobby = Lobby::new(1, LogLevel::Debug);
    let logger = Logger::new(LogLevel::Debug);
    let line = |event: &Event| event.line(&logger, 9).unwrap();
    let (id, let_in, event) = lobby.arrive("10.0.0.1:5").unwrap();
    assert_eq!((id, let_in), (1, true));
    assert_eq!(line(&event), "9 INFO connection_opened connection_id=1 peer=10.0.0.1:5");
    let (id, let_in, event) = lobby.arrive("10.0.0.2:6").unwrap();
    assert_eq!((id, let_in), (2, false));
    assert_eq!(
        line(&event),
        "9 WARN connection_rejected reason=too_many_connections peer=10.0.0.2:6"
    );
    let event = lobby.statement_done(1, &Ok(QueryResult::default()), Some("SELECT 1"));
    assert!(event.is_none());
    let failed = Err(Error::Parse("bad".to_string()));
    let event = lobby.statement_done(1, &failed, Some("SELEC")).unwrap();
    assert_eq!(
        line(&event),
        "9 DEBUG query_error connection_id=1 error=parse error: bad sql=SELEC"
    );
    let event = lobby.statement_done(1, &failed, None).unwrap();
    assert_eq!(line(&event), "9 DEBUG query_error connection_id=1 error=parse error: bad");
    let event = lobby.depart(1, &Err(Error::Protocol("gone".to_string())));
    assert_eq!(
        line(&event),
        "9 WARN connection_error connection_id=1 error=protocol error: gone"
    );
    let event = lobby.accept_failed("no more files");
    assert_eq!(line(&event), "9 WARN accept_error error=no more files");
    let (_, let_in, _) = lobby.arrive("10.0.0.3:7").unwrap();
    assert!(let_in);
    assert_eq!(line(&lobby.shutdown_started()), "9 INFO shutdown_started active_connections=1");
    assert_eq!(line(&lobby.depart(3, &Ok(()))), "9 INFO connection_closed connection_id=3");
    assert_eq!(
        line(&lobby.shutdown_complete()),
        "9 INFO shutdown_complete connections_total=2 queries_total=1 errors_total=5"
    );
}

#[test]
fn nobody_is_let_in_once_shutdown_has_begun() {
    let mut lobby = Lobby::new(0, LogLevel::Info);
    assert!(lobby.arrive("a").unwrap().1);
    let _ = lobby.shutdown_started();
    assert!(lobby.arrive("b").is_none());
    let _ = lobby.depart(1, &Ok(()));
    assert!(lobby.arrive("c").is_none());
    let counts = lobby.observability.metrics.snapshot();
    assert_eq!((counts.connections_total, counts.errors_total), (1, 0));
    assert_eq!(DRAIN_SECS, 10);
    assert!(drained(0).is_none());
    assert!(drained(1).is_some());
}

#[test]
fn the_server_says_what_it_is_doing() {
    let logger = Logger::new(LogLevel::Info);
    assert_eq!(
        listening("127.0.0.1:3306", "8.0.0-test").line(&logger, 1).unwrap(),
        "1 INFO server_listening addr=127.0.0.1:3306 version=8.0.0-test"
    );
    assert_eq!(
        drained(2).unwrap().line(&logger, 1).unwrap(),
        "1 WARN shutdown_drain_timeout still_running=2"
    );
    assert!(volatile_mode().line(&logger, 1).unwrap().contains("set MYSQLRUST_DATA_DIR"));
    assert_eq!(volatile_mode().line(&Logger::new(LogLevel::Error), 1), None);
}

#[test]
fn a_transaction_keeps_its_locks_until_it_ends() {
    let work = ok(Work::Direct(InMemoryStorage::new()), "CREATE TABLE t (a INT)");
    let work = ok(work, "CREATE TABLE u (a INT)");
    let into_t = parse("INSERT INTO t VALUES (1)").unwrap();
    let into_u = parse("INSERT INTO u VALUES (1)").unwrap();
    let work = lock_held(ok(work, "BEGIN"), "t");
    let work = ok(work, "INSERT INTO t VALUES (1), (2)");
    let work = ok(work, "CREATE DATABASE d");
    let (work, failed) = go(work, "INSERT INTO t VALUES (1, 2)");
    assert!(failed.is_err());
    assert_eq!(lock_wanted(&work, &into_t), None);
    assert_eq!(lock_wanted(&work, &into_u), Some("u".to_string()));
    let work = lock_held(lock_held(work, "u"), "t");
    let (store, aside) = detach(work);
    let work = attach(store, aside);
    assert_eq!(lock_wanted(&work, &into_t), None);
    assert_eq!(lock_wanted(&work, &into_u), None);
    let work = ok(work, "BEGIN");
    assert_eq!(lock_wanted(&work, &into_t), Some("t".to_string()));
    let work = ok(work, "ROLLBACK");
    assert_eq!(lock_wanted(&work, &into_u), Some("u".to_string()));
}

#[test]
fn definitions_are_not_held_back() {
    let work = ok(Work::Direct(InMemoryStorage::new()), "CREATE TABLE t (a INT)");
    let work = ok(ok(work, "BEGIN"), "INSERT INTO t VALUES (1)");
    let work = ok(ok(work, "CREATE TABLE u (a INT)"), "CREATE DATABASE d");
    let (store, _) = detach(work);
    let other = attach(store, None);
    assert_eq!(rows(&other, "t"), 0);
    assert_eq!(rows(&other, "u"), 0);
    let (_, again) = go(other, "CREATE DATABASE d");
    assert!(again.is_err());
}

#[test]
fn locks_go_with_the_transaction_or_the_statement() {
    let control = ["BEGIN", "COMMIT", "ROLLBACK"];
    let other = ["INSERT INTO t VALUES (1)", "SELECT 1", "CREATE DATABASE d", "USE x"];
    let direct = ok(Work::Direct(InMemoryStorage::new()), "CREATE TABLE t (a INT)");
    for sql in control.iter().chain(other.iter()) {
        assert!(locks_released(&direct, &parse(sql).unwrap()));
    }
    let open = lock_held(ok(direct, "BEGIN"), "t");
    for sql in control {
        assert!(locks_released(&open, &parse(sql).unwrap()));
    }
    for sql in other {
        assert!(!locks_released(&open, &parse(sql).unwrap()));
    }
}

#[test]
fn a_transaction_goes_on_after_others_have_written_elsewhere() {
    let work = ok(Work::Direct(InMemoryStorage::new()), "CREATE TABLE t (a INT PRIMARY KEY)");
    let work = ok(work, "CREATE TABLE u (a INT)");
    let work = ok(lock_held(ok(work, "BEGIN"), "t"), "INSERT INTO t VALUES (1)");
    let (store, aside) = detach(work);
    let (store, none) = detach(ok(attach(store, None), "INSERT INTO u VALUES (9)"));
    assert!(none.is_none());
    let work = attach(store, aside);
    assert_eq!((rows(&work, "t"), rows(&work, "u")), (1, 1));
    let work = ok(work, "COMMIT");
    assert_eq!((rows(&work, "t"), rows(&work, "u")), (1, 1));
}
