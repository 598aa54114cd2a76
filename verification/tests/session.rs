use mysql_rust::auth::{caching_sha2, native_password, AuthOutcome, AuthPlugin};
use mysql_rust::config::UserCredential;
use mysql_rust::protocol::capabilities::{
    CLIENT_DEPRECATE_EOF, CLIENT_MULTI_STATEMENTS, CLIENT_PLUGIN_AUTH, CLIENT_PROTOCOL_41,
    CLIENT_SECURE_CONNECTION, CLIENT_SSL,
};
use mysql_rust::protocol::{Cell, HandshakeResponse41, Packet};
use mysql_rust::query::executor::QueryResult;
use mysql_rust::query::parser::{parse, Expr, Statement};
use mysql_rust::query::variables::SystemVariables;
use mysql_rust::server::batch::Batch;
use mysql_rust::server::commands::{Command, ExecutePlan};
use mysql_rust::server::session::{
    closed_early, declared_payload_len, response_has_ssl_flag, take_packet, value_to_cell, AuthStep,
    Session,
};
use mysql_rust::server::work::{run, Work};
use mysql_rust::storage::{InMemoryStorage, Value};
use mysql_rust::Error;

const SCRAMBLE: &[u8; 20] = b"abcdefghijklmnopqrst";
const FRESH: &[u8; 20] = b"ABCDEFGHIJKLMNOPQRST";

fn session(users: &[UserCredential]) -> Session {
    let vars = SystemVariables::new("8.0.0-test", 1024);
    Session::new(7, vars, AuthPlugin::CachingSha2Password, users)
}

fn packets(mut bytes: &[u8]) -> Vec<Packet> {
    let mut out = Vec::new();
    while let Some((packet, used)) = Packet::parse(bytes).unwrap() {
        out.push(packet);
        bytes = &bytes[used..];
    }
    assert!(bytes.is_empty());
    out
}

fn response(username: &str, auth_response: &[u8], plugin: &str) -> HandshakeResponse41 {
    let caps = CLIENT_PROTOCOL_41 | CLIENT_SECURE_CONNECTION | CLIENT_PLUGIN_AUTH;
    let mut payload = caps.to_le_bytes().to_vec();
    payload.extend_from_slice(&1024u32.to_le_bytes());
    payload.push(45);
    payload.extend_from_slice(&[0u8; 23]);
    payload.extend_from_slice(username.as_bytes());
    payload.push(0);
    payload.push(auth_response.len() as u8);
    payload.extend_from_slice(auth_response);
    payload.extend_from_slice(plugin.as_bytes());
    payload.push(0);
    HandshakeResponse41::parse(&payload).unwrap()
}

fn command(s: &mut Session, payload: &[u8]) -> Result<Command, Error> {
    s.read_command(&Packet::new(0, payload.to_vec()))
}

fn execute_payload(id: u32, values: &[i64]) -> Vec<u8> {
    let mut p = vec![0x17];
    p.extend_from_slice(&id.to_le_bytes());
    p.push(0);
    p.extend_from_slice(&1u32.to_le_bytes());
    if !values.is_empty() {
        p.extend_from_slice(&vec![0u8; (values.len() + 7) / 8]);
        p.push(1);
        for _ in values {
            p.extend_from_slice(&[0x08, 0]);
        }
        for v in values {
            p.extend_from_slice(&v.to_le_bytes());
        }
    }
    p
}

#[test]
fn the_greeting_carries_version_id_and_scramble() {
    let mut s = session(&[]);
    let bytes = s.greet_with(true, *SCRAMBLE).unwrap();
    let sent = packets(&bytes);
    assert_eq!(sent.len(), 1);
    assert_eq!(sent[0].sequence_id, 0);
    assert_eq!(&sent[0].payload[1..11], b"8.0.0-test");
    assert_eq!(&sent[0].payload[12..16], &7u32.to_le_bytes());
    assert_eq!(&sent[0].payload[16..24], &SCRAMBLE[..8]);
    assert_eq!(s.scramble, *SCRAMBLE);
    assert_eq!(s.sequence_id, 1);
    // Whether TLS is on offer shows in the capability flags.
    let lower = u16::from_le_bytes([sent[0].payload[25], sent[0].payload[26]]) as u32;
    assert_ne!(lower & CLIENT_SSL, 0);
    let mut plain = session(&[]);
    let sent = packets(&plain.greet_with(false, *SCRAMBLE).unwrap());
    let lower = u16::from_le_bytes([sent[0].payload[25], sent[0].payload[26]]) as u32;
    assert_eq!(lower & CLIENT_SSL, 0);
}

#[test]
fn greetings_draw_a_new_scramble_each_time() {
    let mut a = session(&[]);
    let mut b = session(&[]);
    a.greet(false).unwrap();
    b.greet(false).unwrap();
    assert_ne!(a.scramble, b.scramble);
    assert!(a.scramble.iter().all(|c| (33..=126).contains(c)));
}

#[test]
fn packets_have_to_arrive_in_order() {
    let mut s = session(&[]);
    s.greet_with(false, *SCRAMBLE).unwrap();
    assert_eq!(
        s.accept(&Packet::new(3, Vec::new())),
        Err(Error::Protocol("expected sequence id 1, got 3".to_string()))
    );
    s.accept(&Packet::new(1, Vec::new())).unwrap();
    assert_eq!(s.sequence_id, 2);
}

#[test]
fn a_sha2_account_logs_in_over_the_fast_path() {
    let mut s = session(&[UserCredential::with_caching_sha2_password("alice", "s3cret")]);
    s.greet_with(false, *SCRAMBLE).unwrap();
    let reply = caching_sha2::scramble(Some(b"s3cret"), SCRAMBLE);
    let r = response("alice", &reply, "caching_sha2_password");
    let step = s.begin_auth(&r, *FRESH).unwrap();
    match step {
        AuthStep::Verify { plugin, auth_response } => {
            let (outcome, bytes) = s.finish_auth(&r, plugin, &auth_response).unwrap();
            assert_eq!(outcome, AuthOutcome::Granted);
            let sent = packets(&bytes);
            assert_eq!(sent[0].payload, vec![0x01, 0x03]);
            assert_eq!(sent[1].payload, vec![0, 0, 0, 2, 0, 0, 0]);
            assert_eq!((sent[0].sequence_id, sent[1].sequence_id), (1, 2));
        }
        AuthStep::Switch { .. } => panic!("no switch is needed"),
    }
    assert_eq!(s.client_capabilities, r.capability_flags);
}

#[test]
fn a_client_with_the_other_plugin_is_asked_to_switch() {
    let mut s = session(&[UserCredential::with_password("bob", "pw")]);
    s.greet_with(false, *SCRAMBLE).unwrap();
    s.accept(&Packet::new(1, Vec::new())).unwrap();
    let r = response("bob", b"whatever", "caching_sha2_password");
    match s.begin_auth(&r, *FRESH).unwrap() {
        AuthStep::Switch { plugin, packet } => {
            assert_eq!(plugin, AuthPlugin::MysqlNativePassword);
            let sent = packets(&packet);
            assert_eq!(sent[0].payload[0], 0xfe);
            assert_eq!(&sent[0].payload[1..22], b"mysql_native_password");
            assert_eq!(&sent[0].payload[23..], &FRESH[..]);
            s.accept(&Packet::new(3, Vec::new())).unwrap();
            let answer = native_password::compute_auth_response(Some(b"pw"), FRESH);
            let (outcome, bytes) = s.finish_auth(&r, plugin, &answer).unwrap();
            assert_eq!(outcome, AuthOutcome::Granted);
            assert_eq!(packets(&bytes).len(), 1);
        }
        AuthStep::Verify { .. } => panic!("a switch is needed"),
    }
}

#[test]
fn a_wrong_password_and_an_unknown_user_are_answered_alike() {
    for user in ["alice", "mallory"] {
        let mut s = session(&[UserCredential::with_caching_sha2_password("alice", "s3cret")]);
        s.greet_with(false, *SCRAMBLE).unwrap();
        let reply = caching_sha2::scramble(Some(b"guess"), SCRAMBLE);
        let r = response(user, &reply, "caching_sha2_password");
        match s.begin_auth(&r, *FRESH).unwrap() {
            AuthStep::Verify { plugin, auth_response } => {
                let (outcome, bytes) = s.finish_auth(&r, plugin, &auth_response).unwrap();
                assert_eq!(outcome, AuthOutcome::Denied);
                let sent = packets(&bytes);
                let text = format!("Access denied for user '{user}'");
                assert_eq!(&sent[0].payload[9..], text.as_bytes());
            }
            AuthStep::Switch { .. } => panic!("no switch is needed"),
        }
        assert_eq!(s.client_capabilities, 0);
    }
}

#[test]
fn a_tls_request_is_told_by_its_flag() {
    assert!(response_has_ssl_flag(&(CLIENT_SSL | 1).to_le_bytes()));
    assert!(!response_has_ssl_flag(&1u32.to_le_bytes()));
    assert!(!response_has_ssl_flag(&[0, 8]));
}

#[test]
fn packets_are_taken_off_the_front_of_the_buffer() {
    let mut buf = Packet::new(0, b"one".to_vec()).encode();
    buf.extend(Packet::new(1, b"two".to_vec()).encode());
    buf.extend([9, 0]);
    assert_eq!(declared_payload_len(&buf), Some(3));
    assert_eq!(take_packet(&mut buf, 100).unwrap().unwrap().payload, b"one");
    assert_eq!(take_packet(&mut buf, 100).unwrap().unwrap().payload, b"two");
    assert_eq!(take_packet(&mut buf, 100).unwrap(), None);
    assert_eq!(buf, vec![9, 0]);
    assert_eq!(declared_payload_len(&buf), None);
}

#[test]
fn an_oversized_packet_is_refused_on_its_header() {
    let mut buf = vec![0x01, 0x02, 0x00, 0x00];
    assert_eq!(
        take_packet(&mut buf, 512),
        Err(Error::Protocol(
            "packet payload of 513 bytes exceeds max_allowed_packet (512)".to_string()
        ))
    );
    assert_eq!(
        closed_early(),
        Error::Protocol("connection closed before a full packet was received".to_string())
    );
}

#[test]
fn commands_are_told_apart() {
    let mut s = session(&[]);
    assert!(matches!(command(&mut s, &[0x01]), Ok(Command::Quit)));
    assert!(matches!(command(&mut s, &[0x0e]), Ok(Command::Ping)));
    assert_eq!(s.sequence_id, 1);
    match command(&mut s, b"\x03SELECT 'h\xc3\xa9'") {
        Ok(Command::Query(sql)) => assert_eq!(sql, "SELECT 'h\u{e9}'"),
        other => panic!("expected a query, got {other:?}"),
    }
    assert!(matches!(command(&mut s, &[0x16, b'x']), Ok(Command::Prepare(p)) if p == [0x16, b'x']));
    assert!(matches!(command(&mut s, &[0x17]), Ok(Command::Execute(_))));
    assert!(matches!(command(&mut s, &[0x19]), Ok(Command::Close(_))));
    assert!(matches!(command(&mut s, &[0x1a]), Ok(Command::Reset(_))));
    assert!(matches!(command(&mut s, &[0x42]), Ok(Command::Unknown(0x42))));
}

#[test]
fn malformed_commands_end_the_exchange() {
    let mut s = session(&[]);
    assert_eq!(
        s.read_command(&Packet::new(2, vec![0x0e])).unwrap_err(),
        Error::Protocol("expected a fresh command sequence starting at 0, got 2".to_string())
    );
    assert_eq!(
        command(&mut s, &[]).unwrap_err(),
        Error::Protocol("empty command packet".to_string())
    );
    assert_eq!(
        command(&mut s, &[0x03, 0xff]).unwrap_err(),
        Error::Protocol("COM_QUERY: payload is not valid UTF-8".to_string())
    );
}

#[test]
fn ping_and_unknown_commands_are_answered() {
    let mut s = session(&[]);
    command(&mut s, &[0x0e]).unwrap();
    let sent = packets(&s.pong().unwrap());
    assert_eq!(sent[0].payload, vec![0, 0, 0, 2, 0, 0, 0]);
    assert_eq!(sent[0].sequence_id, 1);
    let sent = packets(&s.refuse_command(0x42).unwrap());
    assert_eq!(&sent[0].payload[1..3], &1047u16.to_le_bytes());
    assert_eq!(&sent[0].payload[4..9], b"08S01");
    assert_eq!(&sent[0].payload[9..], b"Unknown command 0x42");
    let sent = packets(&s.refuse_command(0x5).unwrap());
    assert_eq!(&sent[0].payload[9..], b"Unknown command 0x5");
}

#[test]
fn several_statements_need_the_flag() {
    let mut s = session(&[]);
    assert_eq!(s.plan_query("SELECT 1;").unwrap().len(), 1);
    assert_eq!(
        s.plan_query("SELECT 1; SELECT 2").unwrap_err(),
        Error::Parse(
            "multiple statements in one query require CLIENT_MULTI_STATEMENTS".to_string()
        )
    );
    s.client_capabilities = CLIENT_MULTI_STATEMENTS;
    assert_eq!(s.plan_query("SELECT 1; SELECT 2").unwrap().len(), 2);
}

#[test]
fn a_batch_stops_at_its_first_failure() {
    let statements = vec![parse("COMMIT").unwrap(), parse("BEGIN").unwrap(), parse("USE d").unwrap()];
    let mut batch = Batch::new(statements);
    assert_eq!(batch.next(), Some(Statement::Commit));
    assert!(batch.settle(false));
    assert_eq!(batch.next(), Some(Statement::Begin));
    assert!(!batch.settle(true));
    assert_eq!(batch.next(), None);

    let mut batch = Batch::new(vec![parse("COMMIT").unwrap()]);
    assert_eq!(batch.next(), Some(Statement::Commit));
    assert!(!batch.settle(false));
    assert_eq!(batch.next(), None);
}

#[test]
fn outcomes_are_sent_as_ok_result_set_or_error() {
    let mut s = session(&[]);
    s.sequence_id = 1;
    let done = QueryResult { columns: Vec::new(), rows: Vec::new(), rows_affected: 3 };
    let sent = packets(&s.reply_outcome(&Ok(done), false, false).unwrap());
    assert_eq!(sent[0].payload, vec![0, 3, 0, 2, 0, 0, 0]);
    assert_eq!(s.sequence_id, 2);

    let done = QueryResult::default();
    let sent = packets(&s.reply_outcome(&Ok(done), false, true).unwrap());
    assert_eq!(sent[0].payload, vec![0, 0, 0, 0x0a, 0, 0, 0]);

    let vars = SystemVariables::new("8.0.0-test", 1024);
    let (_, outcome) = run(Work::Direct(InMemoryStorage::new()), &vars, parse("SELECT 5").unwrap());
    let sent = packets(&s.reply_outcome(&outcome, false, false).unwrap());
    assert_eq!(sent.len(), 5);
    assert_eq!(sent[3].payload, b"\x015");
    assert_eq!(s.sequence_id, 8);
    s.client_capabilities = CLIENT_DEPRECATE_EOF;
    let sent = packets(&s.reply_outcome(&outcome, true, false).unwrap());
    assert_eq!(sent.len(), 4);
    assert_eq!(sent[2].payload, vec![0, 0, 5, 0, 0, 0, 0, 0, 0, 0]);

    let failed = Err(Error::Execution("no".to_string()));
    let sent = packets(&s.reply_outcome(&failed, false, false).unwrap());
    assert_eq!(sent[0].payload[0], 0xff);
    assert_eq!(s.sequence_id, 13);
}

#[test]
fn a_statement_is_prepared_executed_and_closed() {
    let mut s = session(&[]);
    s.sequence_id = 1;
    let bytes = s.prepare(b"\x16SELECT * FROM t WHERE id = ?").unwrap();
    let sent = packets(&bytes);
    // OK, one definition, EOF.
    assert_eq!(sent.len(), 3);
    assert_eq!(sent[0].payload, vec![0, 1, 0, 0, 0, 0, 0, 1, 0, 0, 0, 0]);
    assert_eq!(sent[2].payload, vec![0xfe, 0, 0, 2, 0]);
    assert_eq!(s.sequence_id, 4);

    match s.plan_execute(&execute_payload(1, &[42])) {
        ExecutePlan::Run(Statement::Select { selection: Some(c), .. }) => {
            assert_eq!(c.value, Expr::Integer(42));
        }
        other => panic!("expected a bound statement, got {other:?}"),
    }
    assert!(matches!(
        s.plan_execute(&execute_payload(1, &[])),
        ExecutePlan::Fail(Error::Protocol(_))
    ));
    match s.plan_execute(&execute_payload(9, &[42])) {
        ExecutePlan::Reject(e) => assert_eq!(
            e.to_text(),
            "execution error: Unknown prepared statement handler (9) given to COM_STMT_EXECUTE"
        ),
        other => panic!("expected a rejection, got {other:?}"),
    }
    match s.plan_execute(&[0x17, 1]) {
        ExecutePlan::Reject(e) => {
            assert_eq!(e, Error::Protocol("COM_STMT_EXECUTE: truncated header".to_string()))
        }
        other => panic!("expected a rejection, got {other:?}"),
    }

    s.close(&[0x19, 1, 0]);
    assert!(s.prepared.contains_key(&1));
    s.close(&[0x19, 1, 0, 0, 0]);
    assert!(!s.prepared.contains_key(&1));
    assert!(matches!(s.plan_execute(&execute_payload(1, &[42])), ExecutePlan::Reject(_)));
}

#[test]
fn statement_ids_count_up_and_wrap() {
    let mut s = session(&[]);
    s.prepare(b"\x16SELECT 1").unwrap();
    s.prepare(b"\x16SELECT 2").unwrap();
    assert!(s.prepared.contains_key(&1) && s.prepared.contains_key(&2));
    s.next_statement_id = u32::MAX;
    s.prepare(b"\x16SELECT 3").unwrap();
    assert!(s.prepared.contains_key(&u32::MAX));
    assert_eq!(s.next_statement_id, 0);
}

#[test]
fn without_eof_packets_definitions_stand_alone() {
    let mut s = session(&[]);
    s.client_capabilities = CLIENT_DEPRECATE_EOF;
    s.sequence_id = 1;
    let sent = packets(&s.prepare(b"\x16INSERT INTO t VALUES (?, ?)").unwrap());
    assert_eq!(sent.len(), 3);
    assert_eq!(sent[2].sequence_id, 3);
    assert_eq!(s.sequence_id, 4);
    // No parameters, no definitions, no EOF.
    s.client_capabilities = 0;
    let sent = packets(&s.prepare(b"\x16SELECT 1").unwrap());
    assert_eq!(sent.len(), 1);
}

#[test]
fn a_bad_prepare_is_an_error_packet() {
    let mut s = session(&[]);
    s.sequence_id = 1;
    let sent = packets(&s.prepare(&[0x16, 0xff]).unwrap());
    assert_eq!(
        &sent[0].payload[9..],
        b"COM_STMT_PREPARE: payload is not valid UTF-8"
    );
    let sent = packets(&s.prepare(b"\x16NONSENSE").unwrap());
    assert_eq!(&sent[0].payload[1..3], &1064u16.to_le_bytes());
    assert_eq!(s.sequence_id, 3);
    assert!(s.prepared.is_empty());
}

#[test]
fn reset_acknowledges_only_what_it_knows() {
    let mut s = session(&[]);
    s.prepare(b"\x16SELECT 1").unwrap();
    let sent = packets(&s.reset(&[0x1a, 1, 0, 0, 0]).unwrap());
    assert_eq!(sent[0].payload[0], 0);
    let sent = packets(&s.reset(&[0x1a, 2, 0, 0, 0]).unwrap());
    assert_eq!(&sent[0].payload[1..3], &1243u16.to_le_bytes());
    assert_eq!(&sent[0].payload[4..9], b"HY000");
    let sent = packets(&s.reset(&[0x1a]).unwrap());
    assert_eq!(
        &sent[0].payload[9..],
        b"Unknown prepared statement handler given to COM_STMT_RESET"
    );
}

#[test]
fn a_rejected_command_moves_the_sequence_on() {
    let mut s = session(&[]);
    s.sequence_id = 255;
    let sent = packets(&s.reject(&Error::Unsupported("that")).unwrap());
    assert_eq!(sent[0].sequence_id, 255);
    assert_eq!(s.sequence_id, 0);
}

#[test]
fn decimals_and_dates_go_out_as_text() {
    assert_eq!(value_to_cell(&Value::Int(3)), Cell::Int(3));
    assert_eq!(value_to_cell(&Value::Null), Cell::Null);
    assert_eq!(value_to_cell(&Value::Decimal(-5, 2)), Cell::Text("-0.05".to_string()));
    assert_eq!(
        value_to_cell(&Value::Date("2024-02-29".to_string())),
        Cell::Text("2024-02-29".to_string())
    );
}
