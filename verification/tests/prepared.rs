use mysql_rust::protocol::prepared::{
    MYSQL_TYPE_LONG, MYSQL_TYPE_LONGLONG, MYSQL_TYPE_NULL, MYSQL_TYPE_VAR_STRING,
};
use mysql_rust::protocol::{parse_execute_params, Cell, StmtPrepareOk};

#[test]
fn prepare_ok_layout() {
    let ok = StmtPrepareOk {
        statement_id: 1,
        num_columns: 0,
        num_params: 2,
    };
    let packet = ok.to_packet(1).expect("encode");
    assert_eq!(packet.sequence_id, 1);
    assert_eq!(packet.payload[0], 0x00); // OK status
    assert_eq!(&packet.payload[1..5], &1u32.to_le_bytes()); // statement id
    assert_eq!(&packet.payload[5..7], &0u16.to_le_bytes()); // num_columns
    assert_eq!(&packet.payload[7..9], &2u16.to_le_bytes()); // num_params
    assert_eq!(packet.payload.len(), 12);
}

/// Build a COM_STMT_EXECUTE payload: command byte + statement_id +
/// flags + iteration_count + NULL bitmap + new-params-bound + types + values.
fn execute_payload(bitmap: &[u8], types_and_values: Vec<(u8, Vec<u8>)>) -> Vec<u8> {
    let mut p = vec![0x17]; // COM_STMT_EXECUTE
    p.extend_from_slice(&1u32.to_le_bytes()); // statement_id
    p.push(0); // flags
    p.extend_from_slice(&1u32.to_le_bytes()); // iteration_count
    p.extend_from_slice(bitmap);
    p.push(1); // new_params_bound
    for (ty, _) in &types_and_values {
        p.push(*ty);
        p.push(0); // unsigned flag
    }
    for (_, value) in &types_and_values {
        p.extend_from_slice(value);
    }
    p
}

#[test]
fn decodes_longlong_and_string_params() {
    let payload = execute_payload(
        &[0x00],
        vec![
            (MYSQL_TYPE_LONGLONG, 42i64.to_le_bytes().to_vec()),
            (MYSQL_TYPE_VAR_STRING, {
                let mut v = vec![3];
                v.extend_from_slice(b"abc");
                v
            }),
        ],
    );
    let params = parse_execute_params(&payload, 2).expect("parse");
    assert_eq!(params, vec![Cell::Int(42), Cell::Text("abc".to_string())]);
}

#[test]
fn respects_null_bitmap() {
    // Param 0 NULL (bit 0 set), param 1 = 7 (LONG).
    let payload = execute_payload(
        &[0x01],
        vec![
            (MYSQL_TYPE_NULL, vec![]),
            (MYSQL_TYPE_LONG, 7i32.to_le_bytes().to_vec()),
        ],
    );
    let params = parse_execute_params(&payload, 2).expect("parse");
    assert_eq!(params, vec![Cell::Null, Cell::Int(7)]);
}

#[test]
fn zero_params_returns_empty() {
    let payload = vec![0x17, 1, 0, 0, 0, 0, 0, 0, 0, 0];
    assert_eq!(parse_execute_params(&payload, 0).unwrap(), Vec::new());
}

#[test]
fn truncated_value_errors_not_panics() {
    // Declares a LONGLONG but provides only 3 bytes.
    let mut payload = vec![0x17];
    payload.extend_from_slice(&1u32.to_le_bytes());
    payload.push(0);
    payload.extend_from_slice(&1u32.to_le_bytes());
    payload.push(0x00); // bitmap
    payload.push(1); // new_params_bound
    payload.push(MYSQL_TYPE_LONGLONG);
    payload.push(0);
    payload.extend_from_slice(&[1, 2, 3]); // too short
    assert!(parse_execute_params(&payload, 1).is_err());
}

#[test]
fn payload_truncated_mid_type_errors_not_panics() {
    // Header + bitmap + new_params_bound + the type byte of the single
    // parameter but NOT its unsigned-flag byte which is a
    // clean error.
    let mut payload = vec![0x17];
    payload.extend_from_slice(&1u32.to_le_bytes());
    payload.push(0);
    payload.extend_from_slice(&1u32.to_le_bytes());
    payload.push(0x00); // bitmap
    payload.push(1); // new_params_bound
    payload.push(MYSQL_TYPE_LONGLONG); // type byte, but no unsigned flag after it
    assert!(parse_execute_params(&payload, 1).is_err());
}

#[test]
fn payload_missing_all_values_errors_not_panics() {
    // Types present for one non-NULL param, but zero value bytes follow.
    let mut payload = vec![0x17];
    payload.extend_from_slice(&1u32.to_le_bytes());
    payload.push(0);
    payload.extend_from_slice(&1u32.to_le_bytes());
    payload.push(0x00); // bitmap: param not NULL
    payload.push(1); // new_params_bound
    payload.push(MYSQL_TYPE_LONGLONG);
    payload.push(0); // unsigned flag — but no value bytes at all
    assert!(parse_execute_params(&payload, 1).is_err());
}
