use mysql_rust::storage::log::{
    crc32, encode_create_table, encode_insert_row, frame_record, replay, Entry,
};
use mysql_rust::storage::stream::Replay;
use mysql_rust::storage::{ColumnSchema, ColumnType, InMemoryStorage, Storage, Value};
use mysql_rust::Error;

/// A log in memory.
struct Log {
    file: Vec<u8>,
}

impl Log {
    fn new() -> Self {
        Log { file: Vec::new() }
    }

    fn len(&self) -> usize {
        self.file.len()
    }

    fn append_create_table(&mut self, table: &str, columns: &[ColumnSchema], key: Option<&str>) {
        self.file.extend(frame_record(&encode_create_table(table, columns, key)));
    }

    fn append_insert_row(&mut self, table: &str, row: &[Value]) {
        self.file.extend(frame_record(&encode_insert_row(table, row)));
    }

    /// Read the log as it is at startup: what is behind the last good record
    /// is cut off.
    fn open(file: &[u8]) -> Result<(Vec<Entry>, Log), Error> {
        let (entries, end) = replay(file)?;
        Ok((entries, Log { file: file[..end].to_vec() }))
    }
}

fn column(name: &str, column_type: ColumnType, nullable: bool) -> ColumnSchema {
    ColumnSchema {
        name: name.to_string(),
        column_type,
        nullable,
        auto_increment: false,
    }
}

#[test]
fn round_trips_create_table_and_insert_entries() {
    let mut log = Log::new();
    log.append_create_table(
        "t",
        &[
            column("a", ColumnType::Int, false),
            column("b", ColumnType::Varchar, true),
        ],
        Some("a"),
    );
    log.append_insert_row("t", &[Value::Int(1), Value::Varchar("x".to_string())]);
    log.append_insert_row("t", &[Value::Null, Value::Varchar("y".to_string())]);

    let (replayed, _) = Log::open(&log.file).unwrap();

    assert_eq!(replayed.len(), 3);
    match &replayed[0] {
        Entry::CreateTable {
            table,
            columns,
            primary_key,
        } => {
            assert_eq!(table, "t");
            assert_eq!(columns.len(), 2);
            assert_eq!(primary_key.as_deref(), Some("a"));
        }
        _ => panic!("expected CreateTable"),
    }
    match &replayed[1] {
        Entry::InsertRow { table, row } => {
            assert_eq!(table, "t");
            assert_eq!(row, &vec![Value::Int(1), Value::Varchar("x".to_string())]);
        }
        _ => panic!("expected InsertRow"),
    }
    match &replayed[2] {
        Entry::InsertRow { row, .. } => assert_eq!(row[0], Value::Null),
        _ => panic!("expected InsertRow"),
    }
}

#[test]
fn round_trips_decimal_and_date_columns_and_values() {
    let mut log = Log::new();
    log.append_create_table(
        "t",
        &[
            column("price", ColumnType::Decimal(2), true),
            column("d", ColumnType::Date, true),
        ],
        None,
    );
    log.append_insert_row(
        "t",
        &[
            Value::Decimal(1999, 2),
            Value::Date("2024-01-15".to_string()),
        ],
    );
    log.append_insert_row("t", &[Value::Decimal(-500, 2), Value::Null]);

    let (replayed, _) = Log::open(&log.file).unwrap();

    match &replayed[0] {
        Entry::CreateTable { columns, .. } => {
            assert_eq!(columns[0].column_type, ColumnType::Decimal(2));
            assert_eq!(columns[1].column_type, ColumnType::Date);
        }
        _ => panic!("expected CreateTable"),
    }
    match &replayed[1] {
        Entry::InsertRow { row, .. } => {
            assert_eq!(
                row,
                &vec![
                    Value::Decimal(1999, 2),
                    Value::Date("2024-01-15".to_string())
                ]
            );
        }
        _ => panic!("expected InsertRow"),
    }
    match &replayed[2] {
        Entry::InsertRow { row, .. } => {
            assert_eq!(row, &vec![Value::Decimal(-500, 2), Value::Null]);
        }
        _ => panic!("expected InsertRow"),
    }
}

/// Many records are read back in order.
#[test]
fn streaming_replay_handles_many_records_in_order() {
    let n: i64 = 5_000;
    let mut log = Log::new();
    log.append_create_table("t", &[column("id", ColumnType::Int, false)], Some("id"));
    for i in 0..n {
        log.append_insert_row("t", &[Value::Int(i)]);
    }

    let mut replayed_ids = Vec::with_capacity(n as usize);
    let (replayed, _) = Log::open(&log.file).unwrap();
    for entry in replayed {
        if let Entry::InsertRow { row, .. } = entry {
            if let Value::Int(id) = row[0] {
                replayed_ids.push(id);
            }
        }
    }

    assert_eq!(replayed_ids.len(), n as usize);
    assert_eq!(replayed_ids, (0..n).collect::<Vec<_>>());
}

#[test]
fn recovers_from_a_torn_trailing_record_by_truncating_it_away() {
    let mut log = Log::new();
    log.append_insert_row("t", &[Value::Int(1)]);
    let good_len = log.len();
    log.append_insert_row("t", &[Value::Int(2)]);
    let full_len = log.len();

    for truncate_at in good_len..full_len {
        let (replayed, recovered) = Log::open(&log.file[..truncate_at]).unwrap_or_else(|e| {
            panic!(
                "truncating the trailing record at byte {truncate_at} of {full_len} \
                 should recover, not error: {e:?}"
            )
        });
        assert_eq!(
            replayed.len(),
            1,
            "only the fully-written first record should replay (truncated at {truncate_at})"
        );
        // The garbage tail is cut off, so that a later append leaves no gap of
        // orphaned bytes before it.
        assert_eq!(recovered.len(), good_len);
    }
}

#[test]
fn a_file_too_short_for_even_one_record_header_recovers_as_empty() {
    // Not even a full 8-byte [len][crc] header: what a crash right after the
    // very first write looks like.
    let (replayed, recovered) =
        Log::open(&[5, 0, 0, 0, 1, 2, 3]).expect("a torn header should recover, not error");
    assert_eq!(replayed.len(), 0);
    assert_eq!(recovered.len(), 0, "the garbage should be truncated away");
}

#[test]
fn mid_file_checksum_mismatch_with_valid_data_after_it_is_refused() {
    let mut log = Log::new();
    log.append_insert_row("t", &[Value::Int(1)]); // record A
    let before_record_b = log.len();
    log.append_insert_row("t", &[Value::Int(2)]); // record B, corrupted below
    log.append_insert_row("t", &[Value::Int(3)]); // record C, still valid behind it

    let mut bytes = log.file.clone();
    // Flip a byte right after record B's 8-byte header (its payload's first
    // byte). Record C is still intact behind it, which makes this damage in
    // the middle of the file and no torn tail.
    bytes[before_record_b + 8] ^= 0xFF;

    assert!(
        Log::open(&bytes).is_err(),
        "checksum-failed corruption with valid data still following it must be refused"
    );
}

#[test]
fn crc32_matches_the_standard_check_value() {
    // The canonical CRC-32 (IEEE 802.3) test vector.
    assert_eq!(crc32(b"123456789"), 0xCBF4_3926);
}

#[test]
fn crc32_of_empty_input_is_zero() {
    assert_eq!(crc32(b""), 0);
}

#[test]
fn crc32_detects_a_single_flipped_bit() {
    let original = crc32(b"mysql-rust");
    let mut corrupted = *b"mysql-rust";
    corrupted[3] ^= 0x01;
    assert_ne!(original, crc32(&corrupted));
}

/// Replay a log piece by piece, as it would come off a disk.
fn stream(file: &[u8]) -> Result<(InMemoryStorage, u64), Error> {
    let mut replay = Replay::new(file.len() as u64);
    let mut at = 0;
    while replay.wants_header() {
        let header = &file[at..at + 8];
        at += 8;
        if let Some((len, crc)) = replay.header(header) {
            let payload = &file[at..at + len as usize];
            at += len as usize;
            replay.payload(len, crc, payload)?;
        }
    }
    Ok(replay.finish())
}

#[test]
fn a_streamed_log_gives_the_same_store_as_a_whole_one() {
    let mut log = Log::new();
    log.append_create_table("t", &[column("id", ColumnType::Int, false)], Some("id"));
    log.append_insert_row("t", &[Value::Int(1)]);
    let good = log.len();
    log.append_insert_row("t", &[Value::Int(2)]);

    for cut in good..=log.len() {
        let file = &log.file[..cut];
        let (whole, whole_end) = InMemoryStorage::restore(file).unwrap();
        let (streamed, streamed_end) = stream(file).unwrap();
        assert_eq!(whole_end as u64, streamed_end);
        assert_eq!(whole.scan("t").unwrap(), streamed.scan("t").unwrap());
        let rows = if cut == log.len() { 2 } else { 1 };
        assert_eq!(streamed.scan("t").unwrap().len(), rows);
    }

    // The last record's checksum is wrong: a torn tail. The first one's: damage.
    let mut torn = log.file.clone();
    torn[good + 8] ^= 1;
    assert_eq!(stream(&torn).unwrap().1, good as u64);
    let mut damaged = log.file.clone();
    damaged[8] ^= 1;
    assert!(stream(&damaged).is_err());
    assert_eq!(stream(&[]).unwrap().1, 0);
}
