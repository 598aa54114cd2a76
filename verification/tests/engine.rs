use std::cell::{Cell, RefCell};
use std::rc::Rc;
use std::sync::Arc;

use mysql_rust::storage::durable::checkpoint_due;
use mysql_rust::storage::log::Entry;
use mysql_rust::storage::{ColumnSchema, ColumnType, InMemoryStorage, Storage, TableSchema, Value};
use mysql_rust::Error;

/// A file that outlives the store that writes to it.
#[derive(Clone)]
struct Disk {
    bytes: Rc<RefCell<Vec<u8>>>,
}

impl Disk {
    fn new() -> Self {
        Disk { bytes: Rc::new(RefCell::new(Vec::new())) }
    }

    fn len(&self) -> u64 {
        self.bytes.borrow().len() as u64
    }
}

/// A store that logs each change to a disk before it makes it.
struct Durable {
    store: InMemoryStorage,
    disk: Disk,
    fail_next: bool,
}

impl Durable {
    fn open(disk: &Disk, threshold_bytes: u64) -> Result<Self, Error> {
        let (store, end) = InMemoryStorage::restore(&disk.bytes.borrow())?;
        disk.bytes.borrow_mut().truncate(end);
        if checkpoint_due(disk.len(), threshold_bytes) {
            *disk.bytes.borrow_mut() = store.snapshot();
        }
        Ok(Durable { store, disk: disk.clone(), fail_next: false })
    }

    fn fail_next_log_write(&mut self) {
        self.fail_next = true;
    }

    fn apply(&mut self, entry: Option<Entry>) -> Result<(), Error> {
        match entry {
            None => Ok(()),
            Some(entry) => {
                let written = if self.fail_next {
                    self.fail_next = false;
                    Err(Error::Io("the disk is full".to_string()))
                } else {
                    self.disk.bytes.borrow_mut().extend(entry.to_record());
                    Ok(())
                };
                self.store.settle(entry, written)
            }
        }
    }

    fn create_table(
        &mut self,
        name: &str,
        columns: Vec<ColumnSchema>,
        primary_key: Option<String>,
    ) -> Result<(), Error> {
        let entry = self.store.plan_create_table(name, &columns, &primary_key)?;
        self.apply(entry)
    }

    fn insert_row(&mut self, table: &str, row: Vec<Value>) -> Result<(), Error> {
        let entry = self.store.plan_insert_row(table, &row)?;
        self.apply(entry)
    }

    fn insert_rows(&mut self, rows: Vec<(String, Vec<Value>)>) -> Result<(), Error> {
        let entry = self.store.plan_insert_rows(&rows)?;
        self.apply(entry)
    }

    fn create_database(&mut self, name: &str, if_not_exists: bool) -> Result<(), Error> {
        let entry = self.store.plan_create_database(name, if_not_exists)?;
        self.apply(entry)
    }

    fn drop_database(&mut self, name: &str, if_exists: bool) -> Result<(), Error> {
        let entry = self.store.plan_drop_database(name, if_exists)?;
        self.apply(entry)
    }

    fn next_auto_increment(&mut self, table: &str) -> Result<i64, Error> {
        self.store.next_auto_increment(table)
    }

    fn tables(&self) -> Result<Vec<String>, Error> {
        self.store.tables()
    }

    fn databases(&self) -> Result<Vec<String>, Error> {
        self.store.databases()
    }

    fn scan(&self, table: &str) -> Result<Vec<Vec<Value>>, Error> {
        self.store.scan(table)
    }

    fn lookup_by_primary_key(&self, table: &str, key: &Value) -> Result<Option<Vec<Value>>, Error> {
        self.store.lookup_by_primary_key(table, key)
    }
}

fn col(name: &str, ty: ColumnType) -> ColumnSchema {
    ColumnSchema {
        name: name.to_string(),
        column_type: ty,
        nullable: true,
        auto_increment: false,
    }
}

#[test]
fn create_table_then_list_it() {
    let mut storage = InMemoryStorage::new();
    storage
        .create_table("t", vec![col("a", ColumnType::Int)], None)
        .unwrap();
    assert_eq!(storage.tables().unwrap(), vec!["t".to_string()]);
}

#[test]
fn table_schema_hands_out_shared_clones_not_deep_copies() {
    // Two calls must return the same
    // underlying allocation (an `Arc` refcount bump), not two
    // independently-heap-allocated `TableSchema`s - `Arc::ptr_eq`
    // proves that directly, rather than just checking the *contents*
    // match (which a deep clone would also satisfy).
    let mut storage = InMemoryStorage::new();
    storage
        .create_table("t", vec![col("a", ColumnType::Int)], None)
        .unwrap();

    let first = storage.table_schema("t").unwrap();
    let second = storage.table_schema("t").unwrap();
    assert!(
        Arc::ptr_eq(&first, &second),
        "table_schema() must return clones of the same Arc, not separately \
         allocated copies"
    );
    assert_eq!(
        Arc::strong_count(&first),
        3,
        "storage's own + first + second"
    );
}

#[test]
fn engine_create_table_rejects_duplicate() {
    let mut storage = InMemoryStorage::new();
    storage
        .create_table("t", vec![col("a", ColumnType::Int)], None)
        .unwrap();
    assert!(storage
        .create_table("t", vec![col("a", ColumnType::Int)], None)
        .is_err());
}

#[test]
fn create_table_rejects_primary_key_not_in_columns() {
    let mut storage = InMemoryStorage::new();
    assert!(storage
        .create_table(
            "t",
            vec![col("a", ColumnType::Int)],
            Some("bogus".to_string())
        )
        .is_err());
}

#[test]
fn insert_and_scan_round_trips() {
    let mut storage = InMemoryStorage::new();
    storage
        .create_table(
            "t",
            vec![col("a", ColumnType::Int), col("b", ColumnType::Varchar)],
            None,
        )
        .unwrap();
    storage
        .insert_row("t", vec![Value::Int(1), Value::Varchar("x".to_string())])
        .unwrap();
    storage
        .insert_row("t", vec![Value::Null, Value::Varchar("y".to_string())])
        .unwrap();

    assert_eq!(
        storage.scan("t").unwrap(),
        vec![
            vec![Value::Int(1), Value::Varchar("x".to_string())],
            vec![Value::Null, Value::Varchar("y".to_string())],
        ]
    );
}

#[test]
fn scan_filtered_returns_only_matching_rows() {
    let mut storage = InMemoryStorage::new();
    storage
        .create_table("t", vec![col("id", ColumnType::Int)], None)
        .unwrap();
    for i in 0..10 {
        storage.insert_row("t", vec![Value::Int(i)]).unwrap();
    }

    let matched = storage
        .scan_filtered(
            "t",
            |row: &[Value]| matches!(row[0], Value::Int(n) if n % 2 == 0),
        )
        .unwrap();
    assert_eq!(
        matched,
        vec![
            vec![Value::Int(0)],
            vec![Value::Int(2)],
            vec![Value::Int(4)],
            vec![Value::Int(6)],
            vec![Value::Int(8)],
        ]
    );
}

#[test]
fn scan_filtered_calls_the_filter_exactly_once_per_row_and_clones_only_matches() {
    let mut storage = InMemoryStorage::new();
    storage
        .create_table("t", vec![col("id", ColumnType::Int)], None)
        .unwrap();
    for i in 0..5 {
        storage.insert_row("t", vec![Value::Int(i)]).unwrap();
    }

    // Every row is
    // *inspected* (the filter runs once per row, same as a plain
    // scan-then-filter would), but only matching rows are ever cloned
    // into the result - proven here by counting filter invocations
    // separately from the returned row count, rather than just
    // asserting the final answer is correct (which a naive
    // scan-then-filter would also produce).
    let calls = Cell::new(0);
    let matched = storage
        .scan_filtered("t", |row: &[Value]| {
            calls.set(calls.get() + 1);
            matches!(row[0], Value::Int(n) if n == 3)
        })
        .unwrap();
    assert_eq!(calls.get(), 5, "filter must be invoked once per row in the table");
    assert_eq!(matched, vec![vec![Value::Int(3)]]);
}

#[test]
fn scan_filtered_errors_on_missing_table_not_panic() {
    let storage = InMemoryStorage::new();
    assert!(storage.scan_filtered("missing", |_: &[Value]| true).is_err());
}

#[test]
fn insert_rejects_wrong_column_count() {
    let mut storage = InMemoryStorage::new();
    storage
        .create_table("t", vec![col("a", ColumnType::Int)], None)
        .unwrap();
    assert!(storage
        .insert_row("t", vec![Value::Int(1), Value::Int(2)])
        .is_err());
}

#[test]
fn operations_on_missing_table_error_not_panic() {
    let mut storage = InMemoryStorage::new();
    assert!(storage.table_schema("missing").is_err());
    assert!(storage.insert_row("missing", vec![]).is_err());
    assert!(storage.scan("missing").is_err());
    assert!(storage
        .lookup_by_primary_key("missing", &Value::Int(1))
        .is_err());
}

#[test]
fn create_database_then_list_it() {
    let mut storage = InMemoryStorage::new();
    storage.create_database("mydb", false).unwrap();
    assert_eq!(storage.databases().unwrap(), vec!["mydb".to_string()]);
}

#[test]
fn create_database_rejects_duplicate_unless_if_not_exists() {
    let mut storage = InMemoryStorage::new();
    storage.create_database("mydb", false).unwrap();
    assert!(storage.create_database("mydb", false).is_err());
    storage.create_database("mydb", true).unwrap(); // no-op, not an error
}

#[test]
fn drop_database_removes_it_and_rejects_missing_unless_if_exists() {
    let mut storage = InMemoryStorage::new();
    storage.create_database("mydb", false).unwrap();
    storage.drop_database("mydb", false).unwrap();
    assert!(storage.databases().unwrap().is_empty());

    assert!(storage.drop_database("mydb", false).is_err());
    storage.drop_database("mydb", true).unwrap(); // no-op, not an error
}

#[test]
fn primary_key_enforces_uniqueness() {
    let mut storage = InMemoryStorage::new();
    storage
        .create_table(
            "t",
            vec![col("id", ColumnType::Int)],
            Some("id".to_string()),
        )
        .unwrap();
    storage.insert_row("t", vec![Value::Int(1)]).unwrap();
    assert!(storage.insert_row("t", vec![Value::Int(1)]).is_err());
    storage.insert_row("t", vec![Value::Int(2)]).unwrap(); // distinct key still fine
}

#[test]
fn primary_key_lookup_finds_and_misses() {
    let mut storage = InMemoryStorage::new();
    storage
        .create_table(
            "t",
            vec![col("id", ColumnType::Int), col("name", ColumnType::Varchar)],
            Some("id".to_string()),
        )
        .unwrap();
    storage
        .insert_row(
            "t",
            vec![Value::Int(1), Value::Varchar("alice".to_string())],
        )
        .unwrap();

    assert_eq!(
        storage.lookup_by_primary_key("t", &Value::Int(1)).unwrap(),
        Some(vec![Value::Int(1), Value::Varchar("alice".to_string())])
    );
    assert_eq!(
        storage.lookup_by_primary_key("t", &Value::Int(99)).unwrap(),
        None
    );
}

#[test]
fn failed_log_append_on_insert_leaves_no_trace_in_memory() {
    let disk = Disk::new();
    let mut storage = Durable::open(&disk, u64::MAX).unwrap();
    storage
        .create_table(
            "t",
            vec![col("id", ColumnType::Int)],
            Some("id".to_string()),
        )
        .unwrap();
    storage.insert_row("t", vec![Value::Int(1)]).unwrap();

    storage.fail_next_log_write();
    let result = storage.insert_row("t", vec![Value::Int(2)]);
    assert!(
        result.is_err(),
        "a failed log append must surface as an error, not succeed silently"
    );

    assert_eq!(
        storage.scan("t").unwrap(),
        vec![vec![Value::Int(1)]],
        "the row from the failed insert must never become visible - \
         log-then-apply, not apply-then-log"
    );
    assert!(
        storage
            .lookup_by_primary_key("t", &Value::Int(2))
            .unwrap()
            .is_none(),
        "a failed insert must not be reachable via the primary-key index either"
    );
    // The fault only fires once - a retry with the same value must
    // succeed cleanly, proving the failed attempt left no phantom PK
    // entry that would incorrectly reject it as a duplicate.
    storage.insert_row("t", vec![Value::Int(2)]).unwrap();
    assert_eq!(storage.scan("t").unwrap().len(), 2);
}

#[test]
fn failed_log_append_on_create_table_leaves_it_absent() {
    let disk = Disk::new();
    let mut storage = Durable::open(&disk, u64::MAX).unwrap();

    storage.fail_next_log_write();
    let result = storage
        .create_table("t", vec![col("id", ColumnType::Int)], None);
    assert!(result.is_err());
    assert!(
        storage.tables().unwrap().is_empty(),
        "a table whose CREATE TABLE failed to log must not exist in memory either"
    );

    // The fault only fires once - retrying must succeed cleanly.
    storage
        .create_table("t", vec![col("id", ColumnType::Int)], None)
        .unwrap();
    assert_eq!(storage.tables().unwrap(), vec!["t".to_string()]);
}

#[test]
fn insert_rows_rejects_a_duplicate_key_within_the_batch_and_applies_none_of_it() {
    let mut storage = InMemoryStorage::new();
    storage
        .create_table(
            "t",
            vec![col("id", ColumnType::Int), col("name", ColumnType::Varchar)],
            Some("id".to_string()),
        )
        .unwrap();

    let result = storage
        .insert_rows(vec![
            (
                "t".to_string(),
                vec![Value::Int(1), Value::Varchar("alice".to_string())],
            ),
            (
                "t".to_string(),
                vec![Value::Int(2), Value::Varchar("bob".to_string())],
            ),
            (
                "t".to_string(),
                vec![Value::Int(1), Value::Varchar("carol".to_string())],
            ),
        ]);
    assert!(result.is_err());
    assert!(
        storage.scan("t").unwrap().is_empty(),
        "rows 1 and 2 (individually fine) must not survive a batch rejected for row 3's \
         duplicate key - one batch, one outcome"
    );
}

#[test]
fn insert_rows_rejects_a_row_that_collides_with_already_committed_data() {
    let mut storage = InMemoryStorage::new();
    storage
        .create_table(
            "t",
            vec![col("id", ColumnType::Int)],
            Some("id".to_string()),
        )
        .unwrap();
    storage.insert_row("t", vec![Value::Int(1)]).unwrap();

    let result = storage
        .insert_rows(vec![
            ("t".to_string(), vec![Value::Int(2)]),
            ("t".to_string(), vec![Value::Int(1)]), // collides with the already-committed row
        ]);
    assert!(result.is_err());
    assert_eq!(
        storage.scan("t").unwrap(),
        vec![vec![Value::Int(1)]],
        "the batch's own row 2 must not have applied either"
    );
}

#[test]
fn failed_log_append_on_insert_rows_leaves_no_trace_of_the_whole_batch() {
    let disk = Disk::new();
    let mut storage = Durable::open(&disk, u64::MAX).unwrap();
    storage
        .create_table(
            "t",
            vec![col("id", ColumnType::Int)],
            Some("id".to_string()),
        )
        .unwrap();

    storage.fail_next_log_write();
    let result = storage
        .insert_rows(vec![
            ("t".to_string(), vec![Value::Int(1)]),
            ("t".to_string(), vec![Value::Int(2)]),
            ("t".to_string(), vec![Value::Int(3)]),
        ]);
    assert!(result.is_err());
    assert!(
        storage.scan("t").unwrap().is_empty(),
        "none of the batch's rows must be visible when the log append for the \
         whole batch fails"
    );

    // The fault only fires once - retrying the same batch must
    // succeed cleanly, proving nothing was left half-applied.
    storage
        .insert_rows(vec![
            ("t".to_string(), vec![Value::Int(1)]),
            ("t".to_string(), vec![Value::Int(2)]),
            ("t".to_string(), vec![Value::Int(3)]),
        ])
        .unwrap();
    assert_eq!(storage.scan("t").unwrap().len(), 3);
}

#[test]
fn data_survives_reopening_the_same_path() {
    let disk = Disk::new();

    {
        let mut storage = Durable::open(&disk, u64::MAX).unwrap();
        storage
            .create_table(
                "t",
                vec![col("id", ColumnType::Int), col("name", ColumnType::Varchar)],
                Some("id".to_string()),
            )
            .unwrap();
        storage
            .insert_row(
                "t",
                vec![Value::Int(1), Value::Varchar("alice".to_string())],
            )
            .unwrap();
        storage
            .insert_row("t", vec![Value::Int(2), Value::Varchar("bob".to_string())])
            .unwrap();
    } // `storage` is dropped here, as in a restart.

    let reopened = Durable::open(&disk, u64::MAX).unwrap();
    assert_eq!(reopened.tables().unwrap(), vec!["t".to_string()]);
    assert_eq!(
        reopened.scan("t").unwrap(),
        vec![
            vec![Value::Int(1), Value::Varchar("alice".to_string())],
            vec![Value::Int(2), Value::Varchar("bob".to_string())],
        ]
    );
    // The primary-key index is correctly rebuilt from the replayed rows.
    assert_eq!(
        reopened.lookup_by_primary_key("t", &Value::Int(2)).unwrap(),
        Some(vec![Value::Int(2), Value::Varchar("bob".to_string())])
    );
}

#[test]
fn checkpoint_below_threshold_leaves_the_log_untouched() {
    let disk = Disk::new();

    {
        let mut storage = Durable::open(&disk, u64::MAX).unwrap();
        storage
            .create_table(
                "t",
                vec![col("id", ColumnType::Int)],
                Some("id".to_string()),
            )
            .unwrap();
        storage.insert_row("t", vec![Value::Int(1)]).unwrap();
    }
    let len_before = disk.len();

    // A huge threshold never triggers - the file must be exactly the
    // same size it was before this second open (still the original
    // create+insert history, not rewritten).
    let _storage = Durable::open(&disk, u64::MAX).unwrap();
    assert_eq!(disk.len(), len_before);
}

#[test]
fn checkpoint_above_threshold_compacts_the_log_and_preserves_every_row() {
    let disk = Disk::new();
    let rows: i64 = 200;

    {
        let mut storage = Durable::open(&disk, u64::MAX).unwrap();
        storage
            .create_table(
                "t",
                vec![col("id", ColumnType::Int), col("name", ColumnType::Varchar)],
                Some("id".to_string()),
            )
            .unwrap();
        for i in 0..rows {
            storage
                .insert_row("t", vec![Value::Int(i), Value::Varchar(format!("row{i}"))])
                .unwrap();
        }
    }
    let len_before_checkpoint = disk.len();

    // threshold=0 always triggers, regardless of the file's actual size
    // (a real file's length is never negative, so "at least 0 bytes" is
    // unconditionally true) - a deterministic way to force a
    // checkpoint in a test without needing to actually cross a
    // realistic production-sized threshold.
    let mut storage = Durable::open(&disk, 0).unwrap();
    let len_after_checkpoint = disk.len();

    assert_eq!(
        storage.scan("t").unwrap().len(),
        rows as usize,
        "every row must survive the compaction"
    );
    assert!(
        len_after_checkpoint < len_before_checkpoint,
        "compacted log ({len_after_checkpoint} bytes) should be smaller than \
         {rows} individual insert records ({len_before_checkpoint} bytes)"
    );

    // The compacted file left behind must itself still be a valid,
    // replayable log - reopening again (with a threshold that won't
    // re-trigger) must reproduce the exact same data.
    drop(storage);
    let reopened = Durable::open(&disk, u64::MAX).unwrap();
    assert_eq!(reopened.scan("t").unwrap().len(), rows as usize);
    assert_eq!(
        reopened
            .lookup_by_primary_key("t", &Value::Int(42))
            .unwrap(),
        Some(vec![Value::Int(42), Value::Varchar("row42".to_string())])
    );
}

#[test]
fn checkpoint_preserves_data_across_multiple_tables_and_auto_increment() {
    let disk = Disk::new();

    {
        let mut storage = Durable::open(&disk, u64::MAX).unwrap();
        storage
            .create_table("t", vec![auto_increment_col("id")], Some("id".to_string()))
            .unwrap();
        storage
            .create_table(
                "u",
                vec![col("id", ColumnType::Int), col("name", ColumnType::Varchar)],
                Some("id".to_string()),
            )
            .unwrap();
        for i in 1..=5 {
            storage.insert_row("t", vec![Value::Int(i)]).unwrap();
        }
        storage
            .insert_row(
                "u",
                vec![Value::Int(100), Value::Varchar("alice".to_string())],
            )
            .unwrap();
    }

    // Force a checkpoint, then restart once more on top of it.
    {
        let mut storage = Durable::open(&disk, 0).unwrap();
        assert_eq!(storage.scan("t").unwrap().len(), 5);
        assert_eq!(storage.scan("u").unwrap().len(), 1);
    }

    let mut reopened = Durable::open(&disk, u64::MAX).unwrap();
    assert_eq!(reopened.scan("t").unwrap().len(), 5);
    assert_eq!(reopened.scan("u").unwrap().len(), 1);
    // AUTO_INCREMENT must still continue from the largest value actually
    // present, exactly as if the checkpoint had never happened.
    assert_eq!(reopened.next_auto_increment("t").unwrap(), 6);
}

#[test]
fn database_names_survive_reopening() {
    let disk = Disk::new();

    {
        let mut storage = Durable::open(&disk, u64::MAX).unwrap();
        storage.create_database("shop", false).unwrap();
        storage.create_database("shop_alt", false).unwrap();
        storage.drop_database("shop_alt", false).unwrap();
    }

    let reopened = Durable::open(&disk, u64::MAX).unwrap();
    assert_eq!(reopened.databases().unwrap(), vec!["shop".to_string()]);
}

#[test]
fn database_names_survive_checkpoint_compaction() {
    let disk = Disk::new();

    {
        let mut storage = Durable::open(&disk, u64::MAX).unwrap();
        storage.create_database("shop", false).unwrap();
        storage.create_database("shop_alt", false).unwrap();
        storage.drop_database("shop_alt", false).unwrap();
    }

    // A threshold of 0 always triggers, so the log is compacted, which must
    // write a record for every name still registered.
    {
        let mut storage = Durable::open(&disk, 0).unwrap();
        assert_eq!(storage.databases().unwrap(), vec!["shop".to_string()]);
    }

    let reopened = Durable::open(&disk, u64::MAX).unwrap();
    assert_eq!(reopened.databases().unwrap(), vec!["shop".to_string()]);
}

#[test]
fn decimal_and_date_columns_survive_reopening() {
    let disk = Disk::new();

    {
        let mut storage = Durable::open(&disk, u64::MAX).unwrap();
        storage
            .create_table(
                "orders",
                vec![
                    ColumnSchema {
                        name: "total".to_string(),
                        column_type: ColumnType::Decimal(2),
                        nullable: true,
                        auto_increment: false,
                    },
                    ColumnSchema {
                        name: "placed_on".to_string(),
                        column_type: ColumnType::Date,
                        nullable: true,
                        auto_increment: false,
                    },
                ],
                None,
            )
            .unwrap();
        storage
            .insert_row(
                "orders",
                vec![
                    Value::Decimal(4999, 2),
                    Value::Date("2024-06-01".to_string()),
                ],
            )
            .unwrap();
    } // dropped here, as in a restart.

    let reopened = Durable::open(&disk, u64::MAX).unwrap();
    assert_eq!(
        reopened.scan("orders").unwrap(),
        vec![vec![
            Value::Decimal(4999, 2),
            Value::Date("2024-06-01".to_string()),
        ]]
    );
}

#[test]
fn reopening_still_enforces_primary_key_uniqueness() {
    let disk = Disk::new();

    {
        let mut storage = Durable::open(&disk, u64::MAX).unwrap();
        storage
            .create_table(
                "t",
                vec![col("id", ColumnType::Int)],
                Some("id".to_string()),
            )
            .unwrap();
        storage.insert_row("t", vec![Value::Int(1)]).unwrap();
    }

    let mut reopened = Durable::open(&disk, u64::MAX).unwrap();
    assert!(reopened.insert_row("t", vec![Value::Int(1)]).is_err());
}

fn auto_increment_col(name: &str) -> ColumnSchema {
    ColumnSchema {
        name: name.to_string(),
        column_type: ColumnType::Int,
        nullable: false,
        auto_increment: true,
    }
}

#[test]
fn next_auto_increment_returns_sequential_values() {
    let mut storage = InMemoryStorage::new();
    storage
        .create_table("t", vec![auto_increment_col("id")], Some("id".to_string()))
        .unwrap();
    assert_eq!(storage.next_auto_increment("t").unwrap(), 1);
    assert_eq!(storage.next_auto_increment("t").unwrap(), 2);
    assert_eq!(storage.next_auto_increment("t").unwrap(), 3);
}

#[test]
fn next_auto_increment_errors_on_missing_table_or_no_such_column() {
    let mut storage = InMemoryStorage::new();
    assert!(storage.next_auto_increment("missing").is_err());

    storage
        .create_table("t", vec![col("a", ColumnType::Int)], None)
        .unwrap();
    assert!(
        storage.next_auto_increment("t").is_err(),
        "table has no AUTO_INCREMENT column"
    );
}

#[test]
fn inserting_an_explicit_value_advances_the_auto_increment_counter() {
    let mut storage = InMemoryStorage::new();
    storage
        .create_table("t", vec![auto_increment_col("id")], Some("id".to_string()))
        .unwrap();
    storage.insert_row("t", vec![Value::Int(41)]).unwrap();
    // The counter must jump past the manually-inserted value, not
    // collide with it.
    assert_eq!(storage.next_auto_increment("t").unwrap(), 42);
}

#[test]
fn auto_increment_sequence_continues_correctly_after_reopening() {
    let disk = Disk::new();

    {
        let mut storage = Durable::open(&disk, u64::MAX).unwrap();
        storage
            .create_table("t", vec![auto_increment_col("id")], Some("id".to_string()))
            .unwrap();
        storage.insert_row("t", vec![Value::Int(1)]).unwrap();
        storage.insert_row("t", vec![Value::Int(2)]).unwrap();
    }

    // Reopening must replay the rows and pick the counter up from the
    // largest value actually present, not restart it from 1 — otherwise
    // a fresh auto-assigned insert would collide with an existing row.
    let mut reopened = Durable::open(&disk, u64::MAX).unwrap();
    assert_eq!(reopened.next_auto_increment("t").unwrap(), 3);
}