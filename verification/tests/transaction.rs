use mysql_rust::storage::{ColumnSchema, ColumnType, InMemoryStorage, Storage, Transaction, Value};

fn setup() -> InMemoryStorage {
    let mut storage = InMemoryStorage::new();
    storage
        .create_table(
            "t",
            vec![
                ColumnSchema {
                    name: "id".to_string(),
                    column_type: ColumnType::Int,
                    nullable: false,
                    auto_increment: false,
                },
                ColumnSchema {
                    name: "name".to_string(),
                    column_type: ColumnType::Varchar,
                    nullable: true,
                    auto_increment: false,
                },
            ],
            Some("id".to_string()),
        )
        .unwrap();
    storage
}

fn ensure_locked(tx: &mut Transaction<InMemoryStorage>, table: &str) {
    if tx.needs_lock(table) {
        tx.note_locked(table);
    }
    assert!(!tx.needs_lock(table));
}

#[test]
fn transaction_sees_its_own_pending_writes() {
    let mut tx = Transaction::new(setup());
    ensure_locked(&mut tx, "t");
    tx.insert_row(
        "t",
        vec![Value::Int(1), Value::Varchar("alice".to_string())],
    )
    .unwrap();

    assert_eq!(
        tx.scan("t").unwrap().len(),
        1,
        "the transaction should see its own uncommitted row"
    );
}

#[test]
fn other_readers_do_not_see_pending_writes() {
    let mut tx = Transaction::new(setup());
    ensure_locked(&mut tx, "t");
    tx.insert_row(
        "t",
        vec![Value::Int(1), Value::Varchar("alice".to_string())],
    )
    .unwrap();

    // Reading straight from the store, as any other connection would: nothing
    // is visible until commit.
    assert!(tx.storage().scan("t").unwrap().is_empty());
}

#[test]
fn commit_applies_pending_rows_to_storage() {
    let mut tx = Transaction::new(setup());
    ensure_locked(&mut tx, "t");
    tx.insert_row(
        "t",
        vec![Value::Int(1), Value::Varchar("alice".to_string())],
    )
    .unwrap();

    let (outcome, storage) = tx.commit();
    outcome.unwrap();

    assert_eq!(
        storage.scan("t").unwrap(),
        vec![vec![Value::Int(1), Value::Varchar("alice".to_string())]]
    );
}

#[test]
fn commit_applies_rows_across_multiple_tables_as_one_atomic_batch() {
    let mut storage = setup();
    storage
        .create_table(
            "u",
            vec![ColumnSchema {
                name: "id".to_string(),
                column_type: ColumnType::Int,
                nullable: false,
                auto_increment: false,
            }],
            Some("id".to_string()),
        )
        .unwrap();

    let mut tx = Transaction::new(storage);
    ensure_locked(&mut tx, "t");
    ensure_locked(&mut tx, "u");
    tx.insert_row(
        "t",
        vec![Value::Int(1), Value::Varchar("alice".to_string())],
    )
    .unwrap();
    tx.insert_row("u", vec![Value::Int(100)]).unwrap();
    tx.insert_row("u", vec![Value::Int(101)]).unwrap();

    let (outcome, storage) = tx.commit();
    outcome.unwrap();

    assert_eq!(
        storage.scan("t").unwrap(),
        vec![vec![Value::Int(1), Value::Varchar("alice".to_string())]]
    );
    assert_eq!(
        storage.scan("u").unwrap(),
        vec![vec![Value::Int(100)], vec![Value::Int(101)]]
    );
}

#[test]
fn rollback_discards_pending_rows() {
    let mut tx = Transaction::new(setup());
    ensure_locked(&mut tx, "t");
    tx.insert_row(
        "t",
        vec![Value::Int(1), Value::Varchar("alice".to_string())],
    )
    .unwrap();

    let storage = tx.rollback();

    assert!(
        storage.scan("t").unwrap().is_empty(),
        "rollback must leave storage untouched"
    );
}

#[test]
fn duplicate_primary_key_within_the_same_transaction_is_rejected() {
    let mut tx = Transaction::new(setup());
    ensure_locked(&mut tx, "t");
    tx.insert_row(
        "t",
        vec![Value::Int(1), Value::Varchar("alice".to_string())],
    )
    .unwrap();
    assert!(tx
        .insert_row("t", vec![Value::Int(1), Value::Varchar("bob".to_string())])
        .is_err());
}

#[test]
fn duplicate_primary_key_against_already_committed_data_is_rejected() {
    let mut storage = setup();
    storage
        .insert_row(
            "t",
            vec![Value::Int(1), Value::Varchar("alice".to_string())],
        )
        .unwrap();

    let mut tx = Transaction::new(storage);
    ensure_locked(&mut tx, "t");
    assert!(tx
        .insert_row("t", vec![Value::Int(1), Value::Varchar("bob".to_string())])
        .is_err());
}

#[test]
fn ensure_locked_is_idempotent_within_one_transaction() {
    // Several INSERTs into the same table ask for its lock each time; only the
    // first has to acquire it.
    let mut tx = Transaction::new(setup());
    ensure_locked(&mut tx, "t");
    ensure_locked(&mut tx, "t");
    tx.insert_row(
        "t",
        vec![Value::Int(1), Value::Varchar("alice".to_string())],
    )
    .unwrap();
    tx.insert_row("t", vec![Value::Int(2), Value::Varchar("bob".to_string())])
        .unwrap();
    assert_eq!(tx.scan("t").unwrap().len(), 2);
}

#[test]
fn lookup_by_primary_key_checks_pending_too() {
    let mut tx = Transaction::new(setup());
    ensure_locked(&mut tx, "t");
    tx.insert_row(
        "t",
        vec![Value::Int(1), Value::Varchar("alice".to_string())],
    )
    .unwrap();

    assert_eq!(
        tx.lookup_by_primary_key("t", &Value::Int(1)).unwrap(),
        Some(vec![Value::Int(1), Value::Varchar("alice".to_string())])
    );
    assert_eq!(
        tx.lookup_by_primary_key("t", &Value::Int(99)).unwrap(),
        None
    );
}

#[test]
fn a_suspended_transaction_keeps_its_rows_and_sees_later_commits() {
    let mut storage = setup();
    storage
        .create_table(
            "u",
            vec![ColumnSchema {
                name: "id".to_string(),
                column_type: ColumnType::Int,
                nullable: false,
                auto_increment: false,
            }],
            None,
        )
        .unwrap();
    let mut tx = Transaction::new(storage);
    ensure_locked(&mut tx, "t");
    tx.insert_row("t", vec![Value::Int(1), Value::Null]).unwrap();

    let (mut storage, aside) = tx.suspend();
    assert!(storage.scan("t").unwrap().is_empty());
    storage.insert_row("u", vec![Value::Int(7)]).unwrap();

    let tx = Transaction::resume(storage, aside);
    assert!(!tx.needs_lock("t"));
    assert_eq!(tx.scan("t").unwrap(), vec![vec![Value::Int(1), Value::Null]]);
    assert_eq!(tx.scan("u").unwrap(), vec![vec![Value::Int(7)]]);
    let (outcome, storage) = tx.commit();
    outcome.unwrap();
    assert_eq!(storage.scan("t").unwrap().len(), 1);
}
