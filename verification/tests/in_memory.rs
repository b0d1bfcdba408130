use simpledb::SimpleDB;
use simpledb::TransactionError;
use simpledb::in_memory::InMemoryDB;

fn s(text: &str) -> String {
    String::from(text)
}

fn assert_set(db: &mut InMemoryDB, key: String, value: u32) {
    assert_eq!(db.get(key), Some(value));
}

fn assert_unset(db: &mut InMemoryDB, key: String) {
    assert_eq!(db.get(key), None);
}

fn assert_tx_error(result: Result<(), TransactionError>) {
    assert_eq!(
        result.expect_err("expecting transaction error"),
        TransactionError::NoTransactionsInProgress
    );
}

fn assert_no_tx_error(result: Result<(), TransactionError>) {
    result.expect("expecting no transaction error");
}

#[test]
fn in_memory_set_values_are_gettable() {
    let mut db = InMemoryDB::new();

    db.set(s("foo"), 10);
    assert_set(&mut db, s("foo"), 10);
}

#[test]
fn in_memory_unset_values_return_none() {
    let mut db = InMemoryDB::new();

    assert_unset(&mut db, s("foo"));
}

#[test]
fn in_memory_values_can_be_unset() {
    let mut db = InMemoryDB::new();

    db.set(s("foo"), 10);
    assert_set(&mut db, s("foo"), 10);

    db.unset(s("foo"));
    assert_unset(&mut db, s("foo"));
}

#[test]
fn in_memory_rollback_reverts_only_current_transaction() {
    let mut db = InMemoryDB::new();

    db.begin_transaction();
    db.set(s("foo"), 10);
    assert_set(&mut db, s("foo"), 10);

    db.begin_transaction();
    db.set(s("foo"), 20);
    assert_set(&mut db, s("foo"), 20);

    let _ = db.rollback();
    assert_set(&mut db, s("foo"), 10);

    let _ = db.rollback();
    assert_unset(&mut db, s("foo"));
}

#[test]
fn in_memory_commit_commits_all_transactions() {
    let mut db = InMemoryDB::new();

    db.begin_transaction();
    db.set(s("foo"), 10);

    db.begin_transaction();
    db.set(s("foo"), 20);

    db.commit().unwrap();
    assert_set(&mut db, s("foo"), 20);

    assert_tx_error(db.rollback());
}

#[test]
fn in_memory_commit_errors_if_no_transactions() {
    let mut db = InMemoryDB::new();
    assert_tx_error(db.commit());
}

#[test]
fn in_memory_interleave_keys() {
    let mut db = InMemoryDB::new();

    db.set(s("foo"), 10);
    db.set(s("bar"), 10);
    assert_set(&mut db, s("foo"), 10);
    assert_set(&mut db, s("bar"), 10);

    db.begin_transaction();
    db.set(s("foo"), 20);
    assert_set(&mut db, s("foo"), 20);
    assert_set(&mut db, s("bar"), 10);

    db.begin_transaction();
    db.set(s("bar"), 30);
    assert_set(&mut db, s("foo"), 20);
    assert_set(&mut db, s("bar"), 30);

    assert_no_tx_error(db.rollback());
    assert_set(&mut db, s("foo"), 20);
    assert_set(&mut db, s("bar"), 10);

    assert_no_tx_error(db.rollback());
    assert_set(&mut db, s("foo"), 10);
    assert_set(&mut db, s("bar"), 10);
}

#[test]
fn in_memory_rollback_unset() {
    let mut db = InMemoryDB::new();

    db.set(s("foo"), 10);
    assert_set(&mut db, s("foo"), 10);

    db.begin_transaction();
    assert_set(&mut db, s("foo"), 10);

    db.set(s("foo"), 20);
    assert_set(&mut db, s("foo"), 20);

    db.begin_transaction();
    db.unset(s("foo"));
    assert_unset(&mut db, s("foo"));

    assert_no_tx_error(db.rollback());
    assert_set(&mut db, s("foo"), 20);

    assert_no_tx_error(db.commit());
    assert_set(&mut db, s("foo"), 20);
}

#[test]
fn in_memory_commit_unset() {
    let mut db = InMemoryDB::new();

    db.set(s("foo"), 10);
    assert_set(&mut db, s("foo"), 10);

    db.begin_transaction();
    db.unset(s("foo"));
    assert_unset(&mut db, s("foo"));

    assert_no_tx_error(db.commit());
    assert_unset(&mut db, s("foo"));

    db.begin_transaction();
    assert_unset(&mut db, s("foo"));

    db.set(s("foo"), 20);
    assert_set(&mut db, s("foo"), 20);

    assert_no_tx_error(db.commit());
    assert_set(&mut db, s("foo"), 20);
}

#[test]
fn get_value_from_before_commit() {
    let mut db = InMemoryDB::new();
    db.begin_transaction();
    db.set(s("foo"), 10);
    db.begin_transaction();
    db.set(s("bar"), 10);
    assert_no_tx_error(db.commit());
    assert_set(&mut db, s("foo"), 10);
}
