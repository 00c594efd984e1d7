use simple_db::{InMemoryDB, SimpleDB};

const NO_TRANSACTIONS: &str = "No transactions in progress";

#[test]
fn fresh_store_reads_absent() {
    let db = InMemoryDB::new();
    assert_eq!(db.get(String::from("a")), None);
    assert_eq!(db.get(String::from("")), None);
}

#[test]
fn last_write_wins_without_transaction() {
    let mut db = InMemoryDB::new();
    db.set(String::from("a"), 1);
    db.set(String::from("b"), 2);
    db.set(String::from("a"), 3);
    assert_eq!(db.get(String::from("a")), Some(&3));
    assert_eq!(db.get(String::from("b")), Some(&2));
    db.unset(String::from("a"));
    assert_eq!(db.get(String::from("a")), None);
    assert_eq!(db.get(String::from("b")), Some(&2));
    db.set(String::from("a"), 4);
    assert_eq!(db.get(String::from("a")), Some(&4));
}

#[test]
fn unset_of_absent_key_is_a_no_op() {
    let mut db = InMemoryDB::new();
    db.set(String::from("a"), 1);
    db.unset(String::from("missing"));
    assert_eq!(db.get(String::from("a")), Some(&1));
    assert_eq!(db.get(String::from("missing")), None);
}

#[test]
fn begin_then_rollback_is_a_no_op() {
    let mut db = InMemoryDB::new();
    db.set(String::from("a"), 5);
    db.set(String::from("b"), 6);
    db.begin_transaction();
    assert_eq!(db.rollback(), Ok(()));
    assert_eq!(db.get(String::from("a")), Some(&5));
    assert_eq!(db.get(String::from("b")), Some(&6));
    assert_eq!(db.rollback(), Err(String::from(NO_TRANSACTIONS)));
}

#[test]
fn nested_rollback_restores_inner_state() {
    let mut db = InMemoryDB::new();
    db.begin_transaction();
    db.set(String::from("k"), 1);
    db.begin_transaction();
    db.set(String::from("k"), 2);
    assert_eq!(db.rollback(), Ok(()));
    assert_eq!(db.get(String::from("k")), Some(&1));
}

#[test]
fn commit_collapses_all_levels() {
    let mut db = InMemoryDB::new();
    db.begin_transaction();
    db.set(String::from("k"), 1);
    db.begin_transaction();
    db.set(String::from("k"), 2);
    assert_eq!(db.commit(), Ok(()));
    assert_eq!(db.get(String::from("k")), Some(&2));
    assert_eq!(db.rollback(), Err(String::from(NO_TRANSACTIONS)));
}

#[test]
fn rollback_and_commit_fail_on_fresh_store() {
    let mut db = InMemoryDB::new();
    assert_eq!(db.rollback(), Err(String::from(NO_TRANSACTIONS)));
    assert_eq!(db.commit(), Err(String::from(NO_TRANSACTIONS)));
    assert_eq!(db.get(String::from("a")), None);
}

#[test]
fn rollback_restores_key_unset_inside_transaction() {
    let mut db = InMemoryDB::new();
    db.set(String::from("k"), 1);
    db.begin_transaction();
    db.unset(String::from("k"));
    assert_eq!(db.get(String::from("k")), None);
    assert_eq!(db.rollback(), Ok(()));
    assert_eq!(db.get(String::from("k")), Some(&1));
}

#[test]
fn end_to_end_example() {
    let mut db = InMemoryDB::new();
    db.set(String::from("a"), 10);
    db.begin_transaction();
    db.set(String::from("a"), 20);
    db.unset(String::from("a"));
    assert_eq!(db.get(String::from("a")), None);
    assert_eq!(db.rollback(), Ok(()));
    assert_eq!(db.get(String::from("a")), Some(&10));
    assert_eq!(db.commit(), Err(String::from(NO_TRANSACTIONS)));
}

#[test]
fn rollback_discards_mutations_of_closed_inner_transactions() {
    let mut db = InMemoryDB::new();
    db.set(String::from("a"), 1);
    db.begin_transaction();
    db.begin_transaction();
    db.set(String::from("a"), 2);
    db.set(String::from("b"), 3);
    assert_eq!(db.commit(), Ok(()));
    // The commit closed both levels; reopen and mutate again.
    db.begin_transaction();
    db.set(String::from("a"), 4);
    assert_eq!(db.rollback(), Ok(()));
    assert_eq!(db.get(String::from("a")), Some(&2));
    assert_eq!(db.get(String::from("b")), Some(&3));
}

#[test]
fn deep_nesting_unwinds_one_level_per_rollback() {
    let mut db = InMemoryDB::new();
    db.set(String::from("k"), 0);
    for depth in 1..=5u32 {
        db.begin_transaction();
        db.set(String::from("k"), depth);
    }
    for depth in (0..5u32).rev() {
        assert_eq!(db.rollback(), Ok(()));
        assert_eq!(db.get(String::from("k")), Some(&depth));
    }
    assert_eq!(db.rollback(), Err(String::from(NO_TRANSACTIONS)));
}

#[test]
fn empty_key_is_an_ordinary_key() {
    let mut db = InMemoryDB::new();
    db.set(String::from(""), 7);
    assert_eq!(db.get(String::from("")), Some(&7));
    db.begin_transaction();
    db.unset(String::from(""));
    assert_eq!(db.get(String::from("")), None);
    assert_eq!(db.rollback(), Ok(()));
    assert_eq!(db.get(String::from("")), Some(&7));
}

#[test]
fn snapshots_of_equal_keys_stay_independent() {
    let mut db = InMemoryDB::new();
    db.set(String::from("k"), 1);
    db.begin_transaction();
    db.set(String::from("k"), 2);
    db.begin_transaction();
    db.unset(String::from("k"));
    assert_eq!(db.rollback(), Ok(()));
    assert_eq!(db.get(String::from("k")), Some(&2));
    assert_eq!(db.rollback(), Ok(()));
    assert_eq!(db.get(String::from("k")), Some(&1));
}

#[test]
fn extreme_values_round_trip() {
    let mut db = InMemoryDB::new();
    db.set(String::from("max"), u32::MAX);
    db.set(String::from("min"), 0);
    assert_eq!(db.get(String::from("max")), Some(&u32::MAX));
    assert_eq!(db.get(String::from("min")), Some(&0));
}
