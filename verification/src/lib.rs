//! An in-memory key-value store with nested transactions.
//!
//! The store holds a live mapping from text keys to 32-bit values.
//! `begin_transaction` saves a snapshot of the mapping; `rollback`
//! restores and discards the most recent snapshot; `commit` keeps the
//! live mapping and discards every snapshot at once.

mod entries;
pub mod laws;
pub mod model;

use vstd::prelude::*;

verus! {

use vstd::string::StringExecFns;

use crate::entries::{
    has_key,
    keys_unique,
    lemma_map_of_absent,
    lemma_map_of_entry,
    lemma_map_of_push,
    lemma_map_of_remove,
    map_of,
};
use crate::model::{
    begin_state,
    commit_state,
    in_transaction,
    initial_state,
    rollback_state,
    set_state,
    unset_state,
    DbState,
};

/// The message carried by the error that `rollback` and `commit`
/// return while no transaction is open.
pub open spec fn no_transactions_message() -> Seq<char> {
    "No transactions in progress"@
}

/// A key-value store with snapshot-based transactions.
///
/// Each implementation exposes its abstract state as a [`DbState`]:
/// the live mapping plus the stack of snapshots. Every operation's
/// contract pins the new abstract state as a function of the old one.
pub trait SimpleDB: Sized {
    /// The abstract state: live mapping and snapshot stack.
    spec fn state(&self) -> DbState;

    /// Internal consistency of the representation.
    spec fn well_formed(&self) -> bool;

    /// Inserts or overwrites `key` with `value` in the live mapping.
    fn set(&mut self, key: String, value: u32)
        requires
            old(self).well_formed(),
        ensures
            final(self).well_formed(),
            final(self).state() == set_state(old(self).state(), key@, value),
    ;

    /// Returns the value bound to `key`, or `None` if `key` is absent.
    fn get(&self, key: String) -> (result: Option<&u32>)
        requires
            self.well_formed(),
        ensures
            match result {
                Some(value) => self.state().store.dom().contains(key@) && *value
                    == self.state().store[key@],
                None => !self.state().store.dom().contains(key@),
            },
    ;

    /// Removes `key` from the live mapping; a no-op if `key` is absent.
    fn unset(&mut self, key: String)
        requires
            old(self).well_formed(),
        ensures
            final(self).well_formed(),
            final(self).state() == unset_state(old(self).state(), key@),
    ;

    /// Opens a transaction: pushes a snapshot of the live mapping.
    fn begin_transaction(&mut self)
        requires
            old(self).well_formed(),
        ensures
            final(self).well_formed(),
            final(self).state() == begin_state(old(self).state()),
    ;

    /// Closes the innermost transaction, discarding every mutation made
    /// since it began. Fails, changing nothing, if none is open.
    fn rollback(&mut self) -> (result: Result<(), String>)
        requires
            old(self).well_formed(),
        ensures
            final(self).well_formed(),
            in_transaction(old(self).state()) ==> result is Ok && final(self).state()
                == rollback_state(old(self).state()),
            !in_transaction(old(self).state()) ==> final(self).state() == old(self).state() && (
            result matches Err(message) && message@ == no_transactions_message()),
    ;

    /// Closes every open transaction at once, keeping the live mapping.
    /// Fails, changing nothing, if none is open.
    fn commit(&mut self) -> (result: Result<(), String>)
        requires
            old(self).well_formed(),
        ensures
            final(self).well_formed(),
            in_transaction(old(self).state()) ==> result is Ok && final(self).state()
                == commit_state(old(self).state()),
            !in_transaction(old(self).state()) ==> final(self).state() == old(self).state() && (
            result matches Err(message) && message@ == no_transactions_message()),
    ;
}

/// The representation of one mapping: an association list whose keys
/// are unique.
pub type Store = Vec<(String, u32)>;

/// A transactional store backed by whole-mapping copy-on-begin
/// snapshots: the live association list plus one saved copy of it per
/// open transaction, ordered oldest-opened-first.
pub struct InMemoryDB {
    store: Store,
    history: Vec<Store>,
}

/// The index of the entry of `entries` carrying `key`, or `None` when
/// no entry does.
fn find_index(entries: &Vec<(String, u32)>, key: &String) -> (result: Option<usize>)
    ensures
        match result {
            Some(i) => i < entries@.len() && entries@[i as int].0@ == key@,
            None => !has_key(entries@, key@),
        },
{
    let mut i: usize = 0;
    while i < entries.len()
        invariant
            i <= entries@.len(),
            forall|j: int| 0 <= j < i ==> (#[trigger] entries@[j]).0@ != key@,
        decreases entries@.len() - i,
    {
        if entries[i].0 == *key {
            return Some(i);
        }
        i = i + 1;
    }
    None
}

/// A copy of an association list, entry by entry.
fn clone_entries(entries: &Vec<(String, u32)>) -> (result: Vec<(String, u32)>)
    ensures
        result@ == entries@,
{
    let mut result: Vec<(String, u32)> = Vec::new();
    let mut i: usize = 0;
    while i < entries.len()
        invariant
            i <= entries@.len(),
            result@ == entries@.subrange(0, i as int),
        decreases entries@.len() - i,
    {
        let key = entries[i].0.clone();
        let value = entries[i].1;
        result.push((key, value));
        proof {
            assert(result@ =~= entries@.subrange(0, i as int + 1));
        }
        i = i + 1;
    }
    proof {
        assert(result@ =~= entries@);
    }
    result
}

/// The error value returned when no transaction is open.
fn no_transactions_error() -> (message: String)
    ensures
        message@ == no_transactions_message(),
{
    String::from_str("No transactions in progress")
}

impl InMemoryDB {
    /// A fresh store: empty mapping, no open transaction.
    pub fn new() -> (db: Self)
        ensures
            db.well_formed(),
            db.state() == initial_state(),
    {
        let db = InMemoryDB { store: Vec::new(), history: Vec::new() };
        proof {
            assert(db.state() =~~= initial_state());
        }
        db
    }
}

impl SimpleDB for InMemoryDB {
    closed spec fn state(&self) -> DbState {
        DbState {
            store: map_of(self.store@),
            snapshots: self.history@.map_values(|snapshot: Store| map_of(snapshot@)),
        }
    }

    closed spec fn well_formed(&self) -> bool {
        &&& keys_unique(self.store@)
        &&& forall|i: int| 0 <= i < self.history@.len() ==> keys_unique(#[trigger] self.history@[i]@)
    }

    fn set(&mut self, key: String, value: u32) {
        let ghost pre = self.store@;
        match find_index(&self.store, &key) {
            Some(i) => {
                self.store.remove(i);
                proof {
                    lemma_map_of_remove(pre, i as int);
                }
            },
            None => {},
        }
        let ghost mid = self.store@;
        self.store.push((key, value));
        proof {
            lemma_map_of_push(mid, key, value);
            assert(map_of(self.store@) =~= map_of(pre).insert(key@, value));
            assert(self.state() =~~= set_state(old(self).state(), key@, value));
        }
    }

    fn get(&self, key: String) -> (result: Option<&u32>) {
        match find_index(&self.store, &key) {
            Some(i) => {
                proof {
                    lemma_map_of_entry(self.store@, i as int);
                }
                Some(&self.store[i].1)
            },
            None => {
                proof {
                    lemma_map_of_absent(self.store@, key@);
                }
                None
            },
        }
    }

    fn unset(&mut self, key: String) {
        let ghost pre = self.store@;
        match find_index(&self.store, &key) {
            Some(i) => {
                self.store.remove(i);
                proof {
                    lemma_map_of_remove(pre, i as int);
                    assert(self.state() =~~= unset_state(old(self).state(), key@));
                }
            },
            None => {
                proof {
                    lemma_map_of_absent(pre, key@);
                    assert(map_of(pre) =~= map_of(pre).remove(key@));
                    assert(self.state() =~~= unset_state(old(self).state(), key@));
                }
            },
        }
    }

    fn begin_transaction(&mut self) {
        let snapshot = clone_entries(&self.store);
        self.history.push(snapshot);
        proof {
            assert(self.state().snapshots =~= begin_state(old(self).state()).snapshots);
            assert(self.state() =~~= begin_state(old(self).state()));
        }
    }

    fn rollback(&mut self) -> (result: Result<(), String>) {
        match self.history.pop() {
            Some(snapshot) => {
                self.store = snapshot;
                proof {
                    assert(self.state().snapshots =~= rollback_state(old(self).state()).snapshots);
                    assert(self.state() =~~= rollback_state(old(self).state()));
                }
                Ok(())
            },
            None => Err(no_transactions_error()),
        }
    }

    fn commit(&mut self) -> (result: Result<(), String>) {
        if self.history.is_empty() {
            Err(no_transactions_error())
        } else {
            self.history.clear();
            proof {
                assert(self.state().snapshots =~= commit_state(old(self).state()).snapshots);
                assert(self.state() =~~= commit_state(old(self).state()));
            }
            Ok(())
        }
    }
}

} // verus!
