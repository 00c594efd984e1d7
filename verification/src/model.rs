use vstd::prelude::*;

verus! {

/// The abstract state of a transactional store: the live mapping and
/// the stack of snapshots, ordered oldest-opened-first.
#[verifier::ext_equal]
pub struct DbState {
    /// The live key-value associations visible to `get`.
    pub store: Map<Seq<char>, u32>,
    /// One snapshot of the live mapping per open transaction; its
    /// length is the current nesting depth.
    pub snapshots: Seq<Map<Seq<char>, u32>>,
}

/// The state of a freshly created store: empty mapping, no snapshots.
pub open spec fn initial_state() -> DbState {
    DbState { store: Map::empty(), snapshots: Seq::empty() }
}

/// Whether at least one transaction is open.
pub open spec fn in_transaction(s: DbState) -> bool {
    s.snapshots.len() > 0
}

/// What `set` does: bind `key` to `value` in the live mapping.
pub open spec fn set_state(s: DbState, key: Seq<char>, value: u32) -> DbState {
    DbState { store: s.store.insert(key, value), snapshots: s.snapshots }
}

/// What `unset` does: drop `key` from the live mapping.
pub open spec fn unset_state(s: DbState, key: Seq<char>) -> DbState {
    DbState { store: s.store.remove(key), snapshots: s.snapshots }
}

/// What `begin_transaction` does: push a snapshot of the live mapping.
pub open spec fn begin_state(s: DbState) -> DbState {
    DbState { store: s.store, snapshots: s.snapshots.push(s.store) }
}

/// What a successful `rollback` does: restore the most recent snapshot
/// and pop it.
pub open spec fn rollback_state(s: DbState) -> DbState {
    DbState { store: s.snapshots.last(), snapshots: s.snapshots.drop_last() }
}

/// What a successful `commit` does: keep the live mapping and discard
/// every snapshot.
pub open spec fn commit_state(s: DbState) -> DbState {
    DbState { store: s.store, snapshots: Seq::empty() }
}

} // verus!
