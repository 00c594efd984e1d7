//! Properties of the transaction mechanism, proved once and for all
//! over the abstract state in [`crate::model`].

use vstd::prelude::*;

verus! {

use crate::model::{
    begin_state,
    commit_state,
    in_transaction,
    initial_state,
    rollback_state,
    set_state,
    unset_state,
    DbState,
};

/// One mutation of the live mapping: what a single `set` or `unset`
/// call does to it.
pub enum StoreOp {
    /// `set(key, value)`.
    Write(Seq<char>, u32),
    /// `unset(key)`.
    Erase(Seq<char>),
}

/// The mapping after one mutation.
pub open spec fn apply_op(m: Map<Seq<char>, u32>, op: StoreOp) -> Map<Seq<char>, u32> {
    match op {
        StoreOp::Write(key, value) => m.insert(key, value),
        StoreOp::Erase(key) => m.remove(key),
    }
}

/// The mapping after a sequence of mutations, applied in order.
pub open spec fn apply_ops(m: Map<Seq<char>, u32>, ops: Seq<StoreOp>) -> Map<Seq<char>, u32>
    decreases ops.len(),
{
    if ops.len() == 0 {
        m
    } else {
        apply_op(apply_ops(m, ops.drop_last()), ops.last())
    }
}

/// Whether a mutation writes or erases `key`.
pub open spec fn op_touches(op: StoreOp, key: Seq<char>) -> bool {
    match op {
        StoreOp::Write(k, _) => k == key,
        StoreOp::Erase(k) => k == key,
    }
}

/// A key that no mutation of a sequence touches keeps, once the whole
/// sequence has run, exactly the binding it had before: absent stays
/// absent, and a bound value stays bound.
pub proof fn lemma_untouched_key_unchanged(
    m: Map<Seq<char>, u32>,
    ops: Seq<StoreOp>,
    key: Seq<char>,
)
    requires
        forall|i: int| 0 <= i < ops.len() ==> !op_touches(#[trigger] ops[i], key),
    ensures
        apply_ops(m, ops).dom().contains(key) == m.dom().contains(key),
        m.dom().contains(key) ==> apply_ops(m, ops)[key] == m[key],
    decreases ops.len(),
{
    if ops.len() > 0 {
        assert(forall|i: int|
            0 <= i < ops.drop_last().len() ==> !op_touches(#[trigger] ops.drop_last()[i], key));
        lemma_untouched_key_unchanged(m, ops.drop_last(), key);
        assert(!op_touches(ops.last(), key));
    }
}

/// Last write wins: when the mutation at `i` is the last one of a
/// sequence to touch `key`, the mapping after the whole sequence has
/// run with no transaction open reflects exactly that mutation — the
/// written value when it is a write, absence (until a later write)
/// when it is an erase.
pub proof fn lemma_last_write_wins(
    m: Map<Seq<char>, u32>,
    ops: Seq<StoreOp>,
    i: int,
    key: Seq<char>,
)
    requires
        0 <= i < ops.len(),
        op_touches(ops[i], key),
        forall|j: int| i < j < ops.len() ==> !op_touches(#[trigger] ops[j], key),
    ensures
        match ops[i] {
            StoreOp::Write(_, value) => apply_ops(m, ops).dom().contains(key) && apply_ops(m, ops)[key]
                == value,
            StoreOp::Erase(_) => !apply_ops(m, ops).dom().contains(key),
        },
    decreases ops.len(),
{
    if i == ops.len() - 1 {
        assert(ops.last() == ops[i]);
    } else {
        assert(forall|j: int|
            i < j < ops.drop_last().len() ==> !op_touches(#[trigger] ops.drop_last()[j], key));
        assert(ops.drop_last()[i] == ops[i]);
        lemma_last_write_wins(m, ops.drop_last(), i, key);
        assert(!op_touches(ops.last(), key));
    }
}

/// Opening a transaction and immediately rolling it back is a no-op:
/// the rollback is permitted, the live mapping afterwards equals the
/// one before, and the snapshot stack is back to its former value —
/// whatever the prior state was.
pub proof fn lemma_begin_then_rollback_is_noop(s: DbState)
    ensures
        in_transaction(begin_state(s)),
        rollback_state(begin_state(s)) == s,
{
    assert(rollback_state(begin_state(s)) =~~= s);
}

/// Rolling back a nested transaction restores the mapping as it stood
/// when the inner transaction began, not when the outer one did: after
/// `begin_transaction; set(key, outer_value); begin_transaction;
/// set(key, inner_value); rollback`, the key reads as `outer_value`
/// and exactly the outer transaction is still open.
pub proof fn lemma_nested_rollback_restores_inner(
    s: DbState,
    key: Seq<char>,
    outer_value: u32,
    inner_value: u32,
)
    ensures
        ({
            let outer = set_state(begin_state(s), key, outer_value);
            let inner = set_state(begin_state(outer), key, inner_value);
            let rolled_back = rollback_state(inner);
            &&& in_transaction(inner)
            &&& rolled_back.store == outer.store
            &&& rolled_back.store.dom().contains(key)
            &&& rolled_back.store[key] == outer_value
            &&& rolled_back.snapshots == outer.snapshots
        }),
{
    let outer = set_state(begin_state(s), key, outer_value);
    let inner = set_state(begin_state(outer), key, inner_value);
    assert(rollback_state(inner).snapshots =~~= outer.snapshots);
}

/// Commit collapses every nesting level at once: after
/// `begin_transaction; set(key, outer_value); begin_transaction;
/// set(key, inner_value); commit`, the key reads as `inner_value` and
/// no transaction remains open, so a further `rollback` or `commit`
/// must fail.
pub proof fn lemma_commit_collapses_all_levels(
    s: DbState,
    key: Seq<char>,
    outer_value: u32,
    inner_value: u32,
)
    ensures
        ({
            let inner = set_state(
                begin_state(set_state(begin_state(s), key, outer_value)),
                key,
                inner_value,
            );
            let committed = commit_state(inner);
            &&& in_transaction(inner)
            &&& committed.store.dom().contains(key)
            &&& committed.store[key] == inner_value
            &&& !in_transaction(committed)
        }),
{
}

/// On a freshly created store no transaction is open — so `rollback`
/// and `commit` must fail there and leave the mapping unchanged — and
/// the mapping is empty.
pub proof fn lemma_fresh_store_has_no_transaction()
    ensures
        !in_transaction(initial_state()),
        initial_state().store == Map::<Seq<char>, u32>::empty(),
{
}

/// An `unset` inside a transaction is isolated: after
/// `set(key, value); begin_transaction; unset(key)`, the key reads as
/// absent, and a `rollback` restores the whole prior state, under
/// which the key reads as `value` again.
pub proof fn lemma_rollback_restores_unset_key(s: DbState, key: Seq<char>, value: u32)
    ensures
        ({
            let before = set_state(s, key, value);
            let inside = unset_state(begin_state(before), key);
            let rolled_back = rollback_state(inside);
            &&& in_transaction(inside)
            &&& !inside.store.dom().contains(key)
            &&& rolled_back.store == before.store
            &&& rolled_back.store.dom().contains(key)
            &&& rolled_back.store[key] == value
            &&& rolled_back.snapshots == before.snapshots
        }),
{
    let before = set_state(s, key, value);
    let inside = unset_state(begin_state(before), key);
    assert(rollback_state(inside).snapshots =~~= before.snapshots);
}

} // verus!
