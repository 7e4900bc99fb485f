//! What becomes of a transaction that finds a lock taken.
//!
//! A transaction waits for older ones only. So no circle of transactions can wait for each other:
//! along a line of waiting transactions each is older than the one before it.

use vstd::prelude::*;

use crate::net::types::TxnId;
use crate::runtime::limits::{
    MAX_WAIT_DIE_RETRIES, WAIT_DIE_RETRY_BACKOFF_MS, WAIT_ON_RETRY_BACKOFF_MS,
};
use crate::runtime::manager::{LockConflict, Manager, ManagerV};
use crate::runtime::txn::{VarLock, VarLockV};

verus! {

broadcast use vstd::std_specs::hash::group_hash_axioms;

/// What a transaction does about a lock that another one holds.
#[derive(Debug, Clone, Copy, PartialEq, Eq, Structural)]
pub enum LockDecision {
    /// It waits until the lock is free, and tries again.
    Wait,
    /// It gives up all its locks, and starts anew.
    Die,
}

/// What a transaction that found a lock taken does next.
#[derive(Debug, Clone, Copy, PartialEq, Eq, Structural)]
pub enum LockStep {
    /// It pauses, and looks for the lock again.
    Wait { pause_ms: u64 },
    /// It lets go of all its locks, pauses, and starts anew.
    Restart { pause_ms: u64 },
    /// It lets go of all its locks, and fails.
    GiveUp,
}

/// Whether a transaction began before another; of two that began at the same time, the one of the
/// node with the smaller number comes first.
pub open spec fn older(a: TxnId, b: TxnId) -> bool {
    a.timestamp < b.timestamp || (a.timestamp == b.timestamp && a.node_id < b.node_id)
}

/// The transactions that hold a variable.
pub open spec fn var_holders(lock: VarLockV) -> Seq<TxnId> {
    match lock {
        VarLockV::Unlocked => Seq::empty(),
        VarLockV::ReadLocked(ids) => ids,
        VarLockV::WriteLocked(id) => seq![id],
    }
}

/// The transactions that hold what stands in the way.
pub open spec fn holders(m: ManagerV, c: LockConflict) -> Seq<TxnId> {
    match c {
        LockConflict::Service(svc) => if m.services.dom().contains(svc) {
            match m.services[svc].service_lock {
                Some(id) => seq![id],
                None => Seq::empty(),
            }
        } else {
            Seq::empty()
        },
        LockConflict::Variable(svc, x) => if m.services.dom().contains(svc)
            && m.services[svc].vars.dom().contains(x) {
            var_holders(m.services[svc].vars[x].lock)
        } else {
            Seq::empty()
        },
    }
}

/// What a transaction does about other ones that stand in its way: it waits where all of them are
/// older, and dies where one of them is not.
pub open spec fn decided(ids: Seq<TxnId>, id: TxnId) -> LockDecision {
    if forall|i: int| 0 <= i < ids.len() && ids[i] != id ==> older(#[trigger] ids[i], id) {
        LockDecision::Wait
    } else {
        LockDecision::Die
    }
}

/// What a transaction does next about other ones that stand in its way, after it tried again
/// `retries` times.
pub open spec fn next_step(ids: Seq<TxnId>, id: TxnId, retries: u32) -> LockStep {
    if retries >= MAX_WAIT_DIE_RETRIES {
        LockStep::GiveUp
    } else {
        match decided(ids, id) {
            LockDecision::Wait => LockStep::Wait { pause_ms: WAIT_ON_RETRY_BACKOFF_MS },
            LockDecision::Die => LockStep::Restart { pause_ms: WAIT_DIE_RETRY_BACKOFF_MS },
        }
    }
}

/// Whether a transaction began before another.
pub fn is_older(a: &TxnId, b: &TxnId) -> (res: bool)
    ensures
        res == older(*a, *b),
{
    a.timestamp < b.timestamp || (a.timestamp == b.timestamp && a.node_id < b.node_id)
}

fn decide(ids: &Vec<TxnId>, id: &TxnId) -> (res: LockDecision)
    ensures
        res == decided(ids@, *id),
{
    let mut i: usize = 0;
    while i < ids.len()
        invariant
            i <= ids@.len(),
            forall|k: int| 0 <= k < i && ids@[k] != *id ==> older(#[trigger] ids@[k], *id),
        decreases ids@.len() - i,
    {
        if ids[i] != *id && !is_older(&ids[i], id) {
            assert(!older(ids@[i as int], *id));
            return LockDecision::Die;
        }
        i += 1;
    }
    LockDecision::Wait
}

fn decide_one(holder: TxnId, id: &TxnId) -> (res: LockDecision)
    ensures
        res == decided(seq![holder], *id),
{
    assert(seq![holder][0] == holder);
    if holder != *id && !is_older(&holder, id) {
        LockDecision::Die
    } else {
        LockDecision::Wait
    }
}

/// What a transaction does about a lock that another one holds at a node. Where nobody holds it
/// any more, the transaction tries again.
pub fn decide_conflict(manager: &Manager, conflict: LockConflict, id: &TxnId) -> (res: LockDecision)
    ensures
        res == decided(holders(manager@, conflict), *id),
{
    match conflict {
        LockConflict::Service(svc) => match manager.services.get(&svc) {
            Some(s) => match s.service_lock {
                Some(holder) => decide_one(holder, id),
                None => LockDecision::Wait,
            },
            None => LockDecision::Wait,
        },
        LockConflict::Variable(svc, x) => match manager.services.get(&svc) {
            Some(s) => match s.vars.get(&x) {
                Some(v) => match &v.lock {
                    VarLock::Unlocked => LockDecision::Wait,
                    VarLock::ReadLocked(ids) => decide(ids, id),
                    VarLock::WriteLocked(holder) => decide_one(*holder, id),
                },
                None => LockDecision::Wait,
            },
            None => LockDecision::Wait,
        },
    }
}

/// What a transaction does next about a lock that another one holds at a node, after it tried again
/// `retries` times.
pub fn after_conflict(
    manager: &Manager,
    conflict: LockConflict,
    id: &TxnId,
    retries: u32,
) -> (res: LockStep)
    ensures
        res == next_step(holders(manager@, conflict), *id, retries),
{
    if retries >= MAX_WAIT_DIE_RETRIES {
        return LockStep::GiveUp;
    }
    match decide_conflict(manager, conflict, id) {
        LockDecision::Wait => LockStep::Wait { pause_ms: WAIT_ON_RETRY_BACKOFF_MS },
        LockDecision::Die => LockStep::Restart { pause_ms: WAIT_DIE_RETRY_BACKOFF_MS },
    }
}

/// Of two different transactions one is older, and only one.
pub proof fn age_is_an_order(a: TxnId, b: TxnId)
    ensures
        older(a, b) ==> !older(b, a),
        a != b ==> older(a, b) || older(b, a),
{
}

/// Where two different transactions are in each other's way, one waits and the other one dies; and
/// one that waits for some others waits for each of them.
pub proof fn one_waits_and_one_dies(a: TxnId, b: TxnId, ids: Seq<TxnId>, i: int)
    requires
        a != b,
        0 <= i < ids.len(),
    ensures
        decided(seq![a], b) == LockDecision::Wait <==> decided(seq![b], a) == LockDecision::Die,
        decided(ids, a) == LockDecision::Wait ==> decided(seq![ids[i]], a) == LockDecision::Wait,
        decided(seq![ids[i]], a) == LockDecision::Die ==> decided(ids, a) == LockDecision::Die,
        (forall|k: int|
            0 <= k < ids.len() ==> decided(seq![#[trigger] ids[k]], a) == LockDecision::Wait)
            ==> decided(ids, a) == LockDecision::Wait,
        a.timestamp < b.timestamp ==> decided(seq![a], b) == LockDecision::Wait,
{
    age_is_an_order(a, b);
    assert(seq![a][0] == a);
    assert(seq![b][0] == b);
    assert(seq![ids[i]][0] == ids[i]);
    if forall|k: int|
        0 <= k < ids.len() ==> decided(seq![#[trigger] ids[k]], a) == LockDecision::Wait {
        assert forall|k: int| 0 <= k < ids.len() && ids[k] != a implies older(
            #[trigger] ids[k],
            a,
        ) by {
            assert(seq![ids[k]][0] == ids[k]);
        }
    }
}

/// A transaction tries again a bounded number of times, and never stops while tries are left.
pub proof fn tries_are_bounded(ids: Seq<TxnId>, id: TxnId, retries: u32)
    ensures
        next_step(ids, id, retries) is GiveUp <==> retries >= MAX_WAIT_DIE_RETRIES,
        next_step(ids, id, retries) is Wait ==> decided(ids, id) == LockDecision::Wait,
        next_step(ids, id, retries) is Restart ==> decided(ids, id) == LockDecision::Die,
{
}

/// Whether a transaction of a line waits for the next: it would wait for that one alone.
pub open spec fn waits_for_next(ids: Seq<TxnId>, i: int) -> bool {
    ids[i] != ids[i + 1] && decided(seq![ids[i + 1]], ids[i]) == LockDecision::Wait
}

/// A transaction waits for older ones only.
pub proof fn waiting_is_for_older_ones(ids: Seq<TxnId>, i: int)
    requires
        waits_for_next(ids, i),
    ensures
        older(ids[i + 1], ids[i]),
{
    assert(seq![ids[i + 1]][0] == ids[i + 1]);
}

/// No deadlock: where each of some transactions waits for the next, the last of them is older than
/// the first, so that it is not the first again.
pub proof fn waiting_ends(ids: Seq<TxnId>)
    requires
        ids.len() > 1,
        forall|i: int| 0 <= i < ids.len() - 1 ==> #[trigger] waits_for_next(ids, i),
    ensures
        older(ids.last(), ids.first()),
        ids.last() != ids.first(),
    decreases ids.len(),
{
    let r = ids.drop_last();
    let k = ids.len() - 2;
    assert(waits_for_next(ids, k));
    waiting_is_for_older_ones(ids, k);
    if r.len() > 1 {
        assert forall|i: int| 0 <= i < r.len() - 1 implies #[trigger] waits_for_next(r, i) by {
            assert(waits_for_next(ids, i));
        }
        waiting_ends(r);
    }
}

} // verus!
