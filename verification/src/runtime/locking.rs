//! What locks are for: who holds something keeps the others out.

use vstd::prelude::*;

use crate::net::types::TxnId;
use crate::runtime::interner;
use crate::runtime::interner::Symbol;
use crate::runtime::manager;
use crate::runtime::manager::{LockConflict, ManagerV};
use crate::runtime::txn;
use crate::runtime::txn::{LockGroupV, VarLockV};

verus! {

/// Whether a transaction holds a variable to write it.
pub open spec fn writes(lock: VarLockV, id: TxnId) -> bool {
    lock is WriteLocked && lock->WriteLocked_0 == id
}

/// Whether a transaction is in the way of one that asks for a variable.
pub open spec fn in_the_way(
    service_lock: Option<TxnId>,
    lock: VarLockV,
    write: bool,
    other: TxnId,
) -> bool {
    ||| service_lock == Some(other)
    ||| writes(lock, other)
    ||| write && txn::holds(lock, other)
}

/// A transaction gets a variable to write exactly where no other holds it, and to read exactly where
/// no other writes it. It then holds the variable, and so does who held it before; while it writes,
/// no other gets it at all, and while it reads, no other gets it to write.
pub proof fn locks_keep_others_out(lock: VarLockV, id: TxnId)
    ensures
        txn::free_for(lock, id, true) <==> forall|other: TxnId|
            other != id ==> !#[trigger] txn::holds(lock, other),
        txn::free_for(lock, id, false) <==> forall|other: TxnId|
            other != id ==> !#[trigger] writes(lock, other),
        txn::free_for(lock, id, true) ==> {
            let after = txn::taken(lock, id, true);
            &&& txn::holds(after, id)
            &&& forall|other: TxnId, write: bool|
                other != id ==> !#[trigger] txn::free_for(after, other, write)
        },
        txn::free_for(lock, id, false) ==> {
            let after = txn::taken(lock, id, false);
            &&& txn::holds(after, id)
            &&& forall|other: TxnId| other != id ==> !#[trigger] txn::free_for(after, other, true)
            &&& forall|other: TxnId| #[trigger] txn::holds(lock, other) ==> txn::holds(after, other)
        },
{
    match lock {
        VarLockV::Unlocked => {
            assert(seq![id][0] == id);
            let after = txn::taken(lock, id, false);
            assert(after->ReadLocked_0[0] == id);
            assert forall|other: TxnId| other != id implies !#[trigger] txn::free_for(
                after,
                other,
                true,
            ) by {
                assert(after->ReadLocked_0[0] != other);
            }
        },
        VarLockV::ReadLocked(ids) => {
            if txn::free_for(lock, id, true) {
                assert forall|other: TxnId| other != id implies !#[trigger] txn::holds(
                    lock,
                    other,
                ) by {
                    if ids.contains(other) {
                        let i = choose|i: int| 0 <= i < ids.len() && ids[i] == other;
                        assert(ids[i] == id);
                    }
                }
            }
            if forall|other: TxnId| other != id ==> !#[trigger] txn::holds(lock, other) {
                assert forall|i: int| 0 <= i < ids.len() implies #[trigger] ids[i] == id by {
                    assert(ids.contains(ids[i]));
                    assert(txn::holds(lock, ids[i]));
                }
            }
            let after = txn::taken(lock, id, false);
            let now = after->ReadLocked_0;
            if ids.contains(id) {
                let k = choose|k: int| 0 <= k < ids.len() && ids[k] == id;
                assert(now[k] == id);
            } else {
                assert(now[ids.len() as int] == id);
            }
            assert(now.contains(id));
            let k = choose|k: int| 0 <= k < now.len() && now[k] == id;
            assert forall|other: TxnId| other != id implies !#[trigger] txn::free_for(
                after,
                other,
                true,
            ) by {
                assert(now[k] != other);
            }
            assert forall|other: TxnId| #[trigger] txn::holds(lock, other) implies txn::holds(
                after,
                other,
            ) by {
                let j = choose|j: int| 0 <= j < ids.len() && ids[j] == other;
                assert(now[j] == other);
            }
        },
        VarLockV::WriteLocked(holder) => {
            if holder != id {
                assert(writes(lock, holder));
                assert(txn::holds(lock, holder));
            }
        },
    }
}

/// A transaction that let go holds nothing any more, and no other lost anything.
pub proof fn letting_go_is_for_oneself(lock: VarLockV, id: TxnId, other: TxnId)
    requires
        other != id,
    ensures
        !txn::holds(txn::let_go(lock, id), id),
        txn::holds(txn::let_go(lock, id), other) <==> txn::holds(lock, other),
{
    if let VarLockV::ReadLocked(ids) = lock {
        let rest = ids.filter(txn::others(id));
        if rest.contains(id) {
            let i = choose|i: int| 0 <= i < rest.len() && rest[i] == id;
            ids.lemma_filter_pred(txn::others(id), i);
        }
        if rest.contains(other) {
            lemma_filtered_from(ids, txn::others(id), other);
        }
    }
    if txn::holds(lock, other) {
        txn::lemma_others_hold(lock, id, other);
    }
}

/// What a filter leaves stood there before.
proof fn lemma_filtered_from(ids: Seq<TxnId>, keep: spec_fn(TxnId) -> bool, x: TxnId)
    requires
        ids.filter(keep).contains(x),
    ensures
        ids.contains(x),
    decreases ids.len(),
{
    reveal(Seq::filter);
    if ids.len() > 0 {
        let rest = ids.drop_last();
        let f = ids.filter(keep);
        let i = choose|i: int| 0 <= i < f.len() && f[i] == x;
        if i < rest.filter(keep).len() {
            assert(rest.filter(keep)[i] == x);
            lemma_filtered_from(rest, keep, x);
            let k = choose|k: int| 0 <= k < rest.len() && rest[k] == x;
            assert(ids[k] == x);
        } else {
            assert(ids[ids.len() - 1] == x);
        }
    }
}

/// Whether a transaction holds the variable of a running service, to write it where it has to.
pub open spec fn has_var(m: ManagerV, svc: Symbol, x: Symbol, write: bool, id: TxnId) -> bool {
    m.services.dom().contains(svc) && m.services[svc].vars.dom().contains(x) ==> {
        let lock = m.services[svc].vars[x].lock;
        if write {
            lock == VarLockV::WriteLocked(id)
        } else {
            txn::holds(lock, id)
        }
    }
}

/// Whether a transaction holds a running service.
pub open spec fn has_service(m: ManagerV, svc: Symbol, id: TxnId) -> bool {
    m.services.dom().contains(svc) ==> m.services[svc].service_lock == Some(id)
}

/// Whether a step keeps what a transaction holds, and which services and variables there are.
pub open spec fn keeps(m: ManagerV, m2: ManagerV, id: TxnId) -> bool {
    &&& m2.names == m.names
    &&& forall|svc: Symbol, x: Symbol, write: bool| #[trigger]
        has_var(m, svc, x, write, id) ==> has_var(m2, svc, x, write, id)
    &&& forall|svc: Symbol| #[trigger] has_service(m, svc, id) ==> has_service(m2, svc, id)
}

/// Taking a variable.
proof fn lemma_lock_var(m: ManagerV, svc: Symbol, x: Symbol, write: bool, id: TxnId)
    ensures
        keeps(m, manager::lock_var(m, svc, x, write, id).0, id),
        manager::lock_var(m, svc, x, write, id).1 is None ==> has_var(
            manager::lock_var(m, svc, x, write, id).0,
            svc,
            x,
            write,
            id,
        ),
{
    if m.services.dom().contains(svc) && m.services[svc].vars.dom().contains(x) {
        let lock = m.services[svc].vars[x].lock;
        locks_keep_others_out(lock, id);
    }
}

/// Taking variables.
proof fn lemma_lock_vars(
    m: ManagerV,
    svc: Symbol,
    names: Seq<Seq<char>>,
    i: int,
    write: bool,
    id: TxnId,
)
    requires
        0 <= i,
    ensures
        keeps(m, manager::lock_vars(m, svc, names, i, write, id).0, id),
        manager::lock_vars(m, svc, names, i, write, id).1 is None ==> forall|k: int|
            i <= k < names.len() && m.names.contains(#[trigger] names[k]) ==> has_var(
                manager::lock_vars(m, svc, names, i, write, id).0,
                svc,
                interner::symbol_in(m.names, names[k]),
                write,
                id,
            ),
    decreases names.len() - i,
{
    if i < names.len() {
        if m.names.contains(names[i]) {
            let x = interner::symbol_in(m.names, names[i]);
            lemma_lock_var(m, svc, x, write, id);
            let r = manager::lock_var(m, svc, x, write, id);
            if r.1 is None {
                lemma_lock_vars(r.0, svc, names, i + 1, write, id);
            }
        } else {
            lemma_lock_vars(m, svc, names, i + 1, write, id);
        }
    }
}

/// Whether a transaction holds all that a group asks for.
pub open spec fn has_group(m: ManagerV, name: Seq<char>, g: LockGroupV, id: TxnId) -> bool {
    m.names.contains(name) ==> {
        let svc = interner::symbol_in(m.names, name);
        &&& g.service_level_lock ==> has_service(m, svc, id)
        &&& forall|k: int|
            0 <= k < g.reads.len() && m.names.contains(#[trigger] g.reads[k]) ==> has_var(
                m,
                svc,
                interner::symbol_in(m.names, g.reads[k]),
                false,
                id,
            )
        &&& forall|k: int|
            0 <= k < g.writes.len() && m.names.contains(#[trigger] g.writes[k]) ==> has_var(
                m,
                svc,
                interner::symbol_in(m.names, g.writes[k]),
                true,
                id,
            )
    }
}

/// A step that keeps what a transaction holds keeps what a group asks for.
proof fn lemma_keeps_group(m: ManagerV, m2: ManagerV, name: Seq<char>, g: LockGroupV, id: TxnId)
    requires
        keeps(m, m2, id),
        has_group(m, name, g, id),
    ensures
        has_group(m2, name, g, id),
{
    if m.names.contains(name) {
        let svc = interner::symbol_in(m.names, name);
        assert forall|k: int|
            0 <= k < g.reads.len() && m2.names.contains(#[trigger] g.reads[k]) implies has_var(
            m2,
            svc,
            interner::symbol_in(m2.names, g.reads[k]),
            false,
            id,
        ) by {
            assert(has_var(m, svc, interner::symbol_in(m.names, g.reads[k]), false, id));
        }
        assert forall|k: int|
            0 <= k < g.writes.len() && m2.names.contains(#[trigger] g.writes[k]) implies has_var(
            m2,
            svc,
            interner::symbol_in(m2.names, g.writes[k]),
            true,
            id,
        ) by {
            assert(has_var(m, svc, interner::symbol_in(m.names, g.writes[k]), true, id));
        }
        if g.service_level_lock {
            assert(has_service(m, svc, id));
        }
    }
}

/// Taking a group.
proof fn lemma_lock_group(m: ManagerV, name: Seq<char>, g: LockGroupV, id: TxnId)
    ensures
        keeps(m, manager::lock_group(m, name, g, id).0, id),
        manager::lock_group(m, name, g, id).1 is None ==> has_group(
            manager::lock_group(m, name, g, id).0,
            name,
            g,
            id,
        ),
{
    if m.names.contains(name) {
        let svc = interner::symbol_in(m.names, name);
        let whole = if g.service_level_lock {
            manager::lock_service(m, svc, id)
        } else {
            (m, None)
        };
        assert(keeps(m, whole.0, id));
        if whole.1 is None {
            lemma_lock_vars(whole.0, svc, g.reads, 0, false, id);
            let reads = manager::lock_vars(whole.0, svc, g.reads, 0, false, id);
            if reads.1 is None {
                lemma_lock_vars(reads.0, svc, g.writes, 0, true, id);
                let writes = manager::lock_vars(reads.0, svc, g.writes, 0, true, id);
                if writes.1 is None {
                    if g.service_level_lock {
                        assert(has_service(whole.0, svc, id));
                    }
                    assert forall|k: int|
                        0 <= k < g.reads.len() && m.names.contains(
                            #[trigger] g.reads[k],
                        ) implies has_var(
                        writes.0,
                        svc,
                        interner::symbol_in(m.names, g.reads[k]),
                        false,
                        id,
                    ) by {
                        assert(has_var(
                            reads.0,
                            svc,
                            interner::symbol_in(m.names, g.reads[k]),
                            false,
                            id,
                        ));
                    }
                }
            }
        }
    }
}

/// A transaction that got its locks holds all of them: each service that it asked for, each variable
/// that it reads, and, alone, each variable that it writes.
pub proof fn locks_that_were_got_are_held(
    m: ManagerV,
    groups: Seq<(Seq<char>, LockGroupV)>,
    i: int,
    id: TxnId,
)
    requires
        0 <= i,
    ensures
        keeps(m, manager::lock_groups(m, groups, i, id).0, id),
        manager::lock_groups(m, groups, i, id).1 is None ==> forall|k: int|
            i <= k < groups.len() ==> has_group(
                manager::lock_groups(m, groups, i, id).0,
                (#[trigger] groups[k]).0,
                groups[k].1,
                id,
            ),
    decreases groups.len() - i,
{
    if i < groups.len() {
        let r = manager::lock_group(m, groups[i].0, groups[i].1, id);
        lemma_lock_group(m, groups[i].0, groups[i].1, id);
        if r.1 is None {
            locks_that_were_got_are_held(r.0, groups, i + 1, id);
            let last = manager::lock_groups(r.0, groups, i + 1, id);
            if last.1 is None {
                lemma_keeps_group(r.0, last.0, groups[i].0, groups[i].1, id);
            }
        }
    }
}

/// A service is refused exactly where another transaction holds it, and a variable exactly where
/// another holds its service, or holds the variable in a way that does not go together with what is
/// asked for. What is refused changes nothing.
pub proof fn refusals_have_a_holder(m: ManagerV, svc: Symbol, x: Symbol, write: bool, id: TxnId)
    requires
        m.services.dom().contains(svc),
    ensures
        manager::lock_service(m, svc, id).1 is Some <==> m.services[svc].service_lock is Some
            && m.services[svc].service_lock != Some(id),
        m.services[svc].vars.dom().contains(x) ==> (manager::lock_var(m, svc, x, write, id).1 is Some
            <==> exists|other: TxnId|
            other != id && #[trigger] in_the_way(
                m.services[svc].service_lock,
                m.services[svc].vars[x].lock,
                write,
                other,
            )),
        manager::lock_service(m, svc, id).1 is Some ==> manager::lock_service(m, svc, id) == (
            m,
            Some(LockConflict::Service(svc)),
        ),
        manager::lock_var(m, svc, x, write, id).1 is Some ==> manager::lock_var(
            m,
            svc,
            x,
            write,
            id,
        ).0 == m,
{
    let s = m.services[svc];
    if s.vars.dom().contains(x) {
        let lock = s.vars[x].lock;
        locks_keep_others_out(lock, id);
        if manager::held_by_other(s, id) {
            assert(in_the_way(s.service_lock, lock, write, s.service_lock->0));
        } else if !txn::free_for(lock, id, write) {
            if write {
                let other = choose|other: TxnId| other != id && #[trigger] txn::holds(lock, other);
                assert(in_the_way(s.service_lock, lock, write, other));
            } else {
                let other = choose|other: TxnId| other != id && #[trigger] writes(lock, other);
                assert(in_the_way(s.service_lock, lock, write, other));
            }
        }
    }
}

/// Whether a node has nothing that another transaction holds.
pub open spec fn nobody_else(m: ManagerV, id: TxnId) -> bool {
    forall|svc: Symbol| #[trigger]
        m.services.contains_key(svc) ==> {
            &&& m.services[svc].service_lock is None || m.services[svc].service_lock == Some(id)
            &&& forall|x: Symbol, other: TxnId|
                #![trigger txn::holds(m.services[svc].vars[x].lock, other)]
                m.services[svc].vars.contains_key(x) && other != id ==> !txn::holds(
                    m.services[svc].vars[x].lock,
                    other,
                )
        }
}

/// Taking a lock makes nobody else a holder.
proof fn lemma_taken(lock: VarLockV, id: TxnId, write: bool, other: TxnId)
    requires
        other != id,
        !txn::holds(lock, other),
    ensures
        !txn::holds(txn::taken(lock, id, write), other),
{
    if let VarLockV::ReadLocked(ids) = lock {
        let now = ids.push(id);
        if now.contains(other) {
            let i = choose|i: int| 0 <= i < now.len() && now[i] == other;
            assert(ids[i] == other);
        }
    }
    if seq![id].contains(other) {
        let i = choose|i: int| 0 <= i < seq![id].len() && seq![id][i] == other;
        assert(i == 0);
    }
}

/// A variable that nobody else holds is got.
proof fn lemma_var_is_got(m: ManagerV, svc: Symbol, x: Symbol, write: bool, id: TxnId)
    requires
        nobody_else(m, id),
    ensures
        manager::lock_var(m, svc, x, write, id).1 is None,
        nobody_else(manager::lock_var(m, svc, x, write, id).0, id),
{
    if m.services.contains_key(svc) && m.services[svc].vars.contains_key(x) {
        let lock = m.services[svc].vars[x].lock;
        locks_keep_others_out(lock, id);
        assert forall|other: TxnId| other != id implies !#[trigger] txn::holds(lock, other)
            && !txn::holds(txn::taken(lock, id, write), other) by {
            assert(!txn::holds(m.services[svc].vars[x].lock, other));
            lemma_taken(lock, id, write, other);
        }
        assert forall|other: TxnId| other != id implies !#[trigger] writes(lock, other) by {
            assert(!txn::holds(lock, other));
        }
        let m2 = manager::lock_var(m, svc, x, write, id).0;
        assert forall|s: Symbol| #[trigger] m2.services.contains_key(s) implies {
            &&& m2.services[s].service_lock is None || m2.services[s].service_lock == Some(id)
            &&& forall|y: Symbol, other: TxnId|
                #![trigger txn::holds(m2.services[s].vars[y].lock, other)]
                m2.services[s].vars.contains_key(y) && other != id ==> !txn::holds(
                    m2.services[s].vars[y].lock,
                    other,
                )
        } by {
            assert(m.services.contains_key(s));
            assert forall|y: Symbol, other: TxnId|
                #![trigger txn::holds(m2.services[s].vars[y].lock, other)]
                m2.services[s].vars.contains_key(y) && other != id implies !txn::holds(
                m2.services[s].vars[y].lock,
                other,
            ) by {
                if s == svc && y == x {
                    assert(!txn::holds(lock, other));
                } else {
                    assert(!txn::holds(m.services[s].vars[y].lock, other));
                }
            }
        }
    }
}

/// Variables that nobody else holds are got.
proof fn lemma_vars_are_got(
    m: ManagerV,
    svc: Symbol,
    names: Seq<Seq<char>>,
    i: int,
    write: bool,
    id: TxnId,
)
    requires
        0 <= i,
        nobody_else(m, id),
    ensures
        manager::lock_vars(m, svc, names, i, write, id).1 is None,
        nobody_else(manager::lock_vars(m, svc, names, i, write, id).0, id),
    decreases names.len() - i,
{
    if i < names.len() {
        if m.names.contains(names[i]) {
            let x = interner::symbol_in(m.names, names[i]);
            lemma_var_is_got(m, svc, x, write, id);
            lemma_vars_are_got(
                manager::lock_var(m, svc, x, write, id).0,
                svc,
                names,
                i + 1,
                write,
                id,
            );
        } else {
            lemma_vars_are_got(m, svc, names, i + 1, write, id);
        }
    }
}

/// A transaction gets all locks that it asks for at a node where no other holds anything.
pub proof fn free_locks_are_got(
    m: ManagerV,
    groups: Seq<(Seq<char>, LockGroupV)>,
    i: int,
    id: TxnId,
)
    requires
        0 <= i,
        nobody_else(m, id),
    ensures
        manager::lock_groups(m, groups, i, id).1 is None,
        nobody_else(manager::lock_groups(m, groups, i, id).0, id),
    decreases groups.len() - i,
{
    if i < groups.len() {
        let (name, g) = groups[i];
        if m.names.contains(name) {
            let svc = interner::symbol_in(m.names, name);
            let whole = if g.service_level_lock {
                manager::lock_service(m, svc, id)
            } else {
                (m, None)
            };
            assert(whole.1 is None && nobody_else(whole.0, id)) by {
                if g.service_level_lock && m.services.contains_key(svc) {
                    let m2 = whole.0;
                    assert forall|s: Symbol| #[trigger] m2.services.contains_key(s) implies {
                        &&& m2.services[s].service_lock is None || m2.services[s].service_lock
                            == Some(id)
                        &&& forall|y: Symbol, other: TxnId|
                            #![trigger txn::holds(m2.services[s].vars[y].lock, other)]
                            m2.services[s].vars.contains_key(y) && other != id ==> !txn::holds(
                                m2.services[s].vars[y].lock,
                                other,
                            )
                    } by {
                        assert(m.services.contains_key(s));
                        assert(m2.services[s].vars == m.services[s].vars);
                        assert forall|y: Symbol, other: TxnId|
                            #![trigger txn::holds(m2.services[s].vars[y].lock, other)]
                            m2.services[s].vars.contains_key(y) && other != id implies !txn::holds(
                            m2.services[s].vars[y].lock,
                            other,
                        ) by {
                            assert(!txn::holds(m.services[s].vars[y].lock, other));
                        }
                    }
                }
            }
            lemma_vars_are_got(whole.0, svc, g.reads, 0, false, id);
            let reads = manager::lock_vars(whole.0, svc, g.reads, 0, false, id);
            lemma_vars_are_got(reads.0, svc, g.writes, 0, true, id);
        }
        free_locks_are_got(manager::lock_group(m, name, g, id).0, groups, i + 1, id);
    }
}

} // verus!
