//! Who learns of an update that took effect.

use vstd::prelude::*;

use crate::net::types::TxnId;
use crate::runtime::ast::{DeclV, StmtV};
use crate::runtime::interner;
use crate::runtime::interner::Symbol;
use crate::runtime::manager::ManagerV;
use crate::runtime::txn::LockTxnV;
use crate::runtime::update::effects;
use crate::runtime::update::effects::EffectV;
use crate::runtime::update::patch;
use crate::runtime::update::printing;

verus! {

/// Whether a statement declares a service, or updates it, with these declarations.
pub open spec fn is_about(s: StmtV, svc: Symbol, decls: Seq<DeclV>) -> bool {
    ||| s == StmtV::Service { name: svc, decls }
    ||| s == StmtV::Update { service_name: svc, decls }
}

/// Whether a declaration gives a name a new value.
pub open spec fn revalues(d: DeclV, x: Symbol) -> bool {
    match d {
        DeclV::VarDecl { name, .. } => name == x,
        DeclV::DefDecl { name, .. } => name == x,
        DeclV::TableDecl { .. } => false,
    }
}

/// Whether one of the declarations gives a name a new value.
pub open spec fn revalued_in(decls: Seq<DeclV>, x: Symbol) -> bool {
    exists|k: int| 0 <= k < decls.len() && revalues(#[trigger] decls[k], x)
}

/// Whether one of the declarations defines a name.
pub open spec fn defined_in(decls: Seq<DeclV>, x: Symbol) -> bool {
    exists|k: int| 0 <= k < decls.len() && (#[trigger] decls[k]) is DefDecl && revalues(decls[k], x)
}

/// Whether something is owed to those who depend on a service with new declarations.
pub open spec fn owed_by(
    m: ManagerV,
    svc: Symbol,
    decls: Seq<DeclV>,
    id: Option<TxnId>,
    e: EffectV,
) -> bool {
    match e {
        EffectV::Rewire { service } => false,
        EffectV::Recompute { service, name } => service == svc && m.services.contains_key(svc)
            && defined_in(decls, name),
        EffectV::Propagate { service, name } => service == svc && m.services.contains_key(svc)
            && revalued_in(decls, name),
        EffectV::SendUpdate { address, txn_id, service_name, source, timeout } => {
            &&& m.remote.contains_key(svc)
            &&& address == m.remote[svc]
            &&& txn_id == id
            &&& service_name == interner::name_text(m.names, svc)
            &&& source == printing::update_text(svc, decls, m.names)
            &&& timeout == "Timeout waiting for service update response for '"@ + service_name
                + "'"@
        },
        EffectV::SendCommit { .. } => false,
    }
}

/// Whether something is owed once updates took effect.
pub open spec fn owed(
    m: ManagerV,
    updates: Seq<StmtV>,
    txn: Option<LockTxnV>,
    e: EffectV,
) -> bool {
    match e {
        EffectV::Rewire { service } => exists|i: int, decls: Seq<DeclV>|
            0 <= i < updates.len() && #[trigger] is_about(updates[i], service, decls),
        EffectV::SendCommit { address, id } => txn is Some && id == txn->0.id
            && txn->0.participants.contains(address),
        _ => exists|i: int, svc: Symbol, decls: Seq<DeclV>|
            0 <= i < updates.len() && #[trigger] is_about(updates[i], svc, decls) && owed_by(
                m,
                svc,
                decls,
                match txn {
                    Some(t) => Some(t.id),
                    None => None,
                },
                e,
            ),
    }
}

/// Adding to the end of a list.
proof fn lemma_push<A>(s: Seq<A>, a: A, x: A)
    ensures
        s.push(a).contains(x) <==> s.contains(x) || x == a,
{
    let p = s.push(a);
    if s.contains(x) {
        let i = choose|i: int| 0 <= i < s.len() && s[i] == x;
        assert(p[i] == x);
    }
    assert(p[s.len() as int] == a);
}

/// Joining lists.
proof fn lemma_join<A>(s: Seq<A>, t: Seq<A>, x: A)
    ensures
        (s + t).contains(x) <==> s.contains(x) || t.contains(x),
{
    let p = s + t;
    if s.contains(x) {
        let i = choose|i: int| 0 <= i < s.len() && s[i] == x;
        assert(p[i] == x);
    }
    if t.contains(x) {
        let i = choose|i: int| 0 <= i < t.len() && t[i] == x;
        assert(p[s.len() + i] == x);
    }
}

/// What follows at a running service.
proof fn lemma_notices(svc: Symbol, decls: Seq<DeclV>, e: EffectV)
    ensures
        effects::notices(svc, decls).contains(e) <==> match e {
            EffectV::Recompute { service, name } => service == svc && defined_in(decls, name),
            EffectV::Propagate { service, name } => service == svc && revalued_in(decls, name),
            _ => false,
        },
    decreases decls.len(),
{
    if decls.len() > 0 {
        let rest = decls.drop_last();
        let before = effects::notices(svc, rest);
        let n = decls.len() - 1;
        lemma_notices(svc, rest, e);
        assert forall|x: Symbol| #[trigger] revalued_in(decls, x) <==> revalued_in(rest, x)
            || revalues(decls[n], x) by {
            if revalued_in(rest, x) {
                let k = choose|k: int| 0 <= k < rest.len() && revalues(#[trigger] rest[k], x);
                assert(revalues(decls[k], x));
            }
            if revalued_in(decls, x) && !revalues(decls[n], x) {
                let k = choose|k: int| 0 <= k < decls.len() && revalues(#[trigger] decls[k], x);
                assert(revalues(rest[k], x));
            }
        }
        assert forall|x: Symbol| #[trigger] defined_in(decls, x) <==> defined_in(rest, x) || (
        decls[n] is DefDecl && revalues(decls[n], x)) by {
            if defined_in(rest, x) {
                let k = choose|k: int|
                    0 <= k < rest.len() && (#[trigger] rest[k]) is DefDecl && revalues(rest[k], x);
                assert(decls[k] is DefDecl && revalues(decls[k], x));
            }
            if defined_in(decls, x) && !(decls[n] is DefDecl && revalues(decls[n], x)) {
                let k = choose|k: int|
                    0 <= k < decls.len() && (#[trigger] decls[k]) is DefDecl && revalues(
                        decls[k],
                        x,
                    );
                assert(rest[k] is DefDecl && revalues(rest[k], x));
            }
        }
        match decls.last() {
            DeclV::VarDecl { name, .. } => {
                lemma_push(before, EffectV::Propagate { service: svc, name }, e);
            },
            DeclV::DefDecl { name, .. } => {
                let first = EffectV::Recompute { service: svc, name };
                lemma_push(before, first, e);
                lemma_push(before.push(first), EffectV::Propagate { service: svc, name }, e);
            },
            DeclV::TableDecl { .. } => {},
        }
    }
}

/// What follows from the update of a service.
proof fn lemma_consequences(
    m: ManagerV,
    svc: Symbol,
    decls: Seq<DeclV>,
    id: Option<TxnId>,
    e: EffectV,
)
    ensures
        effects::consequences(m, svc, decls, id).contains(e) <==> owed_by(m, svc, decls, id, e),
{
    let here = if m.services.dom().contains(svc) {
        effects::notices(svc, decls)
    } else {
        Seq::empty()
    };
    let there = if m.remote.dom().contains(svc) {
        seq![effects::remote_update(m, svc, decls, id)]
    } else {
        Seq::empty()
    };
    lemma_notices(svc, decls, e);
    lemma_join(here, there, e);
    if m.remote.dom().contains(svc) {
        assert(there[0] == effects::remote_update(m, svc, decls, id));
    }
}

/// A statement is about at most one service.
proof fn lemma_about(s: StmtV, svc: Symbol, decls: Seq<DeclV>)
    ensures
        is_about(s, svc, decls) <==> patch::block_of(s) == Some((svc, decls)),
{
}

/// What follows from updates.
proof fn lemma_all(
    m: ManagerV,
    updates: Seq<StmtV>,
    id: Option<TxnId>,
    e: EffectV,
)
    ensures
        effects::all_consequences(m, updates, id).contains(e) <==> exists|
            i: int,
            svc: Symbol,
            decls: Seq<DeclV>,
        |
            0 <= i < updates.len() && #[trigger] is_about(updates[i], svc, decls) && owed_by(
                m,
                svc,
                decls,
                id,
                e,
            ),
    decreases updates.len(),
{
    if updates.len() > 0 {
        let rest = updates.drop_last();
        let n = updates.len() - 1;
        let before = effects::all_consequences(m, rest, id);
        lemma_all(m, rest, id, e);
        if before.contains(e) {
            let (i, svc, decls) = choose|i: int, svc: Symbol, decls: Seq<DeclV>|
                0 <= i < rest.len() && #[trigger] is_about(rest[i], svc, decls) && owed_by(
                    m,
                    svc,
                    decls,
                    id,
                    e,
                );
            assert(is_about(updates[i], svc, decls));
        }
        assert forall|i: int, svc: Symbol, decls: Seq<DeclV>|
            0 <= i < n && #[trigger] is_about(updates[i], svc, decls) && owed_by(
                m,
                svc,
                decls,
                id,
                e,
            ) implies before.contains(e) by {
            assert(is_about(rest[i], svc, decls));
        }
        match patch::block_of(updates.last()) {
            Some((svc, decls)) => {
                lemma_consequences(m, svc, decls, id, e);
                lemma_join(before, effects::consequences(m, svc, decls, id), e);
                assert(is_about(updates[n], svc, decls));
            },
            None => {},
        }
    }
}

/// The services that updates are about.
proof fn lemma_services(updates: Seq<StmtV>, svc: Symbol)
    ensures
        effects::updated_services(updates).contains(svc) <==> exists|i: int, decls: Seq<DeclV>|
            0 <= i < updates.len() && #[trigger] is_about(updates[i], svc, decls),
    decreases updates.len(),
{
    if updates.len() > 0 {
        let rest = updates.drop_last();
        let n = updates.len() - 1;
        let before = effects::updated_services(rest);
        lemma_services(rest, svc);
        if before.contains(svc) {
            let (i, decls) = choose|i: int, decls: Seq<DeclV>|
                0 <= i < rest.len() && #[trigger] is_about(rest[i], svc, decls);
            assert(is_about(updates[i], svc, decls));
        }
        assert forall|i: int, decls: Seq<DeclV>|
            0 <= i < n && #[trigger] is_about(updates[i], svc, decls) implies before.contains(
            svc,
        ) by {
            assert(is_about(rest[i], svc, decls));
        }
        if let Some((s, decls)) = patch::block_of(updates.last()) {
            lemma_push(before, s, svc);
            assert(is_about(updates[n], s, decls));
        }
    }
}

/// Once updates took effect, exactly this is done: every service that they are about is connected
/// anew; every definition that they declare at a running service is computed anew, and who depends
/// on it or on a variable that they declare is told; each service that runs elsewhere is updated
/// there, under the same transaction; and every other node that holds locks commits.
pub proof fn all_that_is_owed_is_done(
    m: ManagerV,
    updates: Seq<StmtV>,
    txn: Option<LockTxnV>,
    e: EffectV,
)
    ensures
        effects::effects(m, updates, txn).contains(e) <==> owed(m, updates, txn, e),
{
    let services = effects::updated_services(updates);
    let first = effects::rewirings(services);
    let second = effects::all_consequences(m, updates, effects::id_of(txn));
    let third = effects::commits(txn);
    lemma_join(first + second, third, e);
    lemma_join(first, second, e);
    lemma_all(m, updates, effects::id_of(txn), e);
    if let EffectV::Rewire { service } = e {
        lemma_services(updates, service);
        if services.contains(service) {
            let i = choose|i: int| 0 <= i < services.len() && services[i] == service;
            assert(first[i] == e);
        }
    }
    if first.contains(e) {
        let i = choose|i: int| 0 <= i < first.len() && first[i] == e;
        assert(e == EffectV::Rewire { service: services[i] });
        assert(services.contains(services[i]));
    }
    if let Some(t) = txn {
        if let EffectV::SendCommit { address, id } = e {
            if id == t.id && t.participants.contains(address) {
                let i = choose|i: int| 0 <= i < t.participants.len() && t.participants[i] == address;
                assert(third[i] == e);
            }
        }
        if third.contains(e) {
            let i = choose|i: int| 0 <= i < third.len() && third[i] == e;
            assert(e == EffectV::SendCommit { address: t.participants[i], id: t.id });
            assert(t.participants.contains(t.participants[i]));
        }
    }
}

/// Nobody is told of a definition before it is computed anew.
proof fn lemma_notices_order(svc: Symbol, decls: Seq<DeclV>, p: int)
    requires
        0 <= p < effects::notices(svc, decls).len(),
        effects::notices(svc, decls)[p] is Recompute,
    ensures
        p + 1 < effects::notices(svc, decls).len(),
        effects::notices(svc, decls)[p + 1] == (EffectV::Propagate {
            service: svc,
            name: effects::notices(svc, decls)[p]->Recompute_name,
        }),
        effects::notices(svc, decls)[p]->Recompute_service == svc,
    decreases decls.len(),
{
    if decls.len() > 0 {
        let before = effects::notices(svc, decls.drop_last());
        if p < before.len() {
            lemma_notices_order(svc, decls.drop_last(), p);
        }
    }
}

/// Among what follows from updates nothing is told of a definition before it is computed.
proof fn lemma_all_order(m: ManagerV, updates: Seq<StmtV>, id: Option<TxnId>, p: int)
    requires
        0 <= p < effects::all_consequences(m, updates, id).len(),
    ensures
        effects::all_consequences(m, updates, id)[p] !is Rewire,
        effects::all_consequences(m, updates, id)[p] !is SendCommit,
        effects::all_consequences(m, updates, id)[p] matches EffectV::Recompute { service, name }
            ==> p + 1 < effects::all_consequences(m, updates, id).len()
            && effects::all_consequences(m, updates, id)[p + 1] == (EffectV::Propagate {
            service,
            name,
        }),
    decreases updates.len(),
{
    if updates.len() > 0 {
        let before = effects::all_consequences(m, updates.drop_last(), id);
        if p < before.len() {
            lemma_all_order(m, updates.drop_last(), id, p);
        } else if let Some((svc, decls)) = patch::block_of(updates.last()) {
            let more = effects::consequences(m, svc, decls, id);
            let q = p - before.len();
            lemma_consequences(m, svc, decls, id, more[q]);
            assert(more.contains(more[q]));
            if more[q] is Recompute {
                assert(effects::notices(svc, decls)[q] == more[q]);
                lemma_notices_order(svc, decls, q);
                assert(more[q + 1] == effects::notices(svc, decls)[q + 1]);
            }
        }
    }
}

/// Services are connected anew before anybody is told, who depends on a definition is told right
/// after it was computed, and the other nodes commit when all else is done.
pub proof fn what_is_owed_is_done_in_order(
    m: ManagerV,
    updates: Seq<StmtV>,
    txn: Option<LockTxnV>,
    p: int,
    q: int,
)
    requires
        0 <= p < q < effects::effects(m, updates, txn).len(),
    ensures
        effects::effects(m, updates, txn)[q] is Rewire ==> effects::effects(
            m,
            updates,
            txn,
        )[p] is Rewire,
        effects::effects(m, updates, txn)[p] is SendCommit ==> effects::effects(
            m,
            updates,
            txn,
        )[q] is SendCommit,
        effects::effects(m, updates, txn)[p] matches EffectV::Recompute { service, name }
            ==> effects::effects(m, updates, txn)[p + 1] == (EffectV::Propagate { service, name }),
{
    let first = effects::rewirings(effects::updated_services(updates));
    let second = effects::all_consequences(m, updates, effects::id_of(txn));
    let a = first.len();
    if a <= p < a + second.len() {
        lemma_all_order(m, updates, effects::id_of(txn), p - a);
    }
    if a <= q < a + second.len() {
        lemma_all_order(m, updates, effects::id_of(txn), q - a);
    }
}

} // verus!
