//! What a node is like once an update took effect there.

use vstd::prelude::*;

use crate::net::types::TxnId;
use crate::runtime::ast;
use crate::runtime::ast::{DeclV, StmtV, ValueV};
use crate::runtime::graphs::analysis;
use crate::runtime::graphs::ServiceGraphs;
use crate::runtime::interner::Symbol;
use crate::runtime::interpreter::evaluator::EvalErrorV;
use crate::runtime::manager;
use crate::runtime::manager::ManagerV;
use crate::runtime::nameres;
use crate::runtime::tt::check;
use crate::runtime::tt::types::Member;
use crate::runtime::txn;
use crate::runtime::update::commit;
use crate::runtime::update::effects::EffectV;
use crate::runtime::update::needs;
use crate::runtime::update::patch;
use crate::runtime::update::run;
use crate::runtime::update::transaction;
use crate::runtime::update::transaction::TransactionV;

verus! {

/// Whether the last service of a name in a program has these declarations.
pub open spec fn last_service(prog: Seq<StmtV>, svc: Symbol, decls: Seq<DeclV>) -> bool {
    exists|k: int|
        0 <= k < prog.len() && #[trigger] prog[k] == (StmtV::Service { name: svc, decls })
            && forall|l: int|
            k < l < prog.len() ==> !((#[trigger] prog[l]) is Service && prog[l]->Service_name
                == svc)
}

/// Whether the last entry of a service in a list is this one.
spec fn last_entry<A>(list: Seq<(Symbol, A)>, svc: Symbol, a: A) -> bool {
    exists|j: int|
        0 <= j < list.len() && #[trigger] list[j] == (svc, a) && forall|l: int|
            j < l < list.len() ==> (#[trigger] list[l]).0 != svc
}

/// The last service of a name is the last of its name among the services.
proof fn lemma_services(prog: Seq<StmtV>, svc: Symbol, decls: Seq<DeclV>)
    requires
        last_service(prog, svc, decls),
    ensures
        last_entry(ast::services(prog), svc, decls),
    decreases prog.len(),
{
    let k = choose|k: int|
        0 <= k < prog.len() && #[trigger] prog[k] == (StmtV::Service { name: svc, decls })
            && forall|l: int|
            k < l < prog.len() ==> !((#[trigger] prog[l]) is Service && prog[l]->Service_name
                == svc);
    let rest = prog.drop_last();
    let n = prog.len() - 1;
    let before = ast::services(rest);
    let all = ast::services(prog);
    if k == n {
        assert(all[before.len() as int] == (svc, decls));
    } else {
        assert(rest[k] == prog[k]);
        assert forall|l: int| k < l < rest.len() implies !((#[trigger] rest[l]) is Service
            && rest[l]->Service_name == svc) by {
            assert(rest[l] == prog[l]);
        }
        lemma_services(rest, svc, decls);
        let j = choose|j: int|
            0 <= j < before.len() && #[trigger] before[j] == (svc, decls) && forall|l: int|
                j < l < before.len() ==> (#[trigger] before[l]).0 != svc;
        assert(!(prog[n] is Service && prog[n]->Service_name == svc));
        assert(all[j] == (svc, decls));
        assert forall|l: int| j < l < all.len() implies (#[trigger] all[l]).0 != svc by {
            if l < before.len() {
                assert(all[l] == before[l]);
            }
        }
    }
}

/// A running service has the graphs that were stored last.
proof fn lemma_graphs(
    m: ManagerV,
    deps: Seq<(Symbol, ServiceGraphs)>,
    id: Option<TxnId>,
    svc: Symbol,
    g: ServiceGraphs,
)
    requires
        last_entry(deps, svc, g),
        m.services.contains_key(svc),
    ensures
        commit::graphs_stored(m, deps, id).services[svc].graphs == g,
    decreases deps.len(),
{
    let j = choose|j: int|
        0 <= j < deps.len() && #[trigger] deps[j] == (svc, g) && forall|l: int|
            j < l < deps.len() ==> (#[trigger] deps[l]).0 != svc;
    let rest = deps.drop_last();
    let n = deps.len() - 1;
    lemma_runs(m, rest, id, svc);
    if j < n {
        assert(rest[j] == deps[j]);
        assert forall|l: int| j < l < rest.len() implies (#[trigger] rest[l]).0 != svc by {
            assert(rest[l] == deps[l]);
        }
        lemma_graphs(m, rest, id, svc, g);
        assert(deps[n].0 != svc);
    }
}

/// Storing graphs starts and stops no service.
proof fn lemma_runs(
    m: ManagerV,
    deps: Seq<(Symbol, ServiceGraphs)>,
    id: Option<TxnId>,
    svc: Symbol,
)
    ensures
        commit::graphs_stored(m, deps, id).services.contains_key(svc) <==> m.services.contains_key(
            svc,
        ),
    decreases deps.len(),
{
    if deps.len() > 0 {
        lemma_runs(m, deps.drop_last(), id, svc);
    }
}

/// Locking changes nothing but locks.
proof fn lemma_locking_aside(m: ManagerV, id: TxnId, updates: Seq<StmtV>)
    ensures
        manager::lock_groups(m, needs::needed(m, updates), 0, id).0.services.dom()
            == m.services.dom(),
        manager::lock_groups(m, needs::needed(m, updates), 0, id).0.remote == m.remote,
        manager::lock_groups(m, needs::needed(m, updates), 0, id).0.names == m.names,
{
    let groups = needs::needed(m, updates);
    let locked = manager::lock_groups(m, groups, 0, id).0;
    manager::releasing_undoes_locking(m, groups, 0, id);
    assert(manager::released(locked, id).services.dom() =~= locked.services.dom());
    assert(manager::released(m, id).services.dom() =~= m.services.dom());
    assert(manager::released(locked, id).remote == locked.remote);
    assert(manager::released(locked, id).names == locked.names);
}

/// Once an update took effect, the program of the node is the one that it makes of the old one; all
/// its names are bound, and its types are those that the node knows. The same services run, each
/// with the graphs of its last declarations; other services are found where they were; and the
/// transaction holds nothing any more.
pub proof fn updates_leave_a_checked_program(
    t: TransactionV,
    m: ManagerV,
    fresh: TxnId,
    fetched: Seq<(Member, ValueV)>,
    m2: ManagerV,
    res: Result<Seq<EffectV>, EvalErrorV>,
    svc: Symbol,
    decls: Seq<DeclV>,
    x: Symbol,
)
    requires
        run::ran(t, m, fresh, fetched, m2, res),
        res is Ok,
    ensures
        patch::patched(m.ast, t.updates) == Ok::<Seq<StmtV>, Symbol>(m2.ast),
        nameres::bad_from(m2.ast, Seq::empty(), 0) is None,
        check::checked(m2.ast) == Ok::<check::Known, check::CheckErrorV>(m2.types),
        m2.remote == m.remote,
        m2.names == m.names,
        m2.services.contains_key(svc) <==> m.services.contains_key(svc),
        m.services.contains_key(svc) && last_service(m2.ast, svc, decls) ==> analysis::analyses(
            m2.services[svc].graphs,
            decls,
        ),
        m.services.contains_key(svc) ==> m2.services[svc].service_lock != Some(
            run::own_txn(t, fresh).id,
        ),
        m.services.contains_key(svc) && m2.services[svc].vars.contains_key(x) ==> !txn::holds(
            m2.services[svc].vars[x].lock,
            run::own_txn(t, fresh).id,
        ),
{
    let id = run::own_txn(t, fresh).id;
    let prog = patch::patched(m.ast, t.updates)->Ok_0;
    let known = check::checked(prog)->Ok_0;
    let values = run::computed(m, transaction::assignments(t.updates), fetched)->Ok_0;
    let deps = choose|deps: Seq<(Symbol, ServiceGraphs)>| #[trigger]
        transaction::graphs_of(prog, deps) && {
            let (after, es) = run::taken_effect(t, m, run::own_txn(t, fresh), prog, values, deps);
            m2 == after && res == Ok::<Seq<EffectV>, EvalErrorV>(es)
        };
    let locked = manager::lock_groups(m, needs::needed(m, t.updates), 0, id).0;
    let after = commit::committed(locked, Some(id), prog, known, values, deps);
    lemma_locking_aside(m, id, t.updates);
    commit::commit_changes_only_updated_members(
        locked,
        Some(id),
        prog,
        known,
        values,
        deps,
        svc,
        x,
    );
    assert(m2 == manager::released(after, id));
    assert(m2.services.dom() =~= after.services.dom());
    if m.services.contains_key(svc) {
        let s = after.services[svc];
        assert(m2.services[svc] == manager::service_released(s, id));
        assert(m2.services[svc].vars.dom() =~= s.vars.dom());
        if s.vars.contains_key(x) {
            let lock = s.vars[x].lock;
            assert(m2.services[svc].vars[x] == manager::var_released(s.vars[x], id));
            lemma_gone(lock, id);
        }
        if last_service(prog, svc, decls) {
            lemma_services(prog, svc, decls);
            let all = ast::services(prog);
            let j = choose|j: int|
                0 <= j < all.len() && #[trigger] all[j] == (svc, decls) && forall|l: int|
                    j < l < all.len() ==> (#[trigger] all[l]).0 != svc;
            assert(deps[j] == (svc, deps[j].1));
            assert forall|l: int| j < l < deps.len() implies (#[trigger] deps[l]).0 != svc by {
                assert(all[l].0 != svc);
            }
            let start = ManagerV { ast: prog, types: known, ..locked };
            let mid = commit::program_stored(commit::values_stored(start, values, Some(id)), prog);
            lemma_runs(mid, deps, Some(id), svc);
            lemma_graphs(mid, deps, Some(id), svc, deps[j].1);
        }
    }
}

/// Who let go of a variable does not hold it.
proof fn lemma_gone(lock: txn::VarLockV, id: TxnId)
    ensures
        !txn::holds(txn::let_go(lock, id), id),
{
    if let txn::VarLockV::ReadLocked(ids) = lock {
        let rest = ids.filter(txn::others(id));
        if rest.contains(id) {
            let i = choose|i: int| 0 <= i < rest.len() && rest[i] == id;
            ids.lemma_filter_pred(txn::others(id), i);
        }
    }
}

} // verus!
