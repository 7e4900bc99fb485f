//! Making an update take effect.

use vstd::prelude::*;

use crate::net::types::TxnId;
use crate::runtime::ast;
use crate::runtime::ast::{Decl, DeclV, ExprV, Stmt, StmtV, Value, ValueV};
use crate::runtime::graphs::ServiceGraphs;
use crate::runtime::interner::Symbol;
use crate::runtime::interpreter::evaluator;
use crate::runtime::manager;
use crate::runtime::manager::{Manager, ManagerV, ServiceV};
use crate::runtime::tt::check;
use crate::runtime::tt::check::Known;
use crate::runtime::tt::flow::Flow;
use crate::runtime::tt::types;
use crate::runtime::tt::types::Member;
use crate::runtime::txn;
use crate::runtime::txn::{VarLock, VarLockV, VarState, VarStateV};

verus! {

broadcast use vstd::std_specs::hash::group_hash_axioms;

/// The lock of a variable after the transaction that takes effect let go of it.
pub open spec fn lock_left(lock: VarLockV, id: Option<TxnId>) -> VarLockV {
    match id {
        Some(own) => txn::let_go(lock, own),
        None => lock,
    }
}

/// Who holds a service after the transaction that takes effect let go of it.
pub open spec fn holder_left(holder: Option<TxnId>, id: Option<TxnId>) -> Option<TxnId> {
    if holder == id {
        None
    } else {
        holder
    }
}

/// A variable that is given a value. The transaction that gives it no longer holds it.
pub open spec fn revalued(s: ServiceV, x: Symbol, v: ValueV, id: Option<TxnId>) -> VarStateV {
    if s.vars.dom().contains(x) {
        VarStateV { value: v, lock: lock_left(s.vars[x].lock, id), ..s.vars[x] }
    } else {
        VarStateV { value: v, lock: VarLockV::Unlocked, latest_write_txn: None }
    }
}

/// A node after a member of a running service was given a value.
pub open spec fn value_stored(
    m: ManagerV,
    at: Member,
    v: ValueV,
    id: Option<TxnId>,
) -> ManagerV {
    if m.services.dom().contains(at.0) {
        let s = m.services[at.0];
        manager::with_service(m, at.0, manager::with_var(s, at.1, revalued(s, at.1, v, id)))
    } else {
        m
    }
}

/// A node after members were given values, one after another.
pub open spec fn values_stored(
    m: ManagerV,
    values: Seq<(Member, ValueV)>,
    id: Option<TxnId>,
) -> ManagerV
    decreases values.len(),
{
    if values.len() == 0 {
        m
    } else {
        value_stored(
            values_stored(m, values.drop_last(), id),
            values.last().0,
            values.last().1,
            id,
        )
    }
}

/// Expressions of definitions after those of the declarations were put in.
pub open spec fn with_defs(defs: Map<Symbol, ExprV>, decls: Seq<DeclV>) -> Map<Symbol, ExprV>
    decreases decls.len(),
{
    if decls.len() == 0 {
        defs
    } else {
        match decls.last() {
            DeclV::DefDecl { name, val, .. } => with_defs(defs, decls.drop_last()).insert(
                name,
                val,
            ),
            _ => with_defs(defs, decls.drop_last()),
        }
    }
}

/// A node after a running service got the definitions of these declarations.
pub open spec fn defs_stored(m: ManagerV, svc: Symbol, decls: Seq<DeclV>) -> ManagerV {
    if m.services.dom().contains(svc) {
        let s = m.services[svc];
        manager::with_service(m, svc, ServiceV { defs: with_defs(s.defs, decls), ..s })
    } else {
        m
    }
}

/// A node after its running services got the definitions of a program.
pub open spec fn program_stored(m: ManagerV, prog: Seq<StmtV>) -> ManagerV
    decreases prog.len(),
{
    if prog.len() == 0 {
        m
    } else {
        let before = program_stored(m, prog.drop_last());
        match prog.last() {
            StmtV::Service { name, decls } => defs_stored(before, name, decls),
            _ => before,
        }
    }
}

/// A service that got its graphs. The transaction that takes effect no longer holds it.
pub open spec fn with_graphs(s: ServiceV, graphs: ServiceGraphs, id: Option<TxnId>) -> ServiceV {
    ServiceV { graphs, service_lock: holder_left(s.service_lock, id), ..s }
}

/// A node after running services got their graphs.
pub open spec fn graphs_stored(
    m: ManagerV,
    deps: Seq<(Symbol, ServiceGraphs)>,
    id: Option<TxnId>,
) -> ManagerV
    decreases deps.len(),
{
    if deps.len() == 0 {
        m
    } else {
        let before = graphs_stored(m, deps.drop_last(), id);
        let (svc, graphs) = deps.last();
        if before.services.dom().contains(svc) {
            manager::with_service(before, svc, with_graphs(before.services[svc], graphs, id))
        } else {
            before
        }
    }
}

/// A node after an update took effect, that of the transaction `id` where it has a number.
pub open spec fn committed(
    m: ManagerV,
    id: Option<TxnId>,
    prog: Seq<StmtV>,
    known: Known,
    values: Seq<(Member, ValueV)>,
    deps: Seq<(Symbol, ServiceGraphs)>,
) -> ManagerV {
    graphs_stored(
        program_stored(
            values_stored(ManagerV { ast: prog, types: known, ..m }, values, id),
            prog,
        ),
        deps,
        id,
    )
}

/// The lock of a variable that was given a value.
pub open spec fn lock_after(s: ServiceV, x: Symbol, id: Option<TxnId>) -> VarLockV {
    if s.vars.dom().contains(x) {
        lock_left(s.vars[x].lock, id)
    } else {
        VarLockV::Unlocked
    }
}

/// What storing values does to the services.
proof fn lemma_values_stored(
    m: ManagerV,
    values: Seq<(Member, ValueV)>,
    id: Option<TxnId>,
    svc: Symbol,
    x: Symbol,
)
    ensures
        values_stored(m, values, id) == (ManagerV {
            services: values_stored(m, values, id).services,
            ..m
        }),
        values_stored(m, values, id).services.dom() == m.services.dom(),
        m.services.dom().contains(svc) ==> {
            let before = m.services[svc];
            let after = values_stored(m, values, id).services[svc];
            &&& after == (ServiceV { vars: after.vars, ..before })
            &&& match evaluator::fetched_value(values, (svc, x)) {
                Some(v) => after.vars.dom().contains(x) && after.vars[x].value == v
                    && after.vars[x].lock == lock_after(before, x, id),
                None => after.vars.dom().contains(x) == before.vars.dom().contains(x)
                    && after.vars[x] == before.vars[x],
            }
        },
    decreases values.len(),
{
    if values.len() > 0 {
        lemma_values_stored(m, values.drop_last(), id, svc, x);
        assert(values_stored(m, values, id).services.dom() =~= m.services.dom());
        if let Some(own) = id {
            if m.services.dom().contains(svc) && m.services[svc].vars.dom().contains(x) {
                txn::lemma_let_go_twice(m.services[svc].vars[x].lock, own);
            }
            txn::lemma_let_go_twice(VarLockV::Unlocked, own);
        }
    }
}

/// Storing definitions keeps which services run, and their variables.
proof fn lemma_program_stored(m: ManagerV, prog: Seq<StmtV>, svc: Symbol)
    ensures
        program_stored(m, prog) == (ManagerV {
            services: program_stored(m, prog).services,
            ..m
        }),
        program_stored(m, prog).services.dom() == m.services.dom(),
        m.services.dom().contains(svc) ==> program_stored(m, prog).services[svc] == (ServiceV {
            defs: program_stored(m, prog).services[svc].defs,
            ..m.services[svc]
        }),
    decreases prog.len(),
{
    if prog.len() > 0 {
        lemma_program_stored(m, prog.drop_last(), svc);
        assert(program_stored(m, prog).services.dom() =~= m.services.dom());
    }
}

/// Storing graphs keeps which services run, their variables and definitions, and who else holds
/// them.
proof fn lemma_graphs_stored(
    m: ManagerV,
    deps: Seq<(Symbol, ServiceGraphs)>,
    id: Option<TxnId>,
    svc: Symbol,
)
    ensures
        graphs_stored(m, deps, id) == (ManagerV {
            services: graphs_stored(m, deps, id).services,
            ..m
        }),
        graphs_stored(m, deps, id).services.dom() == m.services.dom(),
        m.services.dom().contains(svc) ==> {
            let before = m.services[svc];
            let after = graphs_stored(m, deps, id).services[svc];
            &&& after.vars == before.vars
            &&& after.defs == before.defs
            &&& after.service_lock == before.service_lock || (before.service_lock == id
                && after.service_lock is None)
        },
    decreases deps.len(),
{
    if deps.len() > 0 {
        lemma_graphs_stored(m, deps.drop_last(), id, svc);
        assert(graphs_stored(m, deps, id).services.dom() =~= m.services.dom());
    }
}

/// An update that takes effect starts and stops no service, gives every member its newest value,
/// and leaves every other variable as it was. It lets go of what its own transaction holds, and of
/// nothing else.
pub proof fn commit_changes_only_updated_members(
    m: ManagerV,
    id: Option<TxnId>,
    prog: Seq<StmtV>,
    known: Known,
    values: Seq<(Member, ValueV)>,
    deps: Seq<(Symbol, ServiceGraphs)>,
    svc: Symbol,
    x: Symbol,
)
    ensures
        committed(m, id, prog, known, values, deps).services.dom() == m.services.dom(),
        committed(m, id, prog, known, values, deps).ast == prog,
        committed(m, id, prog, known, values, deps).types == known,
        committed(m, id, prog, known, values, deps).remote == m.remote,
        committed(m, id, prog, known, values, deps).names == m.names,
        m.services.dom().contains(svc) ==> {
            let before = m.services[svc];
            let after = committed(m, id, prog, known, values, deps).services[svc];
            &&& match evaluator::fetched_value(values, (svc, x)) {
                Some(v) => after.vars.dom().contains(x) && after.vars[x].value == v
                    && after.vars[x].lock == lock_after(before, x, id),
                None => after.vars.dom().contains(x) == before.vars.dom().contains(x)
                    && after.vars[x] == before.vars[x],
            }
            &&& before.service_lock != id ==> after.service_lock == before.service_lock
        },
{
    let start = ManagerV { ast: prog, types: known, ..m };
    lemma_values_stored(start, values, id, svc, x);
    let mid = values_stored(start, values, id);
    lemma_program_stored(mid, prog, svc);
    lemma_graphs_stored(program_stored(mid, prog), deps, id, svc);
}

/// Taking effect takes no lock away from another transaction: a service or a variable that
/// another one holds is held by it afterwards.
pub proof fn commit_keeps_locks_of_others(
    m: ManagerV,
    id: Option<TxnId>,
    prog: Seq<StmtV>,
    known: Known,
    values: Seq<(Member, ValueV)>,
    deps: Seq<(Symbol, ServiceGraphs)>,
    svc: Symbol,
    x: Symbol,
    other: TxnId,
)
    requires
        m.services.dom().contains(svc),
        id != Some(other),
    ensures
        ({
            let before = m.services[svc];
            let after = committed(m, id, prog, known, values, deps).services[svc];
            &&& before.service_lock == Some(other) ==> after.service_lock == Some(other)
            &&& before.vars.dom().contains(x) && txn::holds(before.vars[x].lock, other)
                ==> txn::holds(after.vars[x].lock, other)
        }),
{
    commit_changes_only_updated_members(m, id, prog, known, values, deps, svc, x);
    let lock = m.services[svc].vars[x].lock;
    if id is Some && txn::holds(lock, other) {
        txn::lemma_others_hold(lock, id->0, other);
    }
}

/// Give a member of a running service a value.
fn store_value(manager: &mut Manager, at: Member, v: Value, id: Option<TxnId>)
    ensures
        final(manager)@ == value_stored(old(manager)@, at, v@, id),
{
    let ghost before = manager@;
    match manager.services.remove(&at.0) {
        None => {
            assert(manager@.services =~= before.services);
        },
        Some(s) => {
            let mut s = s;
            let ghost s0 = s@;
            let ghost value = v@;
            let state = match s.vars.remove(&at.1) {
                Some(before_state) => {
                    let VarState { lock, latest_write_txn, .. } = before_state;
                    let lock = match id {
                        Some(own) => lock.release(own),
                        None => lock,
                    };
                    VarState { value: v, lock, latest_write_txn }
                },
                None => VarState { value: v, lock: VarLock::Unlocked, latest_write_txn: None },
            };
            s.vars.insert(at.1, state);
            assert(s@.vars =~= s0.vars.insert(at.1, revalued(s0, at.1, value, id)));
            manager.services.insert(at.0, s);
            assert(manager@.services =~= value_stored(before, at, value, id).services);
        },
    }
}

/// Put the definitions of declarations into a running service.
fn store_defs(manager: &mut Manager, svc: Symbol, decls: &Vec<Decl>)
    ensures
        final(manager)@ == defs_stored(old(manager)@, svc, types::views(decls@)),
{
    let ghost before = manager@;
    let ghost ds = types::views(decls@);
    match manager.services.remove(&svc) {
        None => {
            assert(manager@.services =~= before.services);
        },
        Some(s) => {
            let mut s = s;
            let ghost s0 = s@;
            let mut i: usize = 0;
            assert(s@.defs =~= with_defs(s0.defs, ds.take(0)));
            while i < decls.len()
                invariant
                    i <= decls@.len(),
                    ds == types::views(decls@),
                    s@ == (ServiceV { defs: with_defs(s0.defs, ds.take(i as int)), ..s0 }),
                decreases decls@.len() - i,
            {
                assert(ds.take(i + 1).drop_last() =~= ds.take(i as int));
                assert(ds.take(i + 1).last() == decls@[i as int]@);
                if let Decl::DefDecl { name, val, .. } = &decls[i] {
                    let ghost start = s@.defs;
                    s.defs.insert(*name, val.clone());
                    assert(s@.defs =~= start.insert(*name, val@));
                }
                i += 1;
            }
            assert(ds.take(i as int) =~= ds);
            manager.services.insert(svc, s);
            assert(manager@.services =~= defs_stored(before, svc, ds).services);
        },
    }
}

/// Give a running service its graphs.
fn store_graphs(manager: &mut Manager, svc: Symbol, graphs: ServiceGraphs, id: Option<TxnId>)
    ensures
        final(manager)@ == (if old(manager)@.services.dom().contains(svc) {
            manager::with_service(
                old(manager)@,
                svc,
                with_graphs(old(manager)@.services[svc], graphs, id),
            )
        } else {
            old(manager)@
        }),
{
    let ghost before = manager@;
    match manager.services.remove(&svc) {
        None => {
            assert(manager@.services =~= before.services);
        },
        Some(s) => {
            let mut s = s;
            s.graphs = graphs;
            if s.service_lock == id {
                s.service_lock = None;
            }
            manager.services.insert(svc, s);
            assert(manager@.services =~= before.services.insert(
                svc,
                with_graphs(before.services[svc], graphs, id),
            ));
        },
    }
}

/// Make an update take effect: the program and its types, the values of its variables, its
/// definitions, and who is told of which change. The transaction lets go of what it holds there.
pub fn commit_update(
    manager: &mut Manager,
    id: Option<TxnId>,
    program: Vec<Stmt>,
    known: Vec<(Member, Flow)>,
    values: Vec<(Member, Value)>,
    deps: Vec<(Symbol, ServiceGraphs)>,
)
    ensures
        final(manager)@ == committed(
            old(manager)@,
            id,
            types::views(program@),
            check::known_view(known@),
            evaluator::fetched_view(values@),
            deps@,
        ),
{
    let ghost prog = types::views(program@);
    let ghost vs = evaluator::fetched_view(values@);
    let ghost start = ManagerV { ast: prog, types: check::known_view(known@), ..manager@ };
    manager.local_services = known;
    let mut i: usize = 0;
    assert(vs.take(0) =~= Seq::<(Member, ValueV)>::empty());
    let ghost old_ast = manager@.ast;
    while i < values.len()
        invariant
            i <= values@.len(),
            vs == evaluator::fetched_view(values@),
            manager@ == (ManagerV {
                ast: old_ast,
                ..values_stored(start, vs.take(i as int), id)
            }),
        decreases values@.len() - i,
    {
        assert(vs.take(i + 1).drop_last() =~= vs.take(i as int));
        assert(vs.take(i + 1).last() == (values@[i as int].0, values@[i as int].1@));
        store_value(manager, values[i].0, values[i].1.clone(), id);
        i += 1;
    }
    assert(vs.take(i as int) =~= vs);
    let ghost mid = values_stored(start, vs, id);
    let mut j: usize = 0;
    assert(prog.take(0) =~= Seq::<StmtV>::empty());
    while j < program.len()
        invariant
            j <= program@.len(),
            prog == types::views(program@),
            manager@ == (ManagerV { ast: old_ast, ..program_stored(mid, prog.take(j as int)) }),
        decreases program@.len() - j,
    {
        assert(prog.take(j + 1).drop_last() =~= prog.take(j as int));
        assert(prog.take(j + 1).last() == program@[j as int]@);
        proof {
            ast::lemma_stmt_view(program@[j as int]);
        }
        if let Stmt::Service { name, decls } = &program[j] {
            store_defs(manager, *name, decls);
        }
        j += 1;
    }
    assert(prog.take(j as int) =~= prog);
    manager.unified_ast = program;
    let ghost stored = program_stored(mid, prog);
    proof {
        lemma_values_stored(start, vs, id, 0, 0);
        lemma_program_stored(mid, prog, 0);
    }
    let ghost all = deps@;
    let mut deps = deps;
    let ghost mut k: int = 0;
    assert(all.take(0) =~= Seq::<(Symbol, ServiceGraphs)>::empty());
    while deps.len() > 0
        invariant
            0 <= k <= all.len(),
            deps@ == all.skip(k),
            manager@ == graphs_stored(stored, all.take(k), id),
        decreases deps@.len(),
    {
        assert(all.take(k + 1).drop_last() =~= all.take(k));
        assert(all.take(k + 1).last() == all[k]);
        let (svc, graphs) = deps.remove(0);
        assert(all.skip(k)[0] == all[k]);
        store_graphs(manager, svc, graphs, id);
        proof {
            k = k + 1;
        }
        assert(deps@ =~= all.skip(k));
    }
    assert(all.take(k) =~= all);
}

} // verus!
