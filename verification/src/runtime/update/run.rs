//! Running an update transaction on one node from its beginning to its end.

use vstd::prelude::*;

use crate::net::types::TxnId;
use crate::runtime::ast;
use crate::runtime::ast::{DeclV, ExprV, StmtV, Value, ValueV};
use crate::runtime::graphs::ServiceGraphs;
use crate::runtime::interner::Symbol;
use crate::runtime::interpreter::evaluator;
use crate::runtime::interpreter::evaluator::{ContextV, EvalError, EvalErrorV, Evaluated};
use crate::runtime::interpreter::locks;
use crate::runtime::lookup;
use crate::runtime::lookup::evaluate_in_service;
use crate::runtime::manager;
use crate::runtime::manager::{Manager, ManagerV};
use crate::runtime::tt::check;
use crate::runtime::tt::types;
use crate::runtime::tt::types::Member;
use crate::runtime::txn::LockTxnV;
use crate::runtime::update::changes;
use crate::runtime::update::commit;
use crate::runtime::update::definitions;
use crate::runtime::update::effects;
use crate::runtime::update::effects::{Effect, EffectV};
use crate::runtime::update::needs;
use crate::runtime::update::patch;
use crate::runtime::update::transaction;
use crate::runtime::update::transaction::{
    Action, ActionV, AssignmentV, Event, EventV, Transaction, TransactionState, TransactionV,
};

verus! {

broadcast use types::views_push;

/// The value that an assignment computes at a node.
pub open spec fn assigned(
    m: ManagerV,
    a: AssignmentV,
    fetched: Seq<(Member, ValueV)>,
) -> Evaluated {
    lookup::value_at(m, a.0, a.2, fetched)
}

/// The values that assignments compute at a node, one after another, or why the first that has
/// none has none.
pub open spec fn computed(
    m: ManagerV,
    todo: Seq<AssignmentV>,
    fetched: Seq<(Member, ValueV)>,
) -> Result<Seq<(Member, ValueV)>, EvalErrorV>
    decreases todo.len(),
{
    if todo.len() == 0 {
        Ok(Seq::empty())
    } else {
        match computed(m, todo.drop_last(), fetched) {
            Err(e) => Err(e),
            Ok(values) => match assigned(m, todo.last(), fetched) {
                Err(e) => Err(e),
                Ok(v) => Ok(values.push(((todo.last().0, todo.last().1), v))),
            },
        }
    }
}

/// The transaction that an update takes its locks under.
pub open spec fn own_txn(t: TransactionV, fresh: TxnId) -> LockTxnV {
    match t.lock_txn {
        Some(txn) => txn,
        None => LockTxnV { id: fresh, participants: Seq::empty() },
    }
}

/// A node after the update `t` took effect there and let go of its locks, with `deps` as the graphs
/// of the changed program; and what is still to be done.
pub open spec fn taken_effect(
    t: TransactionV,
    m: ManagerV,
    txn: LockTxnV,
    prog: Seq<StmtV>,
    values: Seq<(Member, ValueV)>,
    deps: Seq<(Symbol, ServiceGraphs)>,
) -> (ManagerV, Seq<EffectV>) {
    let locked = manager::lock_groups(m, needs::needed(m, t.updates), 0, txn.id).0;
    let after = commit::committed(
        locked,
        Some(txn.id),
        prog,
        check::checked(prog)->Ok_0,
        values,
        deps,
    );
    (manager::released(after, txn.id), effects::effects(after, t.updates, Some(txn)))
}

/// Why an update that changes no table fails at a node, where it does: a lock is held by another
/// transaction, the service is missing, the changed program is wrong, or a value cannot be
/// computed.
pub open spec fn failing(
    t: TransactionV,
    m: ManagerV,
    id: TxnId,
    fetched: Seq<(Member, ValueV)>,
) -> Option<EvalErrorV> {
    if manager::lock_groups(m, needs::needed(m, t.updates), 0, id).1 is Some {
        Some(transaction::conflict_error())
    } else {
        match patch::patched(m.ast, t.updates) {
            Err(svc) => Some(transaction::missing_error(svc, m.names)),
            Ok(prog) => match transaction::staging_error(prog, m.names) {
                Some(e) => Some(e),
                None => match computed(m, transaction::assignments(t.updates), fetched) {
                    Err(e) => Some(e),
                    Ok(_) => None,
                },
            },
        }
    }
}

/// How a transaction that has not begun ran at a node. A failure leaves the node as it was, without
/// what the transaction holds.
pub open spec fn ran(
    t: TransactionV,
    m: ManagerV,
    fresh: TxnId,
    fetched: Seq<(Member, ValueV)>,
    m2: ManagerV,
    res: Result<Seq<EffectV>, EvalErrorV>,
) -> bool {
    let txn = own_txn(t, fresh);
    if needs::declares_table(t.updates) {
        m2 == m && res == Err::<Seq<EffectV>, EvalErrorV>(EvalErrorV::NotImplemented)
    } else {
        match failing(t, m, txn.id, fetched) {
            Some(e) => {
                &&& m2 == manager::released(m, txn.id)
                &&& res == Err::<Seq<EffectV>, EvalErrorV>(e)
            },
            None => {
                let prog = patch::patched(m.ast, t.updates)->Ok_0;
                let values = computed(m, transaction::assignments(t.updates), fetched)->Ok_0;
                exists|deps: Seq<(Symbol, ServiceGraphs)>| #[trigger]
                    transaction::graphs_of(prog, deps) && {
                        let (after, es) = taken_effect(t, m, txn, prog, values, deps);
                        m2 == after && res == Ok::<Seq<EffectV>, EvalErrorV>(es)
                    }
            },
        }
    }
}

/// What a run gives.
pub open spec fn outcome(res: Result<Vec<Effect>, EvalError>) -> Result<Seq<EffectV>, EvalErrorV> {
    match res {
        Ok(es) => Ok(types::views(es@)),
        Err(e) => Err(e@),
    }
}

/// A transaction after its update took effect and its locks were let go.
pub open spec fn finished(t: TransactionV) -> TransactionV {
    let todo = transaction::assignments(t.updates);
    TransactionV {
        state: TransactionState::Evaluated,
        updates: t.updates,
        ast: Seq::empty(),
        types: Seq::empty(),
        values: Seq::empty(),
        deps: Seq::empty(),
        lock_txn: None,
        todo,
        next: todo.len() as int,
    }
}

/// Whether a transaction ended as it should: finished where it succeeded; else in order, and never
/// in effect.
pub open spec fn ended(t: TransactionV, t2: TransactionV, success: bool) -> bool {
    if success {
        t2 == finished(t)
    } else {
        &&& t2.state != TransactionState::Evaluated
        &&& t2.updates == t.updates
        &&& transaction::sound(t2)
    }
}

/// Whether an assignment is the last one for its variable.
pub open spec fn prevails(todo: Seq<AssignmentV>, i: int) -> bool {
    forall|j: int|
        i < j < todo.len() ==> ((#[trigger] todo[j]).0, todo[j].1) != (todo[i].0, todo[i].1)
}

/// Whether a variable is assigned.
pub open spec fn assigns(todo: Seq<AssignmentV>, svc: Symbol, x: Symbol) -> bool {
    exists|j: int| 0 <= j < todo.len() && (#[trigger] todo[j]).0 == svc && todo[j].1 == x
}

/// Whether the variables of the running services of `m` hold in `m2` what an update gives them:
/// one that is assigned has the value that its expression has at `m`, and every other one is as it
/// was, without what the transaction holds.
pub open spec fn holds_values(
    m: ManagerV,
    todo: Seq<AssignmentV>,
    fetched: Seq<(Member, ValueV)>,
    id: TxnId,
    m2: ManagerV,
) -> bool {
    &&& m2.services.dom() == m.services.dom()
    &&& forall|i: int|
        0 <= i < todo.len() && m.services.dom().contains((#[trigger] todo[i]).0) && prevails(
            todo,
            i,
        ) ==> {
            &&& m2.services[todo[i].0].vars.dom().contains(todo[i].1)
            &&& assigned(m, todo[i], fetched) == Ok::<ValueV, EvalErrorV>(
                m2.services[todo[i].0].vars[todo[i].1].value,
            )
        }
    &&& forall|svc: Symbol, x: Symbol|
        #![trigger m2.services[svc].vars[x]]
        m.services.dom().contains(svc) && !assigns(todo, svc, x) ==> {
            &&& m2.services[svc].vars.dom().contains(x) <==> m.services[svc].vars.dom().contains(x)
            &&& m.services[svc].vars.dom().contains(x) ==> m2.services[svc].vars[x]
                == manager::var_released(m.services[svc].vars[x], id)
        }
}

/// The values that assignments compute stand in the order of the assignments.
proof fn lemma_computed(m: ManagerV, todo: Seq<AssignmentV>, fetched: Seq<(Member, ValueV)>)
    ensures
        computed(m, todo, fetched) matches Ok(values) ==> {
            &&& values.len() == todo.len()
            &&& forall|i: int|
                0 <= i < todo.len() ==> (#[trigger] values[i]).0 == (todo[i].0, todo[i].1)
                    && assigned(m, todo[i], fetched) == Ok::<ValueV, EvalErrorV>(values[i].1)
        },
    decreases todo.len(),
{
    if todo.len() > 0 {
        lemma_computed(m, todo.drop_last(), fetched);
        if let Ok(values) = computed(m, todo, fetched) {
            assert forall|i: int| 0 <= i < todo.len() implies (#[trigger] values[i]).0 == (
                todo[i].0,
                todo[i].1,
            ) && assigned(m, todo[i], fetched) == Ok::<ValueV, EvalErrorV>(values[i].1) by {
                if i < todo.len() - 1 {
                    assert(todo.drop_last()[i] == todo[i]);
                    assert(values.drop_last()[i] == values[i]);
                    assert(computed(m, todo.drop_last(), fetched)->Ok_0 =~= values.drop_last());
                }
            }
        }
    }
}

/// What stops the first assignments stops all of them.
proof fn lemma_stopped(
    m: ManagerV,
    todo: Seq<AssignmentV>,
    k: int,
    fetched: Seq<(Member, ValueV)>,
)
    requires
        0 <= k <= todo.len(),
        computed(m, todo.take(k), fetched) is Err,
    ensures
        computed(m, todo, fetched) == computed(m, todo.take(k), fetched),
    decreases todo.len(),
{
    if k < todo.len() {
        assert(todo.drop_last().take(k) =~= todo.take(k));
        lemma_stopped(m, todo.drop_last(), k, fetched);
    } else {
        assert(todo.take(k) =~= todo);
    }
}

/// The newest of some values for a member.
proof fn lemma_newest(values: Seq<(Member, ValueV)>, i: int)
    requires
        0 <= i < values.len(),
        forall|j: int| i < j < values.len() ==> (#[trigger] values[j]).0 != values[i].0,
    ensures
        evaluator::fetched_value(values, values[i].0) == Some(values[i].1),
    decreases values.len(),
{
    if i < values.len() - 1 {
        assert(values.last() == values[values.len() - 1]);
        assert(values.drop_last()[i] == values[i]);
        assert forall|j: int| i < j < values.len() - 1 implies (#[trigger] values.drop_last()[j]).0
            != values[i].0 by {
            assert(values.drop_last()[j] == values[j]);
        }
        lemma_newest(values.drop_last(), i);
    }
}

/// Among values there is none for a member that does not occur.
proof fn lemma_no_value(values: Seq<(Member, ValueV)>, at: Member)
    requires
        forall|j: int| 0 <= j < values.len() ==> (#[trigger] values[j]).0 != at,
    ensures
        evaluator::fetched_value(values, at) is None,
    decreases values.len(),
{
    if values.len() > 0 {
        assert(values.last() == values[values.len() - 1]);
        assert forall|j: int| 0 <= j < values.len() - 1 implies (#[trigger] values.drop_last()[j]).0
            != at by {
            assert(values.drop_last()[j] == values[j]);
        }
        lemma_no_value(values.drop_last(), at);
    }
}

/// An update that succeeds gives each variable that it assigns in a running service the value of
/// its expression in the state before the update, and changes no other variable. One that fails
/// leaves the node as it was, without what the transaction holds.
pub proof fn updates_read_the_state_before(
    t: TransactionV,
    m: ManagerV,
    fresh: TxnId,
    fetched: Seq<(Member, ValueV)>,
    m2: ManagerV,
    res: Result<Seq<EffectV>, EvalErrorV>,
)
    requires
        ran(t, m, fresh, fetched, m2, res),
    ensures
        res is Ok ==> holds_values(
            m,
            transaction::assignments(t.updates),
            fetched,
            own_txn(t, fresh).id,
            m2,
        ),
        res is Err ==> m2 == manager::released(m, own_txn(t, fresh).id) || (m2 == m
            && needs::declares_table(t.updates)),
{
    if res is Ok {
        let id = own_txn(t, fresh).id;
        let todo = transaction::assignments(t.updates);
        let prog = patch::patched(m.ast, t.updates)->Ok_0;
        let known = check::checked(prog)->Ok_0;
        let values = computed(m, todo, fetched)->Ok_0;
        let deps = choose|deps: Seq<(Symbol, ServiceGraphs)>| #[trigger]
            transaction::graphs_of(prog, deps) && {
                let (after, es) = taken_effect(t, m, own_txn(t, fresh), prog, values, deps);
                m2 == after && res == Ok::<Seq<EffectV>, EvalErrorV>(es)
            };
        let groups = needs::needed(m, t.updates);
        let locked = manager::lock_groups(m, groups, 0, id).0;
        let after = commit::committed(locked, Some(id), prog, known, values, deps);
        manager::releasing_undoes_locking(m, groups, 0, id);
        locks::lemma_locks_aside(locked, m, id);
        lemma_computed(m, todo, fetched);
        commit::commit_changes_only_updated_members(
            locked,
            Some(id),
            prog,
            known,
            values,
            deps,
            0,
            0,
        );
        assert(m2.services.dom() =~= after.services.dom());
        assert forall|i: int|
            0 <= i < todo.len() && m.services.dom().contains((#[trigger] todo[i]).0) && prevails(
                todo,
                i,
            ) implies {
            &&& m2.services[todo[i].0].vars.dom().contains(todo[i].1)
            &&& assigned(m, todo[i], fetched) == Ok::<ValueV, EvalErrorV>(
                m2.services[todo[i].0].vars[todo[i].1].value,
            )
        } by {
            let (svc, x) = (todo[i].0, todo[i].1);
            assert(values[i].0 == (svc, x));
            assert forall|j: int| i < j < values.len() implies (#[trigger] values[j]).0
                != values[i].0 by {
                assert(values[j].0 == (todo[j].0, todo[j].1));
            }
            lemma_newest(values, i);
            commit::commit_changes_only_updated_members(
                locked,
                Some(id),
                prog,
                known,
                values,
                deps,
                svc,
                x,
            );
            assert(m2.services[svc] == manager::service_released(after.services[svc], id));
        }
        assert forall|svc: Symbol, x: Symbol|
            #![trigger m2.services[svc].vars[x]]
            m.services.dom().contains(svc) && !assigns(todo, svc, x) implies {
            &&& m2.services[svc].vars.dom().contains(x) <==> m.services[svc].vars.dom().contains(x)
            &&& m.services[svc].vars.dom().contains(x) ==> m2.services[svc].vars[x]
                == manager::var_released(m.services[svc].vars[x], id)
        } by {
            assert forall|j: int| 0 <= j < values.len() implies (#[trigger] values[j]).0 != (
                svc,
                x,
            ) by {
                assert(values[j].0 == (todo[j].0, todo[j].1));
            }
            lemma_no_value(values, (svc, x));
            commit::commit_changes_only_updated_members(
                locked,
                Some(id),
                prog,
                known,
                values,
                deps,
                svc,
                x,
            );
            assert(locks::same_members(locked.services[svc], m.services[svc]));
            assert(m2.services[svc] == manager::service_released(after.services[svc], id));
            assert(manager::released(locked, id).services[svc] == manager::service_released(
                locked.services[svc],
                id,
            ));
            assert(manager::released(m, id).services[svc] == manager::service_released(
                m.services[svc],
                id,
            ));
            if m.services[svc].vars.dom().contains(x) {
                assert(manager::service_released(locked.services[svc], id).vars[x]
                    == manager::var_released(locked.services[svc].vars[x], id));
                assert(manager::service_released(m.services[svc], id).vars[x]
                    == manager::var_released(m.services[svc].vars[x], id));
            }
        }
    }
}

/// An update that succeeds gives each definition that it declares last in a running service its
/// new expression, public or not: reading it gives the value of that expression in the state
/// behind the update.
pub proof fn updates_replace_definitions(
    t: TransactionV,
    m: ManagerV,
    fresh: TxnId,
    fetched: Seq<(Member, ValueV)>,
    m2: ManagerV,
    res: Result<Seq<EffectV>, EvalErrorV>,
    svc: Symbol,
    d: DeclV,
    cx: ContextV,
    env: Seq<(Symbol, ValueV)>,
    fuel: nat,
)
    requires
        ran(t, m, fresh, fetched, m2, res),
        res is Ok,
        changes::distinct_program(m.ast),
        forall|k: int|
            0 <= k < t.updates.len() && (#[trigger] t.updates[k]) is Service ==> changes::distinct(
                t.updates[k]->Service_decls,
            ),
        m.services.dom().contains(svc),
        d is DefDecl,
        changes::last_change(t.updates, svc, d),
        cx.services == m2.services,
    ensures
        m2.services[svc].defs.dom().contains(d->DefDecl_name),
        m2.services[svc].defs[d->DefDecl_name] == d->DefDecl_val,
        !m2.services[svc].vars.dom().contains(d->DefDecl_name) ==> evaluator::evaluated(
            cx,
            env,
            ExprV::MemberAccess { service_name: svc, member_name: d->DefDecl_name },
            fuel + 1,
        ) == evaluator::evaluated(
            ContextV { svc, net_id: m2.services[svc].net_id, ..cx },
            Seq::empty(),
            d->DefDecl_val,
            fuel,
        ),
{
    let x = d->DefDecl_name;
    let id = own_txn(t, fresh).id;
    let prog = patch::patched(m.ast, t.updates)->Ok_0;
    let known = check::checked(prog)->Ok_0;
    let values = computed(m, transaction::assignments(t.updates), fetched)->Ok_0;
    let deps = choose|deps: Seq<(Symbol, ServiceGraphs)>| #[trigger]
        transaction::graphs_of(prog, deps) && {
            let (after, es) = taken_effect(t, m, own_txn(t, fresh), prog, values, deps);
            m2 == after && res == Ok::<Seq<EffectV>, EvalErrorV>(es)
        };
    let groups = needs::needed(m, t.updates);
    let locked = manager::lock_groups(m, groups, 0, id).0;
    manager::releasing_undoes_locking(m, groups, 0, id);
    locks::lemma_locks_aside(locked, m, id);
    changes::updates_change_what_they_declare(m.ast, t.updates, svc, d);
    let k = choose|k: int| #[trigger] changes::holds(prog, k, svc, d);
    let decls = prog[k]->Service_decls;
    assert(changes::distinct(decls));
    let j = choose|j: int| 0 <= j < decls.len() && decls[j] == d;
    assert(definitions::decls_at(prog, k, svc) == decls);
    assert forall|i: int| j < i < decls.len() implies !definitions::defines(
        #[trigger] decls[i],
        x,
    ) by {
        assert(ast::decl_name(decls[j]) != ast::decl_name(decls[i]));
    }
    assert forall|k2: int| k < k2 < prog.len() implies definitions::none_behind(
        #[trigger] definitions::decls_at(prog, k2, svc),
        -1,
        x,
    ) by {
        if prog[k2] is Service {
            assert(prog[k] is Service);
            assert(prog[k]->Service_name != prog[k2]->Service_name);
        }
    }
    assert(definitions::last_definition(prog, svc, x, k, j));
    assert(definitions::is_definition(definitions::decls_at(prog, k, svc)[j], x, d->DefDecl_val));
    definitions::definitions_take_effect(locked, Some(id), prog, known, values, deps, svc, x);
    commit::commit_changes_only_updated_members(
        locked,
        Some(id),
        prog,
        known,
        values,
        deps,
        svc,
        x,
    );
    let after = commit::committed(locked, Some(id), prog, known, values, deps);
    assert(m2.services[svc] == manager::service_released(after.services[svc], id));
    reveal_with_fuel(evaluator::evaluated, 2);
}

/// A transaction some of whose values are computed.
spec fn valued(t: TransactionV, values: Seq<(Member, ValueV)>, next: int) -> TransactionV {
    TransactionV { values, next, ..t }
}

/// Where a run stands once its changed program was accepted: the first values are computed, and
/// the next is asked for or the update took effect; or one could not be computed.
spec fn underway(
    m: ManagerV,
    locked: ManagerV,
    start: TransactionV,
    fetched: Seq<(Member, ValueV)>,
    t: TransactionV,
    m2: ManagerV,
    a: ActionV,
) -> bool {
    match a {
        ActionV::Fail(e) => {
            &&& m2 == transaction::freed(locked, start.lock_txn)
            &&& computed(m, start.todo, fetched) == Err::<Seq<(Member, ValueV)>, EvalErrorV>(e)
        },
        _ => exists|k: int|
            0 <= k <= start.todo.len() && {
                let first = #[trigger] computed(m, start.todo.take(k), fetched);
                &&& first is Ok
                &&& (t, m2, a) == transaction::advanced(valued(start, first->Ok_0, k), locked)
            },
    }
}

/// An assignment computes the same value whoever holds what.
proof fn lemma_same_value(
    m: ManagerV,
    locked: ManagerV,
    a: AssignmentV,
    fetched: Seq<(Member, ValueV)>,
)
    requires
        locks::same_services(locked.services, m.services),
        locked == (ManagerV { services: locked.services, ..m }),
    ensures
        assigned(locked, a, fetched) == assigned(m, a, fetched),
{
    let cx = lookup::service_context(locked, a.0, fetched);
    if locked.services.dom().contains(a.0) {
        assert(locks::same_members(locked.services[a.0], m.services[a.0]));
    }
    assert(locks::among(cx, m.services) == lookup::service_context(m, a.0, fetched));
    locks::values_do_not_depend_on_locks(
        cx,
        m.services,
        Seq::empty(),
        a.2,
        evaluator::unbounded(),
    );
}

/// The graphs of a changed program that was accepted.
proof fn lemma_deps(
    t: TransactionV,
    m: ManagerV,
    txn: LockTxnV,
    t2: TransactionV,
    m2: ManagerV,
    a: ActionV,
) -> (deps: Seq<(Symbol, ServiceGraphs)>)
    requires
        transaction::entered(t, m, txn, t2, m2, a),
        a !is Fail,
    ensures
        ({
            let prog = patch::patched(m.ast, t.updates)->Ok_0;
            &&& patch::patched(m.ast, t.updates) is Ok
            &&& transaction::staging_error(prog, m.names) is None
            &&& transaction::graphs_of(prog, deps)
            &&& (t2, m2, a) == transaction::advanced(
                transaction::staged(t, txn, prog, check::checked(prog)->Ok_0, deps),
                m,
            )
        }),
{
    let prog = patch::patched(m.ast, t.updates)->Ok_0;
    choose|deps: Seq<(Symbol, ServiceGraphs)>| #[trigger]
        transaction::graphs_of(prog, deps) && (t2, m2, a) == transaction::advanced(
            transaction::staged(t, txn, prog, check::checked(prog)->Ok_0, deps),
            m,
        )
}

impl Transaction {
    /// Run the transaction on this node: take the locks, put the changed program together and check
    /// it, compute the values in the state before the update, take effect, and let go of the locks.
    /// Gives what is still to be done; or why the update failed. A transaction that has begun
    /// already is left alone.
    pub fn run_local(
        &mut self,
        manager: &mut Manager,
        fresh: TxnId,
        fetched: &Vec<(Member, Value)>,
    ) -> (res: Result<Vec<Effect>, EvalError>)
        requires
            transaction::sound(old(self)@),
        ensures
            old(self)@.state == TransactionState::Init ==> ran(
                old(self)@,
                old(manager)@,
                fresh,
                evaluator::fetched_view(fetched@),
                final(manager)@,
                outcome(res),
            ),
            old(self)@.state == TransactionState::Init ==> ended(
                old(self)@,
                final(self)@,
                res is Ok,
            ),
            old(self)@.state == TransactionState::Init && res is Ok ==> holds_values(
                old(manager)@,
                transaction::assignments(old(self)@.updates),
                evaluator::fetched_view(fetched@),
                own_txn(old(self)@, fresh).id,
                final(manager)@,
            ),
            old(self)@.state == TransactionState::Init && res is Err
                && !needs::declares_table(old(self)@.updates) ==> final(manager)@
                == manager::released(old(manager)@, own_txn(old(self)@, fresh).id),
            old(self)@.state != TransactionState::Init ==> {
                &&& res matches Ok(es) && es@.len() == 0
                &&& final(manager)@ == old(manager)@
                &&& final(self)@ == old(self)@
            },
    {
        if self.state != TransactionState::Init {
            return Ok(Vec::new());
        }
        let res = self.run_whole(manager, fresh, fetched);
        proof {
            updates_read_the_state_before(
                old(self)@,
                old(manager)@,
                fresh,
                evaluator::fetched_view(fetched@),
                manager@,
                outcome(res),
            );
        }
        res
    }

    /// Run a transaction that has not begun.
    fn run_whole(
        &mut self,
        manager: &mut Manager,
        fresh: TxnId,
        fetched: &Vec<(Member, Value)>,
    ) -> (res: Result<Vec<Effect>, EvalError>)
        requires
            transaction::sound(old(self)@),
            old(self)@.state == TransactionState::Init,
        ensures
            ran(
                old(self)@,
                old(manager)@,
                fresh,
                evaluator::fetched_view(fetched@),
                final(manager)@,
                outcome(res),
            ),
            ended(old(self)@, final(self)@, res is Ok),
    {
        let ghost t = self@;
        let ghost m = manager@;
        let ghost fs = evaluator::fetched_view(fetched@);
        let ghost own = own_txn(t, fresh);
        let ghost id = own.id;
        match self.poll(manager, Event::Begin(fresh)) {
            Action::Acquire(txn, groups) => {
                let ghost gs = manager::groups_view(groups@);
                assert(txn@ == own);
                proof {
                    manager::releasing_undoes_locking(m, gs, 0, id);
                }
                match manager.acquire_lock_groups(&txn, &groups) {
                    Err(_) => match self.poll(manager, Event::Refused(txn)) {
                        Action::Fail(e) => Err(e),
                        _ => Ok(Vec::new()),
                    },
                    Ok(()) => {
                        let ghost locked = manager@;
                        proof {
                            locks::lemma_locks_aside(locked, m, id);
                        }
                        let ghost held = self@;
                        let action = self.poll(manager, Event::Locked(txn));
                        let ghost prog = patch::patched(m.ast, t.updates)->Ok_0;
                        if let Action::Fail(e) = action {
                            return Err(e);
                        }
                        let ghost deps = lemma_deps(held, locked, own, self@, manager@, action@);
                        let ghost start = transaction::staged(
                            held,
                            own,
                            prog,
                            check::checked(prog)->Ok_0,
                            deps,
                        );
                        proof {
                            let none = start.todo.take(0);
                            assert(computed(m, none, fs) == Ok::<
                                Seq<(Member, ValueV)>,
                                EvalErrorV,
                            >(Seq::empty()));
                            assert(start.values =~= Seq::<(Member, ValueV)>::empty());
                            assert(valued(start, Seq::empty(), 0) == start);
                        }
                        self.compute_values(
                            manager,
                            fetched,
                            action,
                            Ghost(m),
                            Ghost(locked),
                            Ghost(start),
                            Ghost(own),
                        )
                    },
                }
            },
            Action::Fail(e) => Err(e),
            _ => Ok(Vec::new()),
        }
    }

    /// Go on with a transaction whose changed program was accepted.
    fn compute_values(
        &mut self,
        manager: &mut Manager,
        fetched: &Vec<(Member, Value)>,
        first: Action,
        Ghost(m): Ghost<ManagerV>,
        Ghost(locked): Ghost<ManagerV>,
        Ghost(start): Ghost<TransactionV>,
        Ghost(own): Ghost<LockTxnV>,
    ) -> (res: Result<Vec<Effect>, EvalError>)
        requires
            locks::same_services(locked.services, m.services),
            locked == (ManagerV { services: locked.services, ..m }),
            start.state == TransactionState::LocksAcquired,
            start.lock_txn == Some(own),
            start.todo == transaction::assignments(start.updates),
            transaction::sound(old(self)@),
            old(self)@.updates == start.updates,
            first@ is Fail ==> old(self)@.state != TransactionState::Evaluated,
            underway(
                m,
                locked,
                start,
                evaluator::fetched_view(fetched@),
                old(self)@,
                old(manager)@,
                first@,
            ),
        ensures
            ({
                let values = computed(m, start.todo, evaluator::fetched_view(fetched@));
                match res {
                    Ok(es) => {
                        let after = commit::committed(
                            locked,
                            Some(own.id),
                            start.ast,
                            start.types,
                            values->Ok_0,
                            start.deps,
                        );
                        &&& values is Ok
                        &&& final(manager)@ == manager::released(after, own.id)
                        &&& types::views(es@) == effects::effects(
                            after,
                            start.updates,
                            Some(own),
                        )
                    },
                    Err(e) => {
                        &&& values == Err::<Seq<(Member, ValueV)>, EvalErrorV>(e@)
                        &&& final(manager)@ == manager::released(locked, own.id)
                    },
                }
            }),
            ended(start, final(self)@, res is Ok),
    {
        let ghost fs = evaluator::fetched_view(fetched@);
        let mut action = first;
        loop
            invariant
                fs == evaluator::fetched_view(fetched@),
                locks::same_services(locked.services, m.services),
                locked == (ManagerV { services: locked.services, ..m }),
                start.state == TransactionState::LocksAcquired,
                start.lock_txn == Some(own),
                start.todo == transaction::assignments(start.updates),
                transaction::sound(self@),
                self@.updates == start.updates,
                action@ is Fail ==> self@.state != TransactionState::Evaluated,
                underway(m, locked, start, fs, self@, manager@, action@),
            decreases
                    if action@ is Evaluate {
                        start.todo.len() - self@.next
                    } else {
                        0
                    },
        {
            let ghost t = self@;
            let ghost asked = action@;
            let ghost k = choose|k: int|
                0 <= k <= start.todo.len() && {
                    let done = #[trigger] computed(m, start.todo.take(k), fs);
                    &&& done is Ok
                    &&& (t, manager@, asked) == transaction::advanced(
                        valued(start, done->Ok_0, k),
                        locked,
                    )
                };
            match action {
                Action::Evaluate((svc, _, expr)) => {
                    assert(0 <= k < start.todo.len());
                    let r = evaluate_in_service(manager, svc, &expr, fetched);
                    proof {
                        lemma_same_value(m, locked, start.todo[k], fs);
                        assert(start.todo.take(k + 1).drop_last() =~= start.todo.take(k));
                        assert(start.todo.take(k + 1).last() == start.todo[k]);
                        if computed(m, start.todo.take(k + 1), fs) is Err {
                            lemma_stopped(m, start.todo, k + 1, fs);
                        }
                    }
                    let ghost value = transaction::value_view(r);
                    assert(value == assigned(m, start.todo[k], fs));
                    action = self.poll(manager, Event::Value(r));
                    assert((self@, manager@, action@) == transaction::valued(t, locked, value));
                    proof {
                        transaction::only_checked_programs_take_effect(
                            t,
                            locked,
                            EventV::Value(value),
                            self@,
                            manager@,
                            action@,
                        );
                    }
                    assert(underway(m, locked, start, fs, self@, manager@, action@)) by {
                        if value is Ok {
                            let done = computed(m, start.todo.take(k + 1), fs);
                            assert(done is Ok);
                            assert((self@, manager@, action@) == transaction::advanced(
                                valued(start, done->Ok_0, k + 1),
                                locked,
                            ));
                        }
                    }
                },
                Action::Apply(es) => {
                    assert(start.todo.take(k) =~= start.todo);
                    let _ = self.poll(manager, Event::Applied);
                    return Ok(es);
                },
                Action::Fail(e) => {
                    return Err(e);
                },
                _ => {
                    return Ok(Vec::new());
                },
            }
        }
    }
}

} // verus!
