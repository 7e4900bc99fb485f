//! The update transaction.
//!
//! A transaction asks for locks, stages the changed program apart from the running one, checks
//! it, and has the new values computed against the old state. Only then does it take effect, all
//! at once. Whatever fails before leaves the node as it was, without the locks.

use vstd::prelude::*;

use crate::net::types::TxnId;
use crate::runtime::ast;
use crate::runtime::ast::{Decl, DeclV, Expr, ExprV, Stmt, StmtV, Value, ValueV};
use crate::runtime::graphs::analysis;
use crate::runtime::graphs::analysis::compute_dependencies;
use crate::runtime::graphs::ServiceGraphs;
use crate::runtime::interner;
use crate::runtime::interner::{Interner, Symbol};
use crate::runtime::interpreter::evaluator;
use crate::runtime::interpreter::evaluator::{EvalError, EvalErrorV, Evaluated};
use crate::runtime::manager;
use crate::runtime::manager::{Manager, ManagerV};
use crate::runtime::nameres;
use crate::runtime::nameres::NameError;
use crate::runtime::node;
use crate::runtime::node::format_name_error;
use crate::runtime::tt::check;
use crate::runtime::tt::check::{CheckErrorV, Known};
use crate::runtime::tt::debug;
use crate::runtime::tt::debug::debug_check_error;
use crate::runtime::tt::flow::{Flow, FlowV};
use crate::runtime::tt::types;
use crate::runtime::tt::types::Member;
use crate::runtime::txn::{LockGroup, LockGroupV, LockTxn, LockTxnV};
use crate::runtime::update::commit;
use crate::runtime::update::commit::commit_update;
use crate::runtime::update::effects;
use crate::runtime::update::effects::{list_effects, Effect, EffectV};
use crate::runtime::update::needs;
use crate::runtime::update::needs::lock_needs;
use crate::runtime::update::patch;
use crate::runtime::update::patch::apply_updates_to_ast;

verus! {

broadcast use types::views_push;

/// How far an update transaction has come.
#[derive(Debug, Clone, Copy, PartialEq, Eq, Structural)]
pub enum TransactionState {
    /// It holds no locks yet.
    Init,
    /// It holds its locks.
    LocksAcquired,
    /// Its expressions were evaluated against the old state, and it took effect.
    Evaluated,
}

/// A value that an update computes: the member, and the expression.
pub type Assignment = (Symbol, Symbol, Expr);

/// What an `Assignment` stands for.
pub type AssignmentV = (Symbol, Symbol, ExprV);

/// An update, with all that it changes kept apart from the running program.
pub struct Transaction {
    pub state: TransactionState,
    /// What is to change.
    pub updates: Vec<Stmt>,
    /// The changed program.
    pub ast: Vec<Stmt>,
    /// The types of its members.
    pub types: Vec<(Member, Flow)>,
    /// The values computed so far.
    pub values: Vec<(Member, Value)>,
    /// The graphs of the changed services.
    pub deps: Vec<(Symbol, ServiceGraphs)>,
    /// The locks.
    pub lock_txn: Option<LockTxn>,
    /// The values to compute.
    pub todo: Vec<Assignment>,
    /// How many of them were computed.
    pub next: usize,
}

/// What a `Transaction` stands for.
pub struct TransactionV {
    pub state: TransactionState,
    pub updates: Seq<StmtV>,
    pub ast: Seq<StmtV>,
    pub types: Known,
    pub values: Seq<(Member, ValueV)>,
    pub deps: Seq<(Symbol, ServiceGraphs)>,
    pub lock_txn: Option<LockTxnV>,
    pub todo: Seq<AssignmentV>,
    pub next: int,
}

pub open spec fn todo_view(todo: Seq<Assignment>) -> Seq<AssignmentV> {
    todo.map_values(|a: Assignment| (a.0, a.1, a.2@))
}

impl View for Transaction {
    type V = TransactionV;

    open spec fn view(&self) -> TransactionV {
        TransactionV {
            state: self.state,
            updates: types::views(self.updates@),
            ast: types::views(self.ast@),
            types: check::known_view(self.types@),
            values: evaluator::fetched_view(self.values@),
            deps: self.deps@,
            lock_txn: types::opt_view(self.lock_txn),
            todo: todo_view(self.todo@),
            next: self.next as int,
        }
    }
}

/// What happened to a transaction.
pub enum Event {
    /// It is to begin; under this number, where it has none yet.
    Begin(TxnId),
    /// Its locks were taken.
    Locked(LockTxn),
    /// Its locks could not all be taken.
    Refused(LockTxn),
    /// The expression that it asked for was evaluated.
    Value(Result<Value, EvalError>),
    /// What followed from it was done.
    Applied,
}

/// What an `Event` stands for.
pub enum EventV {
    Begin(TxnId),
    Locked(LockTxnV),
    Refused(LockTxnV),
    Value(Evaluated),
    Applied,
}

/// A result by its view.
pub open spec fn value_view(r: Result<Value, EvalError>) -> Evaluated {
    match r {
        Ok(v) => Ok(v@),
        Err(e) => Err(e@),
    }
}

impl View for Event {
    type V = EventV;

    open spec fn view(&self) -> EventV {
        match *self {
            Event::Begin(id) => EventV::Begin(id),
            Event::Locked(txn) => EventV::Locked(txn@),
            Event::Refused(txn) => EventV::Refused(txn@),
            Event::Value(r) => EventV::Value(value_view(r)),
            Event::Applied => EventV::Applied,
        }
    }
}

/// What is to be done for a transaction next.
pub enum Action {
    /// Take these locks, here and at other nodes.
    Acquire(LockTxn, Vec<(String, LockGroup)>),
    /// Evaluate an expression of a service against the running state.
    Evaluate(Assignment),
    /// Do what follows from the update, which took effect.
    Apply(Vec<Effect>),
    /// Report that the update failed.
    Fail(EvalError),
    /// Nothing.
    Done,
}

/// What an `Action` stands for.
pub enum ActionV {
    Acquire(LockTxnV, Seq<(Seq<char>, LockGroupV)>),
    Evaluate(AssignmentV),
    Apply(Seq<EffectV>),
    Fail(EvalErrorV),
    Done,
}

impl View for Action {
    type V = ActionV;

    open spec fn view(&self) -> ActionV {
        match *self {
            Action::Acquire(txn, groups) => ActionV::Acquire(
                txn@,
                manager::groups_view(groups@),
            ),
            Action::Evaluate(a) => ActionV::Evaluate((a.0, a.1, a.2@)),
            Action::Apply(es) => ActionV::Apply(types::views(es@)),
            Action::Fail(e) => ActionV::Fail(e@),
            Action::Done => ActionV::Done,
        }
    }
}

/// A transaction, the node, and what is to be done next.
pub type Step = (TransactionV, ManagerV, ActionV);

/// The values that the declarations of a service compute.
pub open spec fn service_assignments(svc: Symbol, decls: Seq<DeclV>) -> Seq<AssignmentV>
    decreases decls.len(),
{
    if decls.len() == 0 {
        Seq::empty()
    } else {
        let before = service_assignments(svc, decls.drop_last());
        match decls.last() {
            DeclV::VarDecl { name, val, .. } => before.push((svc, name, val)),
            _ => before,
        }
    }
}

/// The values that updates compute, in order.
pub open spec fn assignments(updates: Seq<StmtV>) -> Seq<AssignmentV>
    decreases updates.len(),
{
    if updates.len() == 0 {
        Seq::empty()
    } else {
        let before = assignments(updates.drop_last());
        match patch::block_of(updates.last()) {
            Some((svc, decls)) => before + service_assignments(svc, decls),
            None => before,
        }
    }
}

/// What is reported of a name that does not resolve once an update is put in.
pub open spec fn unresolved_text(e: NameError, names: Seq<Seq<char>>) -> Seq<char> {
    match e {
        NameError::ForwardReference(x) => "ForwardReference("@ + interner::name_text(names, x)
            + ")"@,
        _ => node::name_error_text(e, names),
    }
}

/// What is wrong with a changed program.
pub open spec fn staging_error(prog: Seq<StmtV>, names: Seq<Seq<char>>) -> Option<EvalErrorV> {
    match nameres::bad_from(prog, Seq::empty(), 0) {
        Some(e) => Some(
            EvalErrorV::RuntimeError(
                "Name resolution failed on update: "@ + unresolved_text(e, names),
            ),
        ),
        None => match check::checked(prog) {
            Err(e) => Some(
                EvalErrorV::RuntimeError(
                    "Type check failed on update: "@ + debug::check_error_debug(e),
                ),
            ),
            Ok(_) => None,
        },
    }
}

/// What is reported where the locks could not all be taken.
pub open spec fn conflict_error() -> EvalErrorV {
    EvalErrorV::RuntimeError("Lock acquisition conflict during update"@)
}

/// What is reported where the service to update does not exist.
pub open spec fn missing_error(svc: Symbol, names: Seq<Seq<char>>) -> EvalErrorV {
    EvalErrorV::RuntimeError(
        "Target service '"@ + interner::name_text(names, svc) + "' for update not found"@,
    )
}

/// A node after a transaction, where there is one, let go of all it holds.
pub open spec fn freed(m: ManagerV, txn: Option<LockTxnV>) -> ManagerV {
    match txn {
        Some(t) => manager::released(m, t.id),
        None => m,
    }
}

/// The number of a transaction, where it has one.
pub open spec fn txn_id(txn: Option<LockTxnV>) -> Option<TxnId> {
    match txn {
        Some(t) => Some(t.id),
        None => None,
    }
}

/// Whether these are the graphs of the services of a program, in order.
pub open spec fn graphs_of(prog: Seq<StmtV>, deps: Seq<(Symbol, ServiceGraphs)>) -> bool {
    &&& deps.len() == ast::services(prog).len()
    &&& forall|i: int|
        0 <= i < deps.len() ==> (#[trigger] deps[i]).0 == ast::services(prog)[i].0
            && analysis::analyses(deps[i].1, ast::services(prog)[i].1)
}

/// A transaction that begins.
pub open spec fn begun(t: TransactionV, m: ManagerV, fresh: TxnId) -> Step {
    if needs::declares_table(t.updates) {
        (t, m, ActionV::Fail(EvalErrorV::NotImplemented))
    } else {
        let txn = match t.lock_txn {
            Some(txn) => txn,
            None => LockTxnV { id: fresh, participants: Seq::empty() },
        };
        (
            TransactionV { lock_txn: None, ..t },
            m,
            ActionV::Acquire(txn, needs::needed(m, t.updates)),
        )
    }
}

/// The next value is asked for; once there is none, the update takes effect.
pub open spec fn advanced(t: TransactionV, m: ManagerV) -> Step {
    if t.next < t.todo.len() {
        (t, m, ActionV::Evaluate(t.todo[t.next]))
    } else {
        let after = commit::committed(m, txn_id(t.lock_txn), t.ast, t.types, t.values, t.deps);
        (
            TransactionV {
                state: TransactionState::Evaluated,
                ast: Seq::empty(),
                types: Seq::empty(),
                values: Seq::empty(),
                deps: Seq::empty(),
                ..t
            },
            after,
            ActionV::Apply(effects::effects(after, t.updates, t.lock_txn)),
        )
    }
}

/// A transaction that got its locks, before the changed program was put together.
pub open spec fn holding(t: TransactionV, txn: LockTxnV) -> TransactionV {
    TransactionV { state: TransactionState::LocksAcquired, lock_txn: Some(txn), ..t }
}

/// A transaction whose changed program was accepted.
pub open spec fn staged(
    t: TransactionV,
    txn: LockTxnV,
    prog: Seq<StmtV>,
    known: Known,
    deps: Seq<(Symbol, ServiceGraphs)>,
) -> TransactionV {
    TransactionV {
        ast: prog,
        types: known,
        deps,
        todo: assignments(t.updates),
        next: 0,
        ..holding(t, txn)
    }
}

/// A transaction got its locks: the changed program is put together and checked, and the first
/// value is asked for. Where something is wrong, the locks are let go.
pub open spec fn entered(
    t: TransactionV,
    m: ManagerV,
    txn: LockTxnV,
    t2: TransactionV,
    m2: ManagerV,
    a: ActionV,
) -> bool {
    match patch::patched(m.ast, t.updates) {
        Err(svc) => {
            &&& t2 == holding(t, txn)
            &&& m2 == manager::released(m, txn.id)
            &&& a == ActionV::Fail(missing_error(svc, m.names))
        },
        Ok(prog) => match staging_error(prog, m.names) {
            Some(e) => {
                &&& t2 == (TransactionV { ast: prog, ..holding(t, txn) })
                &&& m2 == manager::released(m, txn.id)
                &&& a == ActionV::Fail(e)
            },
            None => exists|deps: Seq<(Symbol, ServiceGraphs)>| #[trigger]
                graphs_of(prog, deps) && (t2, m2, a) == advanced(
                    staged(t, txn, prog, check::checked(prog)->Ok_0, deps),
                    m,
                ),
        },
    }
}

/// A value was computed, or could not be.
pub open spec fn valued(t: TransactionV, m: ManagerV, r: Evaluated) -> Step {
    if t.next >= t.todo.len() {
        (t, m, ActionV::Done)
    } else {
        match r {
            Ok(v) => advanced(
                TransactionV {
                    values: t.values.push(((t.todo[t.next].0, t.todo[t.next].1), v)),
                    next: t.next + 1,
                    ..t
                },
                m,
            ),
            Err(e) => (
                TransactionV { todo: Seq::empty(), next: 0, ..t },
                freed(m, t.lock_txn),
                ActionV::Fail(e),
            ),
        }
    }
}

/// How a transaction goes on. An event that it does not wait for changes nothing.
pub open spec fn polled(
    t: TransactionV,
    m: ManagerV,
    ev: EventV,
    t2: TransactionV,
    m2: ManagerV,
    a: ActionV,
) -> bool {
    match (t.state, ev) {
        (TransactionState::Init, EventV::Begin(fresh)) => (t2, m2, a) == begun(t, m, fresh),
        (TransactionState::Init, EventV::Locked(txn)) => entered(t, m, txn, t2, m2, a),
        (TransactionState::Init, EventV::Refused(txn)) => {
            &&& t2 == t
            &&& m2 == manager::released(m, txn.id)
            &&& a == ActionV::Fail(conflict_error())
        },
        (TransactionState::LocksAcquired, EventV::Value(r)) => (t2, m2, a) == valued(t, m, r),
        (TransactionState::Evaluated, EventV::Applied) => {
            &&& t2 == (TransactionV { lock_txn: None, ..t })
            &&& m2 == freed(m, t.lock_txn)
            &&& a == ActionV::Done
        },
        _ => t2 == t && m2 == m && a == ActionV::Done,
    }
}

/// What is kept of a transaction from step to step: the values computed so far belong to the
/// first of those to compute, and the changed program was accepted.
pub open spec fn sound(t: TransactionV) -> bool {
    &&& t.next >= 0
    &&& match t.state {
        TransactionState::Init => t.values.len() == 0 && t.todo.len() == 0,
        TransactionState::LocksAcquired => t.next < t.todo.len() ==> {
            &&& nameres::bad_from(t.ast, Seq::empty(), 0) is None
            &&& check::checked(t.ast) == Ok::<Known, CheckErrorV>(t.types)
            &&& graphs_of(t.ast, t.deps)
            &&& t.todo == assignments(t.updates)
            &&& t.values.len() == t.next
            &&& forall|i: int|
                0 <= i < t.next ==> (#[trigger] t.values[i]).0 == (t.todo[i].0, t.todo[i].1)
        },
        TransactionState::Evaluated => true,
    }
}

/// Among values there is one for each member that occurs.
proof fn lemma_value_found(values: Seq<(Member, ValueV)>, i: int)
    requires
        0 <= i < values.len(),
    ensures
        evaluator::fetched_value(values, values[i].0) is Some,
    decreases values.len(),
{
    if values.last().0 != values[i].0 {
        assert(values.drop_last()[i] == values[i]);
        lemma_value_found(values.drop_last(), i);
    }
}

/// An update that takes effect leaves the node with a program that passed every static check,
/// together with its types, and with a value for every variable that it declares in a running
/// service.
pub proof fn only_checked_programs_take_effect(
    t: TransactionV,
    m: ManagerV,
    ev: EventV,
    t2: TransactionV,
    m2: ManagerV,
    a: ActionV,
)
    requires
        sound(t),
        polled(t, m, ev, t2, m2, a),
    ensures
        sound(t2),
        t2.updates == t.updates,
        a is Apply ==> {
            &&& nameres::bad_from(m2.ast, Seq::empty(), 0) is None
            &&& check::checked(m2.ast) == Ok::<Known, CheckErrorV>(m2.types)
            &&& m2.services.dom() == m.services.dom()
            &&& forall|i: int|
                0 <= i < assignments(t.updates).len() && m.services.dom().contains(
                    (#[trigger] assignments(t.updates)[i]).0,
                ) ==> m2.services[assignments(t.updates)[i].0].vars.dom().contains(
                    assignments(t.updates)[i].1,
                )
        },
{
    match (t.state, ev) {
        (TransactionState::Init, EventV::Locked(txn)) => {
            if patch::patched(m.ast, t.updates) is Ok {
                let prog = patch::patched(m.ast, t.updates)->Ok_0;
                if staging_error(prog, m.names) is None {
                    let deps = choose|deps: Seq<(Symbol, ServiceGraphs)>| #[trigger]
                        graphs_of(prog, deps) && (t2, m2, a) == advanced(
                            staged(t, txn, prog, check::checked(prog)->Ok_0, deps),
                            m,
                        );
                    lemma_advanced(staged(t, txn, prog, check::checked(prog)->Ok_0, deps), m);
                }
            }
        },
        (TransactionState::LocksAcquired, EventV::Value(Ok(v))) => {
            if t.next < t.todo.len() {
                let mid = TransactionV {
                    values: t.values.push(((t.todo[t.next].0, t.todo[t.next].1), v)),
                    next: t.next + 1,
                    ..t
                };
                lemma_advanced(mid, m);
            }
        },
        _ => {},
    }
}

/// What is kept when the next value is asked for, or the update takes effect.
proof fn lemma_advanced(t: TransactionV, m: ManagerV)
    requires
        t.state == TransactionState::LocksAcquired,
        0 <= t.next <= t.todo.len(),
        nameres::bad_from(t.ast, Seq::empty(), 0) is None,
        check::checked(t.ast) == Ok::<Known, CheckErrorV>(t.types),
        graphs_of(t.ast, t.deps),
        t.todo == assignments(t.updates),
        t.values.len() == t.next,
        forall|i: int|
            0 <= i < t.next ==> (#[trigger] t.values[i]).0 == (t.todo[i].0, t.todo[i].1),
    ensures
        sound(advanced(t, m).0),
        advanced(t, m).2 is Apply ==> {
            let m2 = advanced(t, m).1;
            &&& m2.ast == t.ast
            &&& m2.types == t.types
            &&& m2.services.dom() == m.services.dom()
            &&& forall|i: int|
                0 <= i < t.todo.len() && m.services.dom().contains((#[trigger] t.todo[i]).0)
                    ==> m2.services[t.todo[i].0].vars.dom().contains(t.todo[i].1)
        },
{
    if t.next >= t.todo.len() {
        let m2 = advanced(t, m).1;
        commit::commit_changes_only_updated_members(
            m,
            txn_id(t.lock_txn),
            t.ast,
            t.types,
            t.values,
            t.deps,
            0,
            0,
        );
        assert forall|i: int|
            0 <= i < t.todo.len() && m.services.dom().contains(
                (#[trigger] t.todo[i]).0,
            ) implies m2.services[t.todo[i].0].vars.dom().contains(t.todo[i].1) by {
            assert(t.values[i].0 == (t.todo[i].0, t.todo[i].1));
            lemma_value_found(t.values, i);
            commit::commit_changes_only_updated_members(
                m,
                txn_id(t.lock_txn),
                t.ast,
                t.types,
                t.values,
                t.deps,
                t.todo[i].0,
                t.todo[i].1,
            );
        }
    }
}

/// Until an update takes effect, it changes nothing at the node but its own locks.
pub proof fn only_taking_effect_changes_the_node(
    t: TransactionV,
    m: ManagerV,
    ev: EventV,
    t2: TransactionV,
    m2: ManagerV,
    a: ActionV,
)
    requires
        polled(t, m, ev, t2, m2, a),
        a !is Apply,
    ensures
        a is Acquire || a is Evaluate ==> m2 == m,
        m2 == m || exists|id: TxnId| m2 == #[trigger] manager::released(m, id),
{
}

/// An update that fails leaves no trace: after its locks were taken, all of them or up to a
/// conflict, a failure leaves the node as it is without what the transaction holds.
pub proof fn failed_updates_leave_no_trace(
    t: TransactionV,
    m: ManagerV,
    groups: Seq<(Seq<char>, LockGroupV)>,
    txn: LockTxnV,
    ev: EventV,
    t2: TransactionV,
    m2: ManagerV,
    a: ActionV,
)
    requires
        polled(t, manager::lock_groups(m, groups, 0, txn.id).0, ev, t2, m2, a),
        a is Fail,
        ev == EventV::Locked(txn) || ev == EventV::Refused(txn) || (ev is Value && t.lock_txn
            == Some(txn)),
    ensures
        m2 == manager::released(m, txn.id),
{
    manager::releasing_undoes_locking(m, groups, 0, txn.id);
}

/// The values that updates compute, in order.
fn list_assignments(updates: &Vec<Stmt>) -> (res: Vec<Assignment>)
    ensures
        todo_view(res@) == assignments(types::views(updates@)),
{
    let ghost us = types::views(updates@);
    let mut res: Vec<Assignment> = Vec::new();
    let mut i: usize = 0;
    assert(todo_view(res@) =~= assignments(us.take(0)));
    while i < updates.len()
        invariant
            i <= updates@.len(),
            us == types::views(updates@),
            todo_view(res@) == assignments(us.take(i as int)),
        decreases updates@.len() - i,
    {
        assert(us.take(i + 1).drop_last() =~= us.take(i as int));
        assert(us.take(i + 1).last() == updates@[i as int]@);
        proof {
            ast::lemma_stmt_view(updates@[i as int]);
        }
        match &updates[i] {
            Stmt::Service { name, decls } => add_assignments(&mut res, *name, decls),
            Stmt::Update { service_name, decls } => add_assignments(
                &mut res,
                *service_name,
                decls,
            ),
            _ => {},
        }
        i += 1;
    }
    assert(us.take(i as int) =~= us);
    res
}

/// Append the values that the declarations of a service compute.
fn add_assignments(out: &mut Vec<Assignment>, svc: Symbol, decls: &Vec<Decl>)
    ensures
        todo_view(final(out)@) == todo_view(old(out)@) + service_assignments(
            svc,
            types::views(decls@),
        ),
{
    let ghost ds = types::views(decls@);
    let ghost before = todo_view(out@);
    let mut i: usize = 0;
    assert(todo_view(out@) =~= before + service_assignments(svc, ds.take(0)));
    while i < decls.len()
        invariant
            i <= decls@.len(),
            ds == types::views(decls@),
            before == todo_view(old(out)@),
            todo_view(out@) == before + service_assignments(svc, ds.take(i as int)),
        decreases decls@.len() - i,
    {
        assert(ds.take(i + 1).drop_last() =~= ds.take(i as int));
        assert(ds.take(i + 1).last() == decls@[i as int]@);
        if let Decl::VarDecl { name, val, .. } = &decls[i] {
            let ghost start = todo_view(out@);
            out.push((svc, *name, val.clone()));
            assert(todo_view(out@) =~= start.push((svc, *name, val@)));
        }
        i += 1;
        assert(todo_view(out@) =~= before + service_assignments(svc, ds.take(i as int)));
    }
    assert(ds.take(i as int) =~= ds);
}

/// What is wrong with a changed program, or the types of its members.
fn check_staged(program: &Vec<Stmt>, interner: &Interner) -> (res: Result<
    Vec<(Member, Flow)>,
    EvalError,
>)
    ensures
        match res {
            Ok(known) => staging_error(types::views(program@), interner@) is None
                && check::checked(types::views(program@)) == Ok::<Known, CheckErrorV>(
                check::known_view(known@),
            ),
            Err(e) => staging_error(types::views(program@), interner@) == Some(e@),
        },
{
    if let Err(e) = nameres::resolve(program.as_slice()) {
        let mut msg = "Name resolution failed on update: ".to_owned();
        match e {
            NameError::ForwardReference(x) => {
                let mut what = "ForwardReference(".to_owned();
                what.append(interner.text(x));
                what.append(")");
                msg.append(what.as_str());
            },
            _ => {
                msg.append(format_name_error(e, interner).as_str());
            },
        }
        return Err(EvalError::RuntimeError(msg));
    }
    match check::check(program.as_slice()) {
        Err(e) => {
            let mut msg = "Type check failed on update: ".to_owned();
            msg.append(debug_check_error(&e).as_str());
            Err(EvalError::RuntimeError(msg))
        },
        Ok(known) => Ok(known),
    }
}

/// The graphs of the services of a program, by service.
fn named_graphs(program: &Vec<Stmt>) -> (res: Vec<(Symbol, ServiceGraphs)>)
    ensures
        graphs_of(types::views(program@), res@),
{
    let ghost prog = types::views(program@);
    let mut graphs = compute_dependencies(program.as_slice(), None);
    let ghost all = graphs@;
    let mut res: Vec<(Symbol, ServiceGraphs)> = Vec::new();
    let mut i: usize = 0;
    assert(prog.take(0) =~= Seq::<StmtV>::empty());
    assert(prog.take(prog.len() as int) =~= prog);
    while i < program.len()
        invariant
            i <= program@.len(),
            prog == types::views(program@),
            all.len() == ast::services(prog).len(),
            forall|k: int|
                0 <= k < all.len() ==> analysis::analyses(
                    #[trigger] all[k],
                    ast::services(prog)[k].1,
                ),
            res@.len() == ast::services(prog.take(i as int)).len(),
            res@.len() <= all.len(),
            graphs@ == all.skip(res@.len() as int),
            forall|k: int|
                0 <= k < res@.len() ==> (#[trigger] res@[k]).0 == ast::services(prog)[k].0
                    && res@[k].1 == all[k],
        decreases program@.len() - i,
    {
        assert(prog.take(i + 1).drop_last() =~= prog.take(i as int));
        assert(prog.take(i + 1).last() == program@[i as int]@);
        proof {
            ast::lemma_stmt_view(program@[i as int]);
            ast::lemma_services_prefix(prog, i + 1);
        }
        if let Stmt::Service { name, .. } = &program[i] {
            let ghost n: int = res@.len() as int;
            assert(ast::services(prog.take(i + 1))[n].0 == *name);
            assert(all.skip(n)[0] == all[n]);
            let g = graphs.remove(0);
            res.push((*name, g));
            assert(graphs@ =~= all.skip(n + 1));
        }
        i += 1;
    }
    res
}

/// The failure that a message reports.
fn failure(msg: String) -> (res: Action)
    ensures
        res@ == ActionV::Fail(EvalErrorV::RuntimeError(msg@)),
{
    Action::Fail(EvalError::RuntimeError(msg))
}

impl Transaction {
    /// A transaction that has not begun.
    pub fn new(updates: Vec<Stmt>) -> (res: Transaction)
        ensures
            res@ == (TransactionV {
                state: TransactionState::Init,
                updates: types::views(updates@),
                ast: Seq::empty(),
                types: Seq::empty(),
                values: Seq::empty(),
                deps: Seq::empty(),
                lock_txn: None,
                todo: Seq::empty(),
                next: 0,
            }),
            sound(res@),
    {
        let res = Transaction {
            state: TransactionState::Init,
            updates,
            ast: Vec::new(),
            types: Vec::new(),
            values: Vec::new(),
            deps: Vec::new(),
            lock_txn: None,
            todo: Vec::new(),
            next: 0,
        };
        assert(res@.ast =~= Seq::<StmtV>::empty());
        assert(res@.types =~= Seq::<(Member, FlowV)>::empty());
        assert(res@.values =~= Seq::<(Member, ValueV)>::empty());
        assert(res@.todo =~= Seq::<AssignmentV>::empty());
        res
    }

    /// A transaction that has not begun, under the number of one that holds locks.
    pub fn new_with_id(txn_id: TxnId, updates: Vec<Stmt>) -> (res: Transaction)
        ensures
            res@ == (TransactionV {
                state: TransactionState::Init,
                updates: types::views(updates@),
                ast: Seq::empty(),
                types: Seq::empty(),
                values: Seq::empty(),
                deps: Seq::empty(),
                lock_txn: Some(LockTxnV { id: txn_id, participants: Seq::empty() }),
                todo: Seq::empty(),
                next: 0,
            }),
            sound(res@),
    {
        let mut res = Transaction::new(updates);
        res.lock_txn = Some(LockTxn::new(txn_id));
        res
    }

    /// Let go of all that the transaction holds.
    fn release_lock_txn(&self, manager: &mut Manager)
        ensures
            final(manager)@ == freed(old(manager)@, self@.lock_txn),
    {
        if let Some(txn) = &self.lock_txn {
            manager.release_all_locks(txn);
        }
    }

    /// Begin.
    fn begin(&mut self, manager: &Manager, fresh: TxnId) -> (a: Action)
        ensures
            (final(self)@, manager@, a@) == begun(old(self)@, manager@, fresh),
    {
        match lock_needs(manager, &self.updates) {
            None => Action::Fail(EvalError::NotImplemented),
            Some(groups) => {
                let txn = match self.lock_txn.take() {
                    Some(txn) => txn,
                    None => LockTxn::new(fresh),
                };
                Action::Acquire(txn, groups)
            },
        }
    }

    /// Ask for the next value, or take effect.
    fn advance(&mut self, manager: &mut Manager) -> (a: Action)
        ensures
            (final(self)@, final(manager)@, a@) == advanced(old(self)@, old(manager)@),
    {
        if self.next < self.todo.len() {
            let (svc, name, expr) = &self.todo[self.next];
            assert(self@.todo[self.next as int] == (*svc, *name, expr@));
            return Action::Evaluate((*svc, *name, expr.clone()));
        }
        let mut program: Vec<Stmt> = Vec::new();
        let mut known: Vec<(Member, Flow)> = Vec::new();
        let mut values: Vec<(Member, Value)> = Vec::new();
        let mut deps: Vec<(Symbol, ServiceGraphs)> = Vec::new();
        assert(types::views(program@) =~= Seq::<StmtV>::empty());
        assert(check::known_view(known@) =~= Seq::<(Member, FlowV)>::empty());
        assert(evaluator::fetched_view(values@) =~= Seq::<(Member, ValueV)>::empty());
        std::mem::swap(&mut program, &mut self.ast);
        std::mem::swap(&mut known, &mut self.types);
        std::mem::swap(&mut values, &mut self.values);
        std::mem::swap(&mut deps, &mut self.deps);
        let id = match &self.lock_txn {
            Some(txn) => Some(txn.id),
            None => None,
        };
        commit_update(manager, id, program, known, values, deps);
        self.state = TransactionState::Evaluated;
        let es = list_effects(manager, &self.updates, &self.lock_txn);
        Action::Apply(es)
    }

    /// Put the changed program together and check it.
    fn enter(&mut self, manager: &mut Manager, txn: LockTxn) -> (a: Action)
        ensures
            entered(
                old(self)@,
                old(manager)@,
                txn@,
                final(self)@,
                final(manager)@,
                a@,
            ),
    {
        let ghost t = self@;
        self.lock_txn = Some(txn);
        self.state = TransactionState::LocksAcquired;
        match apply_updates_to_ast(&manager.unified_ast, &self.updates) {
            Err(svc) => {
                self.release_lock_txn(manager);
                let mut msg = "Target service '".to_owned();
                msg.append(manager.interner.text(svc));
                msg.append("' for update not found");
                return failure(msg);
            },
            Ok(program) => {
                self.ast = program;
            },
        }
        let ghost prog = self@.ast;
        match check_staged(&self.ast, &manager.interner) {
            Err(e) => {
                self.release_lock_txn(manager);
                Action::Fail(e)
            },
            Ok(known) => {
                self.types = known;
                self.deps = named_graphs(&self.ast);
                self.todo = list_assignments(&self.updates);
                self.next = 0;
                let ghost deps = self.deps@;
                assert(graphs_of(prog, deps));
                assert(self@ == staged(t, txn@, prog, check::checked(prog)->Ok_0, deps));
                self.advance(manager)
            },
        }
    }

    /// Take in a value.
    fn on_value(&mut self, manager: &mut Manager, r: Result<Value, EvalError>) -> (a: Action)
        ensures
            (final(self)@, final(manager)@, a@) == valued(
                old(self)@,
                old(manager)@,
                value_view(r),
            ),
    {
        if self.next >= self.todo.len() {
            return Action::Done;
        }
        match r {
            Ok(v) => {
                let at = (self.todo[self.next].0, self.todo[self.next].1);
                let ghost before = self@;
                let ghost value = v@;
                self.values.push((at, v));
                assert(self@.values =~= before.values.push((at, value)));
                self.next = self.next + 1;
                self.advance(manager)
            },
            Err(e) => {
                self.release_lock_txn(manager);
                self.todo = Vec::new();
                self.next = 0;
                assert(self@.todo =~= Seq::<AssignmentV>::empty());
                Action::Fail(e)
            },
        }
    }

    /// Go on with the transaction.
    pub fn poll(&mut self, manager: &mut Manager, event: Event) -> (a: Action)
        ensures
            polled(
                old(self)@,
                old(manager)@,
                event@,
                final(self)@,
                final(manager)@,
                a@,
            ),
    {
        match self.state {
            TransactionState::Init => match event {
                Event::Begin(fresh) => self.begin(manager, fresh),
                Event::Locked(txn) => self.enter(manager, txn),
                Event::Refused(txn) => {
                    manager.release_all_locks(&txn);
                    failure("Lock acquisition conflict during update".to_owned())
                },
                _ => Action::Done,
            },
            TransactionState::LocksAcquired => match event {
                Event::Value(r) => self.on_value(manager, r),
                _ => Action::Done,
            },
            TransactionState::Evaluated => match event {
                Event::Applied => {
                    self.release_lock_txn(manager);
                    self.lock_txn = None;
                    Action::Done
                },
                _ => Action::Done,
            },
        }
    }
}

} // verus!
