//! Which variables an update gives a value, and which updates find no service.

use vstd::prelude::*;

use crate::net::types::TxnId;
use crate::runtime::ast;
use crate::runtime::ast::{DeclV, ExprV, StmtV, ValueV};
use crate::runtime::interner::Symbol;
use crate::runtime::interpreter::evaluator;
use crate::runtime::interpreter::evaluator::EvalErrorV;
use crate::runtime::lookup;
use crate::runtime::manager::ManagerV;
use crate::runtime::tt::types::Member;
use crate::runtime::update::aftermath;
use crate::runtime::update::changes;
use crate::runtime::update::effects::EffectV;
use crate::runtime::update::patch;
use crate::runtime::update::run;
use crate::runtime::update::transaction;
use crate::runtime::update::transaction::{AssignmentV, TransactionV};

verus! {

/// Whether an assignment is for a variable.
pub open spec fn is_for(a: AssignmentV, svc: Symbol, x: Symbol) -> bool {
    a.0 == svc && a.1 == x
}

/// Whether the last assignment of a variable gives it an expression.
spec fn last_is(todo: Seq<AssignmentV>, svc: Symbol, x: Symbol, e: ExprV) -> bool {
    exists|j: int|
        0 <= j < todo.len() && #[trigger] todo[j] == (svc, x, e) && forall|k: int|
            j < k < todo.len() ==> !is_for(#[trigger] todo[k], svc, x)
}

/// Whether no assignment is for a variable.
spec fn none_for(todo: Seq<AssignmentV>, svc: Symbol, x: Symbol) -> bool {
    forall|j: int| 0 <= j < todo.len() ==> !is_for(#[trigger] todo[j], svc, x)
}

/// Whether a declaration makes a name a variable.
pub open spec fn is_var(d: DeclV, x: Symbol) -> bool {
    d is VarDecl && d->VarDecl_name == x
}

/// Assignments behind others.
proof fn lemma_behind(
    a: Seq<AssignmentV>,
    b: Seq<AssignmentV>,
    svc: Symbol,
    x: Symbol,
    e: ExprV,
)
    ensures
        last_is(b, svc, x, e) ==> last_is(a + b, svc, x, e),
        last_is(a, svc, x, e) && none_for(b, svc, x) ==> last_is(a + b, svc, x, e),
        none_for(a, svc, x) && none_for(b, svc, x) ==> none_for(a + b, svc, x),
{
    let n = a.len() as int;
    let c = a + b;
    if last_is(b, svc, x, e) {
        let j = choose|j: int|
            0 <= j < b.len() && #[trigger] b[j] == (svc, x, e) && forall|k: int|
                j < k < b.len() ==> !is_for(#[trigger] b[k], svc, x);
        assert(c[n + j] == (svc, x, e));
        assert forall|k: int| n + j < k < c.len() implies !is_for(#[trigger] c[k], svc, x) by {
            assert(c[k] == b[k - n]);
        }
    }
    if last_is(a, svc, x, e) && none_for(b, svc, x) {
        let j = choose|j: int|
            0 <= j < a.len() && #[trigger] a[j] == (svc, x, e) && forall|k: int|
                j < k < a.len() ==> !is_for(#[trigger] a[k], svc, x);
        assert(c[j] == (svc, x, e));
        assert forall|k: int| j < k < c.len() implies !is_for(#[trigger] c[k], svc, x) by {
            if k >= n {
                assert(c[k] == b[k - n]);
            } else {
                assert(c[k] == a[k]);
            }
        }
    }
    if none_for(a, svc, x) && none_for(b, svc, x) {
        assert forall|k: int| 0 <= k < c.len() implies !is_for(#[trigger] c[k], svc, x) by {
            if k >= n {
                assert(c[k] == b[k - n]);
            } else {
                assert(c[k] == a[k]);
            }
        }
    }
}

/// The assignments of the declarations of a service.
proof fn lemma_service(at: Symbol, decls: Seq<DeclV>, svc: Symbol, x: Symbol, d: DeclV)
    ensures
        (at != svc || forall|k: int| 0 <= k < decls.len() ==> !is_var(#[trigger] decls[k], x))
            ==> none_for(transaction::service_assignments(at, decls), svc, x),
        at == svc && is_var(d, x) && changes::is_last(decls, d) ==> last_is(
            transaction::service_assignments(at, decls),
            svc,
            x,
            d->VarDecl_val,
        ),
    decreases decls.len(),
{
    let all = transaction::service_assignments(at, decls);
    if decls.len() > 0 {
        let rest = decls.drop_last();
        let n = decls.len() - 1;
        let before = transaction::service_assignments(at, rest);
        lemma_service(at, rest, svc, x, d);
        let more = if decls[n] is VarDecl {
            seq![(at, decls[n]->VarDecl_name, decls[n]->VarDecl_val)]
        } else {
            Seq::empty()
        };
        assert(all =~= before + more);
        lemma_behind(before, more, svc, x, d->VarDecl_val);
        if at != svc || forall|k: int| 0 <= k < decls.len() ==> !is_var(#[trigger] decls[k], x) {
            assert forall|k: int| 0 <= k < rest.len() && at == svc implies !is_var(
                #[trigger] rest[k],
                x,
            ) by {
                assert(!is_var(decls[k], x));
            }
            assert(at == svc ==> !is_var(decls[n], x));
            assert(none_for(more, svc, x));
        }
        if at == svc && is_var(d, x) && changes::is_last(decls, d) {
            let j = choose|j: int|
                0 <= j < decls.len() && #[trigger] decls[j] == d && forall|i: int|
                    j < i < decls.len() ==> ast::decl_name(#[trigger] decls[i]) != ast::decl_name(
                        d,
                    );
            if j == n {
                assert(more[0] == (svc, x, d->VarDecl_val));
                assert(last_is(more, svc, x, d->VarDecl_val));
            } else {
                assert(ast::decl_name(decls[n]) != x);
                assert(none_for(more, svc, x));
                assert(rest[j] == d);
                assert forall|i: int| j < i < rest.len() implies ast::decl_name(#[trigger] rest[i])
                    != ast::decl_name(d) by {
                    assert(rest[i] == decls[i]);
                }
                assert(changes::is_last(rest, d));
            }
        }
    }
}

/// Whether updates make a name of a service a variable.
pub open spec fn gives_value(updates: Seq<StmtV>, svc: Symbol, x: Symbol) -> bool {
    exists|k: int, decls: Seq<DeclV>, i: int|
        0 <= k < updates.len() && #[trigger] aftermath::is_about(updates[k], svc, decls) && 0 <= i
            < decls.len() && is_var(#[trigger] decls[i], x)
}

/// The assignments of updates.
proof fn lemma_updates(updates: Seq<StmtV>, svc: Symbol, x: Symbol, d: DeclV)
    ensures
        !gives_value(updates, svc, x) ==> none_for(transaction::assignments(updates), svc, x),
        is_var(d, x) && changes::last_change(updates, svc, d) ==> last_is(
            transaction::assignments(updates),
            svc,
            x,
            d->VarDecl_val,
        ),
    decreases updates.len(),
{
    if updates.len() > 0 {
        let rest = updates.drop_last();
        let n = updates.len() - 1;
        let s = updates[n];
        let before = transaction::assignments(rest);
        lemma_updates(rest, svc, x, d);
        let more = match patch::block_of(s) {
            Some((at, decls)) => transaction::service_assignments(at, decls),
            None => Seq::empty(),
        };
        assert(transaction::assignments(updates) =~= before + more);
        lemma_behind(before, more, svc, x, d->VarDecl_val);
        if let Some((at, decls)) = patch::block_of(s) {
            lemma_service(at, decls, svc, x, d);
        }
        if !gives_value(updates, svc, x) {
            assert forall|k: int, decls: Seq<DeclV>, i: int|
                0 <= k < rest.len() && #[trigger] aftermath::is_about(rest[k], svc, decls) && 0 <= i
                    < decls.len() implies !is_var(#[trigger] decls[i], x) by {
                assert(aftermath::is_about(updates[k], svc, decls));
            }
            if let Some((at, decls)) = patch::block_of(s) {
                if at == svc {
                    assert(aftermath::is_about(updates[n], svc, decls));
                }
            }
            assert(none_for(more, svc, x));
        }
        if is_var(d, x) && changes::last_change(updates, svc, d) {
            let k = choose|k: int|
                0 <= k < updates.len() && changes::sets(#[trigger] updates[k], svc, d) && forall|
                    l: int,
                |
                    k < l < updates.len() ==> !changes::changes(
                        #[trigger] updates[l],
                        svc,
                        ast::decl_name(d),
                    );
            if k < n {
                assert(!changes::changes(updates[n], svc, x));
                if let Some((at, decls)) = patch::block_of(s) {
                    if at == svc {
                        assert(!patch::has_decl(decls, x));
                        assert forall|i: int| 0 <= i < decls.len() implies !is_var(
                            #[trigger] decls[i],
                            x,
                        ) by {
                            assert(ast::decl_name(decls[i]) != x);
                        }
                    }
                }
                assert(none_for(more, svc, x));
                assert(rest[k] == updates[k]);
                assert forall|l: int| k < l < rest.len() implies !changes::changes(
                    #[trigger] rest[l],
                    svc,
                    ast::decl_name(d),
                ) by {
                    assert(rest[l] == updates[l]);
                }
                assert(changes::last_change(rest, svc, d));
            }
        }
    }
}

/// An update that succeeds gives a variable that it declares last in a running service the value
/// that its expression has in the state before the update. A variable that no update declares keeps
/// its value.
pub proof fn updates_give_variables_their_values(
    t: TransactionV,
    m: ManagerV,
    fresh: TxnId,
    fetched: Seq<(Member, ValueV)>,
    m2: ManagerV,
    res: Result<Seq<EffectV>, EvalErrorV>,
    svc: Symbol,
    x: Symbol,
    d: DeclV,
)
    requires
        run::ran(t, m, fresh, fetched, m2, res),
        res is Ok,
        m.services.contains_key(svc),
    ensures
        is_var(d, x) && changes::last_change(t.updates, svc, d) ==> {
            &&& m2.services[svc].vars.contains_key(x)
            &&& evaluator::evaluated(
                lookup::service_context(m, svc, fetched),
                Seq::empty(),
                d->VarDecl_val,
                evaluator::unbounded(),
            ) == Ok::<ValueV, EvalErrorV>(m2.services[svc].vars[x].value)
        },
        !gives_value(t.updates, svc, x) ==> {
            &&& m2.services[svc].vars.contains_key(x) <==> m.services[svc].vars.contains_key(x)
            &&& m.services[svc].vars.contains_key(x) ==> m2.services[svc].vars[x].value
                == m.services[svc].vars[x].value
        },
{
    let todo = transaction::assignments(t.updates);
    run::updates_read_the_state_before(t, m, fresh, fetched, m2, res);
    lemma_updates(t.updates, svc, x, d);
    if is_var(d, x) && changes::last_change(t.updates, svc, d) {
        let j = choose|j: int|
            0 <= j < todo.len() && #[trigger] todo[j] == (svc, x, d->VarDecl_val) && forall|k: int|
                j < k < todo.len() ==> !is_for(#[trigger] todo[k], svc, x);
        assert(run::prevails(todo, j)) by {
            assert forall|k: int| j < k < todo.len() implies ((#[trigger] todo[k]).0, todo[k].1) != (
                todo[j].0,
                todo[j].1,
            ) by {
                assert(!is_for(todo[k], svc, x));
            }
        }
        assert(m.services.dom().contains(todo[j].0));
    }
    if !gives_value(t.updates, svc, x) {
        assert(!run::assigns(todo, svc, x)) by {
            assert forall|j: int| 0 <= j < todo.len() implies !((#[trigger] todo[j]).0 == svc
                && todo[j].1 == x) by {
                assert(!is_for(todo[j], svc, x));
            }
        }
        assert(m2.services[svc].vars[x] == m2.services[svc].vars[x]);
    }
}

/// Whether a program has a service of a name.
pub open spec fn has_service(prog: Seq<StmtV>, svc: Symbol) -> bool {
    exists|k: int|
        0 <= k < prog.len() && (#[trigger] prog[k]) is Service && prog[k]->Service_name == svc
}

/// Whether the `k`th update is of a service that neither the program nor an update before it
/// declares.
pub open spec fn misses(prog: Seq<StmtV>, updates: Seq<StmtV>, k: int) -> bool {
    &&& 0 <= k < updates.len()
    &&& updates[k] is Update
    &&& !has_service(prog, updates[k]->Update_service_name)
    &&& !has_service(updates.take(k), updates[k]->Update_service_name)
}

/// What the search for a service finds.
proof fn lemma_index(prog: Seq<StmtV>, i: int, svc: Symbol)
    requires
        0 <= i,
    ensures
        match patch::service_index(prog, i, svc) {
            Some(k) => i <= k < prog.len() && prog[k] is Service && prog[k]->Service_name == svc,
            None => forall|k: int|
                i <= k < prog.len() ==> !((#[trigger] prog[k]) is Service && prog[k]->Service_name
                    == svc),
        },
    decreases prog.len() - i,
{
    if i < prog.len() {
        lemma_index(prog, i + 1, svc);
    }
}

/// Updates add the services that they declare, and take none away.
proof fn lemma_services(prog: Seq<StmtV>, updates: Seq<StmtV>, svc: Symbol)
    requires
        patch::patched(prog, updates) is Ok,
    ensures
        has_service(patch::patched(prog, updates)->Ok_0, svc) <==> has_service(prog, svc)
            || has_service(updates, svc),
    decreases updates.len(),
{
    if updates.len() > 0 {
        let rest = updates.drop_last();
        let n = updates.len() - 1;
        let s = updates[n];
        lemma_services(prog, rest, svc);
        let p = patch::patched(prog, rest)->Ok_0;
        let q = patch::patched(prog, updates)->Ok_0;
        assert(has_service(updates, svc) <==> has_service(rest, svc) || (s is Service
            && s->Service_name == svc)) by {
            if has_service(rest, svc) {
                let k = choose|k: int|
                    0 <= k < rest.len() && (#[trigger] rest[k]) is Service && rest[k]->Service_name
                        == svc;
                assert(updates[k] is Service && updates[k]->Service_name == svc);
            }
            if has_service(updates, svc) && !(s is Service && s->Service_name == svc) {
                let k = choose|k: int|
                    0 <= k < updates.len() && (#[trigger] updates[k]) is Service
                        && updates[k]->Service_name == svc;
                assert(rest[k] is Service && rest[k]->Service_name == svc);
            }
        }
        if let Some((at, new)) = patch::block_of(s) {
            lemma_index(p, 0, at);
            match patch::service_index(p, 0, at) {
                Some(k) => {
                    assert(p[k] is Service && p[k]->Service_name == at);
                    assert forall|i: int| 0 <= i < p.len() implies ((#[trigger] p[i]) is Service
                        && p[i]->Service_name == svc <==> q[i] is Service && q[i]->Service_name
                        == svc) by {}
                    assert(q.len() == p.len());
                    if has_service(q, svc) {
                        let i = choose|i: int|
                            0 <= i < q.len() && (#[trigger] q[i]) is Service && q[i]->Service_name
                                == svc;
                        assert(p[i] is Service && p[i]->Service_name == svc);
                    }
                    if has_service(p, svc) {
                        let i = choose|i: int|
                            0 <= i < p.len() && (#[trigger] p[i]) is Service && p[i]->Service_name
                                == svc;
                        assert(q[i] is Service && q[i]->Service_name == svc);
                    }
                },
                None => {
                    assert(q == p.push(s));
                    assert(q[p.len() as int] == s);
                    if has_service(q, svc) && !(s is Service && s->Service_name == svc) {
                        let i = choose|i: int|
                            0 <= i < q.len() && (#[trigger] q[i]) is Service && q[i]->Service_name
                                == svc;
                        assert(p[i] is Service && p[i]->Service_name == svc);
                    }
                    if has_service(p, svc) {
                        let i = choose|i: int|
                            0 <= i < p.len() && (#[trigger] p[i]) is Service && p[i]->Service_name
                                == svc;
                        assert(q[i] is Service && q[i]->Service_name == svc);
                    }
                },
            }
        }
    }
}

/// Updates cannot be put into a program exactly where one of them is of a service that neither the
/// program nor an update before it declares; what is missed is then such a service.
pub proof fn updates_need_their_services(prog: Seq<StmtV>, updates: Seq<StmtV>)
    ensures
        patch::patched(prog, updates) is Err <==> exists|k: int| #[trigger]
            misses(prog, updates, k),
        patch::patched(prog, updates) matches Err(svc) ==> exists|k: int| #[trigger]
            misses(prog, updates, k) && updates[k]->Update_service_name == svc,
    decreases updates.len(),
{
    if updates.len() > 0 {
        let rest = updates.drop_last();
        let n = updates.len() - 1;
        let s = updates[n];
        updates_need_their_services(prog, rest);
        assert forall|k: int| 0 <= k < n implies (#[trigger] misses(prog, updates, k) <==> misses(
            prog,
            rest,
            k,
        )) by {
            assert(rest.take(k) =~= updates.take(k));
            assert(rest[k] == updates[k]);
        }
        assert(updates.take(n) =~= rest);
        match patch::patched(prog, rest) {
            Err(svc) => {
                let k = choose|k: int| #[trigger]
                    misses(prog, rest, k) && rest[k]->Update_service_name == svc;
                assert(misses(prog, updates, k));
                assert(updates[k] == rest[k]);
            },
            Ok(p) => {
                if let Some((at, new)) = patch::block_of(s) {
                    lemma_services(prog, rest, at);
                    lemma_index(p, 0, at);
                    if let Some(k) = patch::service_index(p, 0, at) {
                        assert(has_service(p, at));
                    }
                    assert(patch::patched_one(p, s) is Err <==> misses(prog, updates, n));
                }
                assert forall|k: int| #[trigger] misses(prog, updates, k) implies k == n by {
                    if k < n {
                        assert(misses(prog, rest, k));
                    }
                }
            },
        }
    }
}

} // verus!
