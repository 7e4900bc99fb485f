//! Evaluation reads no locks.

use vstd::prelude::*;

use crate::net::types::TxnId;
use crate::runtime::ast::{ExprV, HtmlPartV, HtmlV, ValueV};
use crate::runtime::interner::Symbol;
use crate::runtime::interpreter::evaluator;
use crate::runtime::interpreter::evaluator::{ContextV, Found};
use crate::runtime::manager;
use crate::runtime::manager::{ManagerV, ServiceV};

verus! {

/// Whether two services differ at most in their graphs and in who holds what.
pub open spec fn same_members(a: ServiceV, b: ServiceV) -> bool {
    &&& a.net_id == b.net_id
    &&& a.defs == b.defs
    &&& a.vars.dom() == b.vars.dom()
    &&& forall|x: Symbol|
        a.vars.dom().contains(x) ==> (#[trigger] a.vars[x]).value == b.vars[x].value
}

/// Whether the same services run, and differ at most in their graphs and in who holds what.
pub open spec fn same_services(a: Map<Symbol, ServiceV>, b: Map<Symbol, ServiceV>) -> bool {
    &&& a.dom() == b.dom()
    &&& forall|s: Symbol| a.dom().contains(s) ==> same_members(#[trigger] a[s], b[s])
}

/// A context with other services.
pub open spec fn among(cx: ContextV, services: Map<Symbol, ServiceV>) -> ContextV {
    ContextV { services, ..cx }
}

/// What is known of a member does not depend on who holds what.
proof fn lemma_found(cx: ContextV, b: Map<Symbol, ServiceV>, svc: Symbol, x: Symbol)
    requires
        same_services(cx.services, b),
    ensures
        evaluator::found(among(cx, b), (svc, x)) == evaluator::found(cx, (svc, x)),
        among(evaluator::entered(cx, svc), b) == evaluator::entered(among(cx, b), svc),
{
    if cx.services.dom().contains(svc) {
        assert(same_members(cx.services[svc], b[svc]));
        if cx.services[svc].vars.dom().contains(x) {
            assert(cx.services[svc].vars[x].value == b[svc].vars[x].value);
        }
    }
}

/// The value of an expression does not depend on who holds what.
#[verifier::rlimit(60)]
pub proof fn values_do_not_depend_on_locks(
    cx: ContextV,
    b: Map<Symbol, ServiceV>,
    env: Seq<(Symbol, ValueV)>,
    e: ExprV,
    fuel: nat,
)
    requires
        same_services(cx.services, b),
    ensures
        evaluator::evaluated(among(cx, b), env, e, fuel) == evaluator::evaluated(cx, env, e, fuel),
    decreases fuel, e, 0int,
{
    match e {
        ExprV::Variable { name } => {
            lemma_found(cx, b, cx.svc, name);
            if evaluator::env_value(env, name) is None && fuel > 0 {
                if let Found::By(d) = evaluator::found(cx, (cx.svc, name)) {
                    values_do_not_depend_on_locks(cx, b, Seq::empty(), d, (fuel - 1) as nat);
                }
            }
        },
        ExprV::MemberAccess { service_name, member_name } => {
            lemma_found(cx, b, service_name, member_name);
            if fuel > 0 {
                if let Found::By(d) = evaluator::found(cx, (service_name, member_name)) {
                    values_do_not_depend_on_locks(
                        evaluator::entered(cx, service_name),
                        b,
                        Seq::empty(),
                        d,
                        (fuel - 1) as nat,
                    );
                }
            }
        },
        ExprV::Unop { expr, .. } => {
            values_do_not_depend_on_locks(cx, b, env, *expr, fuel);
        },
        ExprV::Binop { expr1, expr2, .. } => {
            values_do_not_depend_on_locks(cx, b, env, *expr1, fuel);
            values_do_not_depend_on_locks(cx, b, env, *expr2, fuel);
        },
        ExprV::If { cond, expr1, expr2 } => {
            values_do_not_depend_on_locks(cx, b, env, *cond, fuel);
            values_do_not_depend_on_locks(cx, b, env, *expr1, fuel);
            values_do_not_depend_on_locks(cx, b, env, *expr2, fuel);
        },
        ExprV::Call { func, args } => {
            values_do_not_depend_on_locks(cx, b, env, *func, fuel);
            lemma_all(cx, b, env, args, 0, Seq::empty(), fuel);
            if let ExprV::MemberAccess { service_name, member_name } = *func {
                lemma_found(cx, b, service_name, member_name);
            }
            if let Ok(ValueV::Closure { params, body, env: closed }) = evaluator::evaluated(
                cx,
                env,
                *func,
                fuel,
            ) {
                if let Ok(vs) = evaluator::evaluated_all(cx, env, args, 0, Seq::empty(), fuel) {
                    if fuel > 0 {
                        values_do_not_depend_on_locks(
                            evaluator::callee_context(cx, *func),
                            b,
                            evaluator::bound(closed, params, vs),
                            *body,
                            (fuel - 1) as nat,
                        );
                    }
                }
            }
        },
        ExprV::List(val) => {
            lemma_all(cx, b, env, val, 0, Seq::empty(), fuel);
        },
        ExprV::Range { start, end } => {
            values_do_not_depend_on_locks(cx, b, env, *start, fuel);
            values_do_not_depend_on_locks(cx, b, env, *end, fuel);
        },
        ExprV::Html(parts) => {
            lemma_rendered(cx, b, env, parts, 0, evaluator::empty_page(), fuel);
        },
        _ => {},
    }
}

/// The same of several expressions.
proof fn lemma_all(
    cx: ContextV,
    b: Map<Symbol, ServiceV>,
    env: Seq<(Symbol, ValueV)>,
    es: Seq<ExprV>,
    i: int,
    vals: Seq<ValueV>,
    fuel: nat,
)
    requires
        same_services(cx.services, b),
    ensures
        evaluator::evaluated_all(among(cx, b), env, es, i, vals, fuel) == evaluator::evaluated_all(
            cx,
            env,
            es,
            i,
            vals,
            fuel,
        ),
    decreases fuel, es, es.len() - i,
{
    if 0 <= i < es.len() {
        values_do_not_depend_on_locks(cx, b, env, es[i], fuel);
        if let Ok(v) = evaluator::evaluated(cx, env, es[i], fuel) {
            lemma_all(cx, b, env, es, i + 1, vals.push(v), fuel);
        }
    }
}

/// The same of a template.
proof fn lemma_rendered(
    cx: ContextV,
    b: Map<Symbol, ServiceV>,
    env: Seq<(Symbol, ValueV)>,
    parts: Seq<HtmlPartV>,
    i: int,
    before: HtmlV,
    fuel: nat,
)
    requires
        same_services(cx.services, b),
    ensures
        evaluator::rendered(among(cx, b), env, parts, i, before, fuel) == evaluator::rendered(
            cx,
            env,
            parts,
            i,
            before,
            fuel,
        ),
    decreases fuel, parts, parts.len() - i,
{
    if 0 <= i < parts.len() {
        match parts[i] {
            HtmlPartV::Text(s) => {
                lemma_rendered(
                    cx,
                    b,
                    env,
                    parts,
                    i + 1,
                    HtmlV { text: before.text + s, ..before },
                    fuel,
                );
            },
            HtmlPartV::Expr(e) => {
                values_do_not_depend_on_locks(cx, b, env, e, fuel);
                if let Ok(v) = evaluator::evaluated(cx, env, e, fuel) {
                    lemma_rendered(
                        cx,
                        b,
                        env,
                        parts,
                        i + 1,
                        evaluator::with_value(before, v),
                        fuel,
                    );
                }
            },
        }
    }
}

/// Where two nodes are the same once a transaction let go of all it holds, they run the same
/// services with the same members.
pub proof fn lemma_locks_aside(a: ManagerV, b: ManagerV, id: TxnId)
    requires
        manager::released(a, id) == manager::released(b, id),
    ensures
        same_services(a.services, b.services),
        a == (ManagerV { services: a.services, ..b }),
{
    let ra = manager::released(a, id);
    let rb = manager::released(b, id);
    assert(a.services.dom() =~= ra.services.dom());
    assert(b.services.dom() =~= rb.services.dom());
    assert forall|s: Symbol| a.services.dom().contains(s) implies same_members(
        #[trigger] a.services[s],
        b.services[s],
    ) by {
        let sa = a.services[s];
        let sb = b.services[s];
        assert(ra.services[s] == manager::service_released(sa, id));
        assert(rb.services[s] == manager::service_released(sb, id));
        assert(sa.vars.dom() =~= manager::service_released(sa, id).vars.dom());
        assert(sb.vars.dom() =~= manager::service_released(sb, id).vars.dom());
        assert forall|x: Symbol| sa.vars.dom().contains(x) implies (#[trigger] sa.vars[x]).value
            == sb.vars[x].value by {
            assert(manager::service_released(sa, id).vars[x] == manager::var_released(
                sa.vars[x],
                id,
            ));
            assert(manager::service_released(sb, id).vars[x] == manager::var_released(
                sb.vars[x],
                id,
            ));
        }
    }
}

} // verus!
