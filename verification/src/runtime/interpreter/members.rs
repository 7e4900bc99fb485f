//! Where the values of names and members come from.

use vstd::prelude::*;

use crate::runtime::ast::{ExprV, HtmlPartV, HtmlV, ValueV};
use crate::runtime::interner;
use crate::runtime::interner::Symbol;
use crate::runtime::interpreter::evaluator;
use crate::runtime::interpreter::evaluator::{ContextV, EvalErrorV, Found};
use crate::runtime::interpreter::laws;
use crate::runtime::lookup;
use crate::runtime::lookup::LookupStepV;
use crate::runtime::manager::ManagerV;
use crate::runtime::tt::types::Member;

verus! {

/// A name.
pub open spec fn named(x: Symbol) -> ExprV {
    ExprV::Variable { name: x }
}

/// A member of a service.
pub open spec fn member(m: Member) -> ExprV {
    ExprV::MemberAccess { service_name: m.0, member_name: m.1 }
}

/// Whether a running service has a member.
pub open spec fn lives(cx: ContextV, m: Member) -> bool {
    cx.services.contains_key(m.0) && (cx.services[m.0].vars.contains_key(m.1)
        || cx.services[m.0].defs.contains_key(m.1))
}

/// Whether the value of a member was fetched.
pub open spec fn was_fetched(fetched: Seq<(Member, ValueV)>, m: Member) -> bool {
    exists|k: int| 0 <= k < fetched.len() && (#[trigger] fetched[k]).0 == m
}

/// A context with one more fetched value.
pub open spec fn with_fetched(cx: ContextV, m: Member, v: ValueV) -> ContextV {
    ContextV { fetched: cx.fetched.push((m, v)), ..cx }
}

/// The innermost binding of a name is its value, and it hides no other name.
pub proof fn inner_names_hide_outer_ones(
    cx: ContextV,
    env: Seq<(Symbol, ValueV)>,
    x: Symbol,
    v: ValueV,
    y: Symbol,
    fuel: nat,
)
    requires
        y != x,
    ensures
        evaluator::evaluated(cx, env.push((x, v)), named(x), fuel) == Ok::<ValueV, EvalErrorV>(v),
        evaluator::evaluated(cx, env.push((x, v)), named(y), fuel) == evaluator::evaluated(
            cx,
            env,
            named(y),
            fuel,
        ),
{
    let more = env.push((x, v));
    assert(more.last() == (x, v));
    assert(more.drop_last() =~= env);
    assert(evaluator::env_value(more, y) == evaluator::env_value(env, y));
}

/// A fetched value is found where one was fetched.
proof fn lemma_fetched(fetched: Seq<(Member, ValueV)>, m: Member)
    ensures
        evaluator::fetched_value(fetched, m) is Some <==> was_fetched(fetched, m),
    decreases fetched.len(),
{
    if fetched.len() > 0 {
        let rest = fetched.drop_last();
        let n = fetched.len() - 1;
        lemma_fetched(rest, m);
        if was_fetched(rest, m) {
            let k = choose|k: int| 0 <= k < rest.len() && (#[trigger] rest[k]).0 == m;
            assert(fetched[k].0 == m);
        }
        if was_fetched(fetched, m) && fetched[n].0 != m {
            let k = choose|k: int| 0 <= k < fetched.len() && (#[trigger] fetched[k]).0 == m;
            assert(rest[k].0 == m);
        }
        assert(fetched[n] == fetched.last());
    }
}

/// A variable of a running service is read there, whatever was fetched. A definition of one has the
/// value that its expression has in that service, where no local name is known. A member that does
/// not live here has the value that was fetched last, and is asked for where none was.
pub proof fn members_are_read_where_they_live(
    cx: ContextV,
    env: Seq<(Symbol, ValueV)>,
    m: Member,
    v: ValueV,
    fuel: nat,
)
    ensures
        cx.services.contains_key(m.0) && cx.services[m.0].vars.contains_key(m.1)
            ==> evaluator::evaluated(cx, env, member(m), fuel) == Ok::<ValueV, EvalErrorV>(
            cx.services[m.0].vars[m.1].value,
        ),
        lives(cx, m) && !cx.services[m.0].vars.contains_key(m.1) ==> evaluator::evaluated(
            cx,
            env,
            member(m),
            fuel + 1,
        ) == evaluator::evaluated(
            ContextV { svc: m.0, net_id: cx.services[m.0].net_id, ..cx },
            Seq::empty(),
            cx.services[m.0].defs[m.1],
            fuel,
        ),
        !lives(cx, m) ==> evaluator::evaluated(with_fetched(cx, m, v), env, member(m), fuel) == Ok::<
            ValueV,
            EvalErrorV,
        >(v),
        !lives(cx, m) && !was_fetched(cx.fetched, m) ==> evaluator::evaluated(
            cx,
            env,
            member(m),
            fuel,
        ) == Err::<ValueV, EvalErrorV>(EvalErrorV::NeedLookup(m)),
{
    lemma_fetched(cx.fetched, m);
    assert(cx.fetched.push((m, v)).last() == (m, v));
}

/// In a running service a name that is not local is the member of that service.
pub proof fn bare_names_are_own_members(
    cx: ContextV,
    env: Seq<(Symbol, ValueV)>,
    x: Symbol,
    fuel: nat,
)
    requires
        forall|k: int| 0 <= k < env.len() ==> (#[trigger] env[k]).0 != x,
        cx.services.contains_key(cx.svc) ==> cx.services[cx.svc].net_id == cx.net_id,
    ensures
        evaluator::evaluated(cx, env, named(x), fuel) == evaluator::evaluated(
            cx,
            env,
            member((cx.svc, x)),
            fuel,
        ),
{
    lemma_not_local(env, x);
    assert(evaluator::entered(cx, cx.svc) == cx);
}

/// A name that is not bound has no local value.
proof fn lemma_not_local(env: Seq<(Symbol, ValueV)>, x: Symbol)
    requires
        forall|k: int| 0 <= k < env.len() ==> (#[trigger] env[k]).0 != x,
    ensures
        evaluator::env_value(env, x) is None,
    decreases env.len(),
{
    if env.len() > 0 {
        assert(env[env.len() - 1].0 != x);
        assert forall|k: int| 0 <= k < env.drop_last().len() implies (
        #[trigger] env.drop_last()[k]).0 != x by {
            assert(env[k].0 != x);
        }
        lemma_not_local(env.drop_last(), x);
    }
}

/// Written values.
pub open spec fn written(vs: Seq<ValueV>) -> Seq<ExprV> {
    vs.map_values(|v: ValueV| ExprV::Literal { val: v })
}

/// Written values are what they are, wherever they stand.
proof fn lemma_written(
    cx: ContextV,
    env: Seq<(Symbol, ValueV)>,
    vs: Seq<ValueV>,
    i: int,
    fuel: nat,
)
    requires
        0 <= i <= vs.len(),
    ensures
        evaluator::evaluated_all(cx, env, written(vs), i, vs.take(i), fuel) == Ok::<
            Seq<ValueV>,
            EvalErrorV,
        >(vs),
    decreases vs.len() - i,
{
    if i < vs.len() {
        assert(written(vs)[i] == ExprV::Literal { val: vs[i] });
        assert(evaluator::evaluated(cx, env, written(vs)[i], fuel) == Ok::<ValueV, EvalErrorV>(
            vs[i],
        ));
        assert(vs.take(i).push(vs[i]) =~= vs.take(i + 1));
        lemma_written(cx, env, vs, i + 1, fuel);
    } else {
        assert(vs.take(i) =~= vs);
    }
}

/// A function that is called as the member of a running service works in that service: the call has
/// the value that a call of the function itself has there, whatever is around it.
pub proof fn members_are_called_in_their_service(
    cx: ContextV,
    env: Seq<(Symbol, ValueV)>,
    m: Member,
    f: ValueV,
    vs: Seq<ValueV>,
    around: Seq<(Symbol, ValueV)>,
    fuel: nat,
)
    requires
        cx.services.contains_key(m.0),
        evaluator::evaluated(cx, env, member(m), fuel) == Ok::<ValueV, EvalErrorV>(f),
    ensures
        evaluator::evaluated(
            cx,
            env,
            ExprV::Call { func: Box::new(member(m)), args: written(vs) },
            fuel,
        ) == evaluator::evaluated(
            ContextV { svc: m.0, net_id: cx.services[m.0].net_id, ..cx },
            around,
            ExprV::Call {
                func: Box::new(ExprV::Literal { val: f }),
                args: written(vs),
            },
            fuel,
        ),
{
    let inner = ContextV { svc: m.0, net_id: cx.services[m.0].net_id, ..cx };
    let whole = ExprV::Literal { val: f };
    assert(vs.take(0) =~= Seq::<ValueV>::empty());
    lemma_written(cx, env, vs, 0, fuel);
    lemma_written(inner, around, vs, 0, fuel);
    assert(evaluator::evaluated(inner, around, whole, fuel) == Ok::<ValueV, EvalErrorV>(f));
    assert(evaluator::callee_context(cx, member(m)) == inner);
    assert(evaluator::callee_context(inner, whole) == inner);
}

/// A range reaches from the value of its first bound to that of its second; bounds that are no
/// integers are refused.
pub proof fn ranges_have_integer_bounds(
    cx: ContextV,
    env: Seq<(Symbol, ValueV)>,
    a: ExprV,
    b: ExprV,
    va: ValueV,
    vb: ValueV,
    fuel: nat,
)
    requires
        evaluator::evaluated(cx, env, a, fuel) == Ok::<ValueV, EvalErrorV>(va),
        evaluator::evaluated(cx, env, b, fuel) == Ok::<ValueV, EvalErrorV>(vb),
    ensures
        ({
            let r = evaluator::evaluated(
                cx,
                env,
                ExprV::Range { start: Box::new(a), end: Box::new(b) },
                fuel,
            );
            &&& va is Int && vb is Int ==> r == Ok::<ValueV, EvalErrorV>(
                ValueV::Range { start: va->Int_val, end: vb->Int_val },
            )
            &&& !(va is Int && vb is Int) ==> laws::fails(r, "Range bounds must be integers"@)
        }),
{
}

/// A member that is known here is not asked for.
#[verifier::rlimit(60)]
pub proof fn known_members_are_not_asked_for(
    cx: ContextV,
    env: Seq<(Symbol, ValueV)>,
    e: ExprV,
    m: Member,
    fuel: nat,
)
    requires
        lives(cx, m) || was_fetched(cx.fetched, m),
    ensures
        evaluator::evaluated(cx, env, e, fuel) != Err::<ValueV, EvalErrorV>(
            EvalErrorV::NeedLookup(m),
        ),
    decreases fuel, e, 0int,
{
    lemma_fetched(cx.fetched, m);
    match e {
        ExprV::Variable { name } => {
            if evaluator::env_value(env, name) is None && fuel > 0 {
                if let Found::By(d) = evaluator::found(cx, (cx.svc, name)) {
                    known_members_are_not_asked_for(cx, Seq::empty(), d, m, (fuel - 1) as nat);
                }
            }
        },
        ExprV::MemberAccess { service_name, member_name } => {
            if fuel > 0 {
                if let Found::By(d) = evaluator::found(cx, (service_name, member_name)) {
                    known_members_are_not_asked_for(
                        evaluator::entered(cx, service_name),
                        Seq::empty(),
                        d,
                        m,
                        (fuel - 1) as nat,
                    );
                }
            }
        },
        ExprV::Unop { expr, .. } => {
            known_members_are_not_asked_for(cx, env, *expr, m, fuel);
        },
        ExprV::Binop { expr1, expr2, .. } => {
            known_members_are_not_asked_for(cx, env, *expr1, m, fuel);
            known_members_are_not_asked_for(cx, env, *expr2, m, fuel);
        },
        ExprV::If { cond, expr1, expr2 } => {
            known_members_are_not_asked_for(cx, env, *cond, m, fuel);
            known_members_are_not_asked_for(cx, env, *expr1, m, fuel);
            known_members_are_not_asked_for(cx, env, *expr2, m, fuel);
        },
        ExprV::Call { func, args } => {
            known_members_are_not_asked_for(cx, env, *func, m, fuel);
            lemma_all(cx, env, args, 0, Seq::empty(), m, fuel);
            if let Ok(ValueV::Closure { params, body, env: closed }) = evaluator::evaluated(
                cx,
                env,
                *func,
                fuel,
            ) {
                if let Ok(vs) = evaluator::evaluated_all(cx, env, args, 0, Seq::empty(), fuel) {
                    if fuel > 0 {
                        known_members_are_not_asked_for(
                            evaluator::callee_context(cx, *func),
                            evaluator::bound(closed, params, vs),
                            *body,
                            m,
                            (fuel - 1) as nat,
                        );
                    }
                }
            }
        },
        ExprV::List(val) => {
            lemma_all(cx, env, val, 0, Seq::empty(), m, fuel);
        },
        ExprV::Range { start, end } => {
            known_members_are_not_asked_for(cx, env, *start, m, fuel);
            known_members_are_not_asked_for(cx, env, *end, m, fuel);
        },
        ExprV::Html(parts) => {
            lemma_rendered(cx, env, parts, 0, evaluator::empty_page(), m, fuel);
        },
        _ => {},
    }
}

/// The same of several expressions.
proof fn lemma_all(
    cx: ContextV,
    env: Seq<(Symbol, ValueV)>,
    es: Seq<ExprV>,
    i: int,
    vals: Seq<ValueV>,
    m: Member,
    fuel: nat,
)
    requires
        lives(cx, m) || was_fetched(cx.fetched, m),
    ensures
        evaluator::evaluated_all(cx, env, es, i, vals, fuel) != Err::<Seq<ValueV>, EvalErrorV>(
            EvalErrorV::NeedLookup(m),
        ),
    decreases fuel, es, es.len() - i,
{
    if 0 <= i < es.len() {
        known_members_are_not_asked_for(cx, env, es[i], m, fuel);
        if let Ok(v) = evaluator::evaluated(cx, env, es[i], fuel) {
            lemma_all(cx, env, es, i + 1, vals.push(v), m, fuel);
        }
    }
}

/// The same of a template.
proof fn lemma_rendered(
    cx: ContextV,
    env: Seq<(Symbol, ValueV)>,
    parts: Seq<HtmlPartV>,
    i: int,
    before: HtmlV,
    m: Member,
    fuel: nat,
)
    requires
        lives(cx, m) || was_fetched(cx.fetched, m),
    ensures
        evaluator::rendered(cx, env, parts, i, before, fuel) != Err::<HtmlV, EvalErrorV>(
            EvalErrorV::NeedLookup(m),
        ),
    decreases fuel, parts, parts.len() - i,
{
    if 0 <= i < parts.len() {
        match parts[i] {
            HtmlPartV::Text(s) => {
                let next = HtmlV { text: before.text + s, ..before };
                lemma_rendered(cx, env, parts, i + 1, next, m, fuel);
            },
            HtmlPartV::Expr(e) => {
                known_members_are_not_asked_for(cx, env, e, m, fuel);
                if let Ok(v) = evaluator::evaluated(cx, env, e, fuel) {
                    let next = evaluator::with_value(before, v);
                    lemma_rendered(cx, env, parts, i + 1, next, m, fuel);
                }
            },
        }
    }
}

/// Looking for the value of an expression, a node reads members from where their services run: only
/// such as do not live at the node, and each once. It is done where nothing is left to be read.
pub proof fn members_are_read_from_their_nodes_once(
    m: ManagerV,
    svc: Symbol,
    e: ExprV,
    fetched: Seq<(Member, ValueV)>,
)
    ensures
        match lookup::looked_up(m, svc, e, fetched) {
            LookupStepV::Read { addr, service, name, member } => {
                &&& m.remote.contains_key(member.0)
                &&& addr == m.remote[member.0]
                &&& service == interner::name_text(m.names, member.0)
                &&& name == interner::name_text(m.names, member.1)
                &&& !lives(lookup::service_context(m, svc, fetched), member)
                &&& !was_fetched(fetched, member)
            },
            LookupStepV::Ready(r) => {
                &&& r == evaluator::evaluated(
                    lookup::service_context(m, svc, fetched),
                    Seq::empty(),
                    e,
                    evaluator::unbounded(),
                )
                &&& r matches Err(EvalErrorV::NeedLookup(at)) ==> !m.remote.contains_key(at.0)
            },
        },
{
    let cx = lookup::service_context(m, svc, fetched);
    if let Err(EvalErrorV::NeedLookup(at)) = evaluator::evaluated(
        cx,
        Seq::empty(),
        e,
        evaluator::unbounded(),
    ) {
        if lives(cx, at) || was_fetched(fetched, at) {
            known_members_are_not_asked_for(cx, Seq::empty(), e, at, evaluator::unbounded());
        }
    }
}

} // verus!
