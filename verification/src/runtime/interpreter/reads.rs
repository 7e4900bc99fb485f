//! What evaluation reads: nothing but what is listed for an expression.

use vstd::prelude::*;

use crate::runtime::ast::{ExprV, HtmlPartV, HtmlV, ValueV};
use crate::runtime::graphs::free_var;
use crate::runtime::interner::Symbol;
use crate::runtime::interpreter::evaluator;
use crate::runtime::interpreter::evaluator::{ContextV, Evaluated, Found};
use crate::runtime::tree;
use crate::runtime::tree::Node;
use crate::runtime::tt::types::{Member, ParamV};

verus! {

/// Whether a function in the tree of an expression has a parameter of a name.
pub open spec fn has_param(e: ExprV, x: Symbol) -> bool {
    exists|f: ExprV| #[trigger] stands_in(e, f) && f is Func && free_var::binds(f->Func_params, x)
}

/// Whether an expression stands in the tree of another.
pub open spec fn stands_in(e: ExprV, sub: ExprV) -> bool {
    exists|b: Set<Symbol>, o: int| #[trigger]
        tree::stands(Seq::empty(), Node::Expr(e), Node::Expr(sub), b, o)
}

/// Whether a name occurs free in an expression, or is a parameter in it.
pub open spec fn involves(e: ExprV, x: Symbol) -> bool {
    free_var::occurs_free(e, x) || has_param(e, x)
}

/// Whether `reads` holds what is listed for an expression, in whichever of these services it is
/// evaluated: the names that it involves, and the members that it names. What is written out in it
/// is covered too.
pub open spec fn covers(reads: Set<Member>, services: Set<Symbol>, e: ExprV) -> bool {
    &&& forall|s: Symbol, x: Symbol|
        services.contains(s) && #[trigger] involves(e, x) ==> #[trigger] reads.contains((s, x))
    &&& forall|m: Member| #[trigger]
        free_var::names_member(e, m) ==> reads.contains(m) && services.contains(m.0)
    &&& forall|sub: ExprV| #[trigger]
        stands_in(e, sub) ==> (sub is Literal ==> plain(sub->Literal_val))
}

/// Whether a value holds no function.
pub open spec fn plain(v: ValueV) -> bool
    decreases v,
{
    match v {
        ValueV::Closure { .. } => false,
        ValueV::List { vals } => forall|i: int| 0 <= i < vals.len() ==> plain(#[trigger] vals[i]),
        _ => true,
    }
}

/// Whether `reads` holds what is listed for the functions in a value.
pub open spec fn value_covered(reads: Set<Member>, services: Set<Symbol>, v: ValueV) -> bool
    decreases v,
{
    match v {
        ValueV::Closure { params, body, env } => {
            &&& covers(reads, services, *body)
            &&& forall|i: int|
                0 <= i < env.len() ==> value_covered(reads, services, (#[trigger] env[i]).1)
        },
        ValueV::List { vals } => forall|i: int|
            0 <= i < vals.len() ==> value_covered(reads, services, #[trigger] vals[i]),
        _ => true,
    }
}

/// Whether `reads` holds what is listed for the functions in local values.
pub open spec fn env_covered(
    reads: Set<Member>,
    services: Set<Symbol>,
    env: Seq<(Symbol, ValueV)>,
) -> bool {
    forall|i: int| 0 <= i < env.len() ==> value_covered(reads, services, (#[trigger] env[i]).1)
}

/// Whether `reads` holds, with a member, what is listed for it in turn.
pub open spec fn closed(reads: Set<Member>, services: Set<Symbol>, cx: ContextV) -> bool {
    forall|m: Member| #[trigger]
        reads.contains(m) ==> match evaluator::found(cx, m) {
            Found::Is(v) => value_covered(reads, services, v),
            Found::By(d) => covers(reads, services, d),
            Found::Nowhere => true,
        }
}

/// Whether two states agree on the members of a set, and on how services are known on the network.
pub open spec fn agree(a: ContextV, b: ContextV, reads: Set<Member>, services: Set<Symbol>) -> bool {
    &&& a.svc == b.svc
    &&& a.net_id == b.net_id
    &&& forall|m: Member| #[trigger]
        reads.contains(m) ==> evaluator::found(a, m) == evaluator::found(b, m)
    &&& forall|s: Symbol| #[trigger]
        services.contains(s) ==> {
            &&& a.services.dom().contains(s) == b.services.dom().contains(s)
            &&& a.services.dom().contains(s) ==> a.services[s].net_id == b.services[s].net_id
        }
}

/// What an outcome holds is covered.
pub open spec fn outcome_covered(reads: Set<Member>, services: Set<Symbol>, r: Evaluated) -> bool {
    r matches Ok(v) ==> value_covered(reads, services, v)
}

/// Values without functions are covered.
proof fn lemma_plain(reads: Set<Member>, services: Set<Symbol>, v: ValueV)
    requires
        plain(v),
    ensures
        value_covered(reads, services, v),
    decreases v,
{
    if let ValueV::List { vals } = v {
        assert forall|i: int| 0 <= i < vals.len() implies value_covered(
            reads,
            services,
            #[trigger] vals[i],
        ) by {
            lemma_plain(reads, services, vals[i]);
        }
    }
}

/// What is covered of an expression is covered of its parts.
proof fn lemma_part_covered(
    reads: Set<Member>,
    services: Set<Symbol>,
    e: ExprV,
    c: ExprV,
    b: Set<Symbol>,
    o: int,
)
    requires
        covers(reads, services, e),
        tree::part(Seq::empty(), Node::Expr(e), Node::Expr(c), b, o),
        forall|x: Symbol| #[trigger]
            free_var::occurs_free(c, x) ==> involves(e, x),
        forall|m: Member| #[trigger] free_var::names_member(c, m) ==> free_var::names_member(e, m),
    ensures
        covers(reads, services, c),
{
    assert forall|sub: ExprV| #[trigger] stands_in(c, sub) implies stands_in(e, sub) by {
        let (b2, o2) = choose|b2: Set<Symbol>, o2: int| #[trigger]
            tree::stands(Seq::empty(), Node::Expr(c), Node::Expr(sub), b2, o2);
        tree::lemma_in_part(
            Seq::empty(),
            Node::Expr(e),
            Node::Expr(c),
            b,
            o,
            Node::Expr(sub),
            b2,
            o2,
        );
    }
    assert forall|s: Symbol, x: Symbol|
        services.contains(s) && #[trigger] involves(c, x) implies #[trigger] reads.contains(
        (s, x),
    ) by {
        if has_param(c, x) {
            let f = choose|f: ExprV| #[trigger]
                stands_in(c, f) && f is Func && free_var::binds(f->Func_params, x);
            assert(stands_in(e, f));
        }
        assert(involves(e, x));
    }
}

/// The value of a local name is covered.
proof fn lemma_env_value(
    reads: Set<Member>,
    services: Set<Symbol>,
    env: Seq<(Symbol, ValueV)>,
    x: Symbol,
)
    requires
        env_covered(reads, services, env),
    ensures
        evaluator::env_value(env, x) matches Some(v) ==> value_covered(reads, services, v),
    decreases env.len(),
{
    if env.len() > 0 {
        let rest = env.drop_last();
        assert(env.last() == env[env.len() - 1]);
        assert forall|i: int| 0 <= i < rest.len() implies value_covered(
            reads,
            services,
            (#[trigger] rest[i]).1,
        ) by {
            assert(rest[i] == env[i]);
        }
        lemma_env_value(reads, services, rest, x);
    }
}

/// What is kept of local values is covered.
proof fn lemma_filtered(
    reads: Set<Member>,
    services: Set<Symbol>,
    env: Seq<(Symbol, ValueV)>,
    keep: spec_fn((Symbol, ValueV)) -> bool,
)
    requires
        env_covered(reads, services, env),
    ensures
        env_covered(reads, services, env.filter(keep)),
    decreases env.len(),
{
    reveal(Seq::filter);
    if env.len() > 0 {
        let rest = env.drop_last();
        assert(env.last() == env[env.len() - 1]);
        assert forall|i: int| 0 <= i < rest.len() implies value_covered(
            reads,
            services,
            (#[trigger] rest[i]).1,
        ) by {
            assert(rest[i] == env[i]);
        }
        lemma_filtered(reads, services, rest, keep);
        let kept = rest.filter(keep);
        assert forall|i: int| 0 <= i < env.filter(keep).len() implies value_covered(
            reads,
            services,
            (#[trigger] env.filter(keep)[i]).1,
        ) by {
            if i < kept.len() {
                assert(env.filter(keep)[i] == kept[i]);
            }
        }
    }
}

/// A root stands in its own tree.
proof fn lemma_self(e: ExprV)
    ensures
        stands_in(e, e),
{
    tree::lemma_root(Seq::empty(), Node::Expr(e));
}

/// In two states that agree on what is listed for an expression, and on what is listed in turn for
/// the members listed, the expression has the same value, or fails in the same way. What is listed
/// are the names that occur free in it or are parameters in it, as members of the services that it
/// may be evaluated in, and the members of services that it names.
#[verifier::rlimit(100)]
#[verifier::spinoff_prover]
pub proof fn evaluation_reads_what_is_listed(
    a: ContextV,
    b: ContextV,
    reads: Set<Member>,
    services: Set<Symbol>,
    env: Seq<(Symbol, ValueV)>,
    e: ExprV,
    fuel: nat,
)
    requires
        agree(a, b, reads, services),
        closed(reads, services, a),
        services.contains(a.svc),
        covers(reads, services, e),
        env_covered(reads, services, env),
    ensures
        evaluator::evaluated(a, env, e, fuel) == evaluator::evaluated(b, env, e, fuel),
        outcome_covered(reads, services, evaluator::evaluated(a, env, e, fuel)),
    decreases fuel, e, 0int,
{
    let none = Set::<Symbol>::empty();
    let p = Node::Expr(e);
    lemma_self(e);
    match e {
        ExprV::Literal { val } => {
            lemma_plain(reads, services, val);
        },
        ExprV::Variable { name } => {
            lemma_env_value(reads, services, env, name);
            if evaluator::env_value(env, name) is None {
                let m = (a.svc, name);
                assert(involves(e, name));
                assert(reads.contains(m));
                if let Found::By(d) = evaluator::found(a, m) {
                    if fuel > 0 {
                        evaluation_reads_what_is_listed(
                            a,
                            b,
                            reads,
                            services,
                            Seq::empty(),
                            d,
                            (fuel - 1) as nat,
                        );
                    }
                }
            }
        },
        ExprV::MemberAccess { service_name, member_name } => {
            let m = (service_name, member_name);
            assert(free_var::names_member(e, m));
            assert(reads.contains(m));
            if let Found::By(d) = evaluator::found(a, m) {
                if fuel > 0 {
                    lemma_entered(a, b, reads, services, service_name);
                    evaluation_reads_what_is_listed(
                        evaluator::entered(a, service_name),
                        evaluator::entered(b, service_name),
                        reads,
                        services,
                        Seq::empty(),
                        d,
                        (fuel - 1) as nat,
                    );
                }
            }
        },
        ExprV::Unop { expr, .. } => {
            lemma_part_covered(reads, services, e, *expr, none, 0);
            evaluation_reads_what_is_listed(a, b, reads, services, env, *expr, fuel);
        },
        ExprV::Binop { expr1, expr2, .. } => {
            lemma_part_covered(reads, services, e, *expr1, none, 0);
            lemma_part_covered(reads, services, e, *expr2, none, 0);
            evaluation_reads_what_is_listed(a, b, reads, services, env, *expr1, fuel);
            evaluation_reads_what_is_listed(a, b, reads, services, env, *expr2, fuel);
        },
        ExprV::If { cond, expr1, expr2 } => {
            lemma_part_covered(reads, services, e, *cond, none, 0);
            lemma_part_covered(reads, services, e, *expr1, none, 0);
            lemma_part_covered(reads, services, e, *expr2, none, 0);
            evaluation_reads_what_is_listed(a, b, reads, services, env, *cond, fuel);
            evaluation_reads_what_is_listed(a, b, reads, services, env, *expr1, fuel);
            evaluation_reads_what_is_listed(a, b, reads, services, env, *expr2, fuel);
        },
        ExprV::Func { params, body, .. } => {
            let bound = Set::new(
                |x: Symbol|
                    exists|i: int| 0 <= i < params.len() && (#[trigger] params[i]).name == x,
            );
            assert forall|x: Symbol| #[trigger] free_var::occurs_free(*body, x) implies involves(
                e,
                x,
            ) by {
                if free_var::binds(params, x) {
                    assert(stands_in(e, e) && e is Func);
                    assert(has_param(e, x));
                }
            }
            lemma_part_covered(reads, services, e, *body, bound, 1);
            lemma_captured(reads, services, env, e);
        },
        ExprV::Action(_) => {},
        ExprV::Call { func, args } => {
            lemma_part_covered(reads, services, e, *func, none, 0);
            evaluation_reads_what_is_listed(a, b, reads, services, env, *func, fuel);
            lemma_all_parts_covered(reads, services, e, args);
            lemma_all(a, b, reads, services, env, args, 0, Seq::empty(), fuel);
            if let Ok(ValueV::Closure { params, body, env: inner }) = evaluator::evaluated(
                a,
                env,
                *func,
                fuel,
            ) {
                if let Ok(vs) = evaluator::evaluated_all(a, env, args, 0, Seq::empty(), fuel) {
                    if fuel > 0 {
                        if let ExprV::MemberAccess { service_name, member_name } = *func {
                            assert(free_var::names_member(*func, (service_name, member_name)));
                            assert(services.contains(service_name));
                            lemma_entered(a, b, reads, services, service_name);
                        }
                        lemma_bound(reads, services, inner, params, vs);
                        evaluation_reads_what_is_listed(
                            evaluator::callee_context(a, *func),
                            evaluator::callee_context(b, *func),
                            reads,
                            services,
                            evaluator::bound(inner, params, vs),
                            *body,
                            (fuel - 1) as nat,
                        );
                    }
                }
            }
        },
        ExprV::List(val) => {
            lemma_all_parts_covered(reads, services, e, val);
            lemma_all(a, b, reads, services, env, val, 0, Seq::empty(), fuel);
        },
        ExprV::Range { start, end } => {
            lemma_part_covered(reads, services, e, *start, none, 0);
            lemma_part_covered(reads, services, e, *end, none, 0);
            evaluation_reads_what_is_listed(a, b, reads, services, env, *start, fuel);
            evaluation_reads_what_is_listed(a, b, reads, services, env, *end, fuel);
        },
        ExprV::Html(parts) => {
            assert forall|i: int| 0 <= i < parts.len() && (#[trigger] parts[i]) is Expr implies covers(
                reads,
                services,
                parts[i]->Expr_0,
            ) by {
                let c = parts[i]->Expr_0;
                assert forall|x: Symbol| #[trigger] free_var::occurs_free(c, x) implies involves(
                    e,
                    x,
                ) by {
                    assert(free_var::occurs_free_in_part(parts[i], x));
                    assert(free_var::occurs_free_in_parts(parts, x));
                }
                assert forall|m: Member| #[trigger]
                    free_var::names_member(c, m) implies free_var::names_member(e, m) by {
                    assert(free_var::part_names_member(parts[i], m));
                    assert(free_var::parts_name_member(parts, m));
                }
                lemma_part_covered(reads, services, e, c, none, 0);
            }
            lemma_rendered(
                a,
                b,
                reads,
                services,
                env,
                parts,
                0,
                evaluator::empty_page(),
                fuel,
            );
        },
        _ => {},
    }
}

/// States that agree still do inside a service.
proof fn lemma_entered(
    a: ContextV,
    b: ContextV,
    reads: Set<Member>,
    services: Set<Symbol>,
    svc: Symbol,
)
    requires
        agree(a, b, reads, services),
        closed(reads, services, a),
        services.contains(svc),
    ensures
        agree(evaluator::entered(a, svc), evaluator::entered(b, svc), reads, services),
        closed(reads, services, evaluator::entered(a, svc)),
        evaluator::entered(a, svc).svc == svc,
{
    assert forall|m: Member| #[trigger] reads.contains(m) implies evaluator::found(
        evaluator::entered(a, svc),
        m,
    ) == evaluator::found(a, m) && evaluator::found(evaluator::entered(b, svc), m)
        == evaluator::found(b, m) by {}
}

/// What a function or an action keeps of the local values is covered.
proof fn lemma_captured(
    reads: Set<Member>,
    services: Set<Symbol>,
    env: Seq<(Symbol, ValueV)>,
    e: ExprV,
)
    requires
        env_covered(reads, services, env),
    ensures
        env_covered(reads, services, evaluator::captured(env, e)),
{
    lemma_filtered(reads, services, env, |q: (Symbol, ValueV)| free_var::occurs_free(e, q.0));
}

/// Parameters bound to covered arguments are covered.
proof fn lemma_bound(
    reads: Set<Member>,
    services: Set<Symbol>,
    env: Seq<(Symbol, ValueV)>,
    params: Seq<ParamV>,
    vs: Seq<ValueV>,
)
    requires
        env_covered(reads, services, env),
        forall|i: int| 0 <= i < vs.len() ==> value_covered(reads, services, #[trigger] vs[i]),
    ensures
        env_covered(reads, services, evaluator::bound(env, params, vs)),
{
    let all = evaluator::bound(env, params, vs);
    assert forall|i: int| 0 <= i < all.len() implies value_covered(
        reads,
        services,
        (#[trigger] all[i]).1,
    ) by {
        if i < env.len() {
            assert(all[i] == env[i]);
        } else {
            assert(all[i].1 == vs[i - env.len()]);
        }
    }
}

/// The expressions of a list or the arguments of a call are covered.
proof fn lemma_all_parts_covered(
    reads: Set<Member>,
    services: Set<Symbol>,
    e: ExprV,
    es: Seq<ExprV>,
)
    requires
        covers(reads, services, e),
        e == ExprV::List(es) || (e is Call && e->args == es),
    ensures
        forall|i: int| 0 <= i < es.len() ==> covers(reads, services, #[trigger] es[i]),
{
    assert forall|i: int| 0 <= i < es.len() implies covers(
        reads,
        services,
        #[trigger] es[i],
    ) by {
        assert forall|x: Symbol| #[trigger] free_var::occurs_free(es[i], x) implies involves(
            e,
            x,
        ) by {
            assert(free_var::occurs_free_in_any(es, x));
        }
        assert forall|m: Member| #[trigger]
            free_var::names_member(es[i], m) implies free_var::names_member(e, m) by {
            assert(free_var::any_names_member(es, m));
        }
        lemma_part_covered(reads, services, e, es[i], Set::empty(), 0);
    }
}

/// The same of several expressions.
proof fn lemma_all(
    a: ContextV,
    b: ContextV,
    reads: Set<Member>,
    services: Set<Symbol>,
    env: Seq<(Symbol, ValueV)>,
    es: Seq<ExprV>,
    i: int,
    vals: Seq<ValueV>,
    fuel: nat,
)
    requires
        0 <= i,
        agree(a, b, reads, services),
        closed(reads, services, a),
        services.contains(a.svc),
        forall|k: int| 0 <= k < es.len() ==> covers(reads, services, #[trigger] es[k]),
        env_covered(reads, services, env),
        forall|k: int| 0 <= k < vals.len() ==> value_covered(reads, services, #[trigger] vals[k]),
    ensures
        evaluator::evaluated_all(a, env, es, i, vals, fuel) == evaluator::evaluated_all(
            b,
            env,
            es,
            i,
            vals,
            fuel,
        ),
        evaluator::evaluated_all(a, env, es, i, vals, fuel) matches Ok(vs) ==> forall|k: int|
            0 <= k < vs.len() ==> value_covered(reads, services, #[trigger] vs[k]),
    decreases fuel, es, es.len() - i,
{
    if i < es.len() {
        evaluation_reads_what_is_listed(a, b, reads, services, env, es[i], fuel);
        if let Ok(v) = evaluator::evaluated(a, env, es[i], fuel) {
            let more = vals.push(v);
            assert forall|k: int| 0 <= k < more.len() implies value_covered(
                reads,
                services,
                #[trigger] more[k],
            ) by {
                if k < vals.len() {
                    assert(more[k] == vals[k]);
                }
            }
            lemma_all(a, b, reads, services, env, es, i + 1, more, fuel);
        }
    }
}

/// The same of a template.
proof fn lemma_rendered(
    a: ContextV,
    b: ContextV,
    reads: Set<Member>,
    services: Set<Symbol>,
    env: Seq<(Symbol, ValueV)>,
    parts: Seq<HtmlPartV>,
    i: int,
    before: HtmlV,
    fuel: nat,
)
    requires
        0 <= i,
        agree(a, b, reads, services),
        closed(reads, services, a),
        services.contains(a.svc),
        forall|k: int|
            0 <= k < parts.len() && (#[trigger] parts[k]) is Expr ==> covers(
                reads,
                services,
                parts[k]->Expr_0,
            ),
        env_covered(reads, services, env),
    ensures
        evaluator::rendered(a, env, parts, i, before, fuel) == evaluator::rendered(
            b,
            env,
            parts,
            i,
            before,
            fuel,
        ),
    decreases fuel, parts, parts.len() - i,
{
    if i < parts.len() {
        match parts[i] {
            HtmlPartV::Text(s) => {
                lemma_rendered(
                    a,
                    b,
                    reads,
                    services,
                    env,
                    parts,
                    i + 1,
                    HtmlV { text: before.text + s, ..before },
                    fuel,
                );
            },
            HtmlPartV::Expr(e) => {
                assert(parts[i] is Expr);
                evaluation_reads_what_is_listed(a, b, reads, services, env, e, fuel);
                if let Ok(v) = evaluator::evaluated(a, env, e, fuel) {
                    lemma_rendered(
                        a,
                        b,
                        reads,
                        services,
                        env,
                        parts,
                        i + 1,
                        evaluator::with_value(before, v),
                        fuel,
                    );
                }
            },
        }
    }
}

} // verus!
