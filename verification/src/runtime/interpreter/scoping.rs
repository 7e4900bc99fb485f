//! Which local values an expression depends on: those of its free names.

use vstd::prelude::*;

use crate::runtime::ast::{ExprV, HtmlPartV, HtmlV, ValueV};
use crate::runtime::graphs::free_var;
use crate::runtime::interner::Symbol;
use crate::runtime::interpreter::evaluator;
use crate::runtime::interpreter::evaluator::{ContextV, EvalErrorV};
use crate::runtime::tt::types::{ParamV, TypeV};

verus! {

/// The local values of some names.
pub open spec fn kept(env: Seq<(Symbol, ValueV)>, names: spec_fn(Symbol) -> bool) -> Seq<
    (Symbol, ValueV),
>
    decreases env.len(),
{
    if env.len() == 0 {
        Seq::empty()
    } else if names(env.last().0) {
        kept(env.drop_last(), names).push(env.last())
    } else {
        kept(env.drop_last(), names)
    }
}

/// The free names of an expression.
pub open spec fn free_in(e: ExprV) -> spec_fn(Symbol) -> bool {
    |x: Symbol| free_var::occurs_free(e, x)
}

/// What a function or an action keeps of the local values are those of its free names.
proof fn lemma_captured(env: Seq<(Symbol, ValueV)>, e: ExprV)
    ensures
        evaluator::captured(env, e) == kept(env, free_in(e)),
    decreases env.len(),
{
    reveal(Seq::filter);
    if env.len() > 0 {
        lemma_captured(env.drop_last(), e);
    } else {
        assert(evaluator::captured(env, e) =~= Seq::empty());
    }
}

/// Keeping fewer names twice is keeping them once.
proof fn lemma_kept_twice(
    env: Seq<(Symbol, ValueV)>,
    more: spec_fn(Symbol) -> bool,
    fewer: spec_fn(Symbol) -> bool,
)
    requires
        forall|x: Symbol| #[trigger] fewer(x) ==> more(x),
    ensures
        kept(kept(env, more), fewer) == kept(env, fewer),
    decreases env.len(),
{
    if env.len() > 0 {
        lemma_kept_twice(env.drop_last(), more, fewer);
        let rest = kept(env.drop_last(), more);
        if more(env.last().0) {
            assert(rest.push(env.last()).drop_last() =~= rest);
        }
    }
}

/// Local values that are the same for some names are the same for fewer.
proof fn lemma_fewer(
    a: Seq<(Symbol, ValueV)>,
    b: Seq<(Symbol, ValueV)>,
    more: spec_fn(Symbol) -> bool,
    fewer: spec_fn(Symbol) -> bool,
)
    requires
        kept(a, more) == kept(b, more),
        forall|x: Symbol| #[trigger] fewer(x) ==> more(x),
    ensures
        kept(a, fewer) == kept(b, fewer),
{
    lemma_kept_twice(a, more, fewer);
    lemma_kept_twice(b, more, fewer);
}

/// The value of a name that is kept.
proof fn lemma_kept_value(
    env: Seq<(Symbol, ValueV)>,
    names: spec_fn(Symbol) -> bool,
    x: Symbol,
)
    requires
        names(x),
    ensures
        evaluator::env_value(kept(env, names), x) == evaluator::env_value(env, x),
    decreases env.len(),
{
    if env.len() > 0 {
        lemma_kept_value(env.drop_last(), names, x);
        let rest = kept(env.drop_last(), names);
        if names(env.last().0) {
            assert(rest.push(env.last()).drop_last() =~= rest);
        }
    }
}

/// Keeping distributes over joined local values.
proof fn lemma_kept_joined(
    a: Seq<(Symbol, ValueV)>,
    b: Seq<(Symbol, ValueV)>,
    names: spec_fn(Symbol) -> bool,
)
    ensures
        kept(a + b, names) == kept(a, names) + kept(b, names),
    decreases b.len(),
{
    if b.len() == 0 {
        assert(a + b =~= a);
        assert(kept(a, names) + kept(b, names) =~= kept(a, names));
    } else {
        lemma_kept_joined(a, b.drop_last(), names);
        assert((a + b).drop_last() =~= a + b.drop_last());
        assert((a + b).last() == b.last());
        if names(b.last().0) {
            assert((kept(a, names) + kept(b.drop_last(), names)).push(b.last()) =~= kept(a, names)
                + kept(b.drop_last(), names).push(b.last()));
        }
    }
}

/// Where the same names are kept of all local values, the same values are kept.
proof fn lemma_same_names(
    env: Seq<(Symbol, ValueV)>,
    f: spec_fn(Symbol) -> bool,
    g: spec_fn(Symbol) -> bool,
)
    requires
        forall|i: int| 0 <= i < env.len() ==> (f((#[trigger] env[i]).0) <==> g(env[i].0)),
    ensures
        kept(env, f) == kept(env, g),
    decreases env.len(),
{
    if env.len() > 0 {
        let rest = env.drop_last();
        assert(env.last() == env[env.len() - 1]);
        assert forall|i: int| 0 <= i < rest.len() implies (f((#[trigger] rest[i]).0) <==> g(
            rest[i].0,
        )) by {
            assert(rest[i] == env[i]);
        }
        lemma_same_names(rest, f, g);
    }
}

/// Only the free names of an expression matter: with local values that are the same for these, it
/// has the same value, or fails in the same way.
#[verifier::rlimit(80)]
#[verifier::spinoff_prover]
pub proof fn only_free_names_matter(
    cx: ContextV,
    a: Seq<(Symbol, ValueV)>,
    b: Seq<(Symbol, ValueV)>,
    e: ExprV,
    fuel: nat,
)
    requires
        kept(a, free_in(e)) == kept(b, free_in(e)),
    ensures
        evaluator::evaluated(cx, a, e, fuel) == evaluator::evaluated(cx, b, e, fuel),
    decreases e, 0int,
{
    match e {
        ExprV::Variable { name } => {
            lemma_kept_value(a, free_in(e), name);
            lemma_kept_value(b, free_in(e), name);
        },
        ExprV::Unop { expr, .. } => {
            lemma_fewer(a, b, free_in(e), free_in(*expr));
            only_free_names_matter(cx, a, b, *expr, fuel);
        },
        ExprV::Binop { expr1, expr2, .. } => {
            lemma_fewer(a, b, free_in(e), free_in(*expr1));
            lemma_fewer(a, b, free_in(e), free_in(*expr2));
            only_free_names_matter(cx, a, b, *expr1, fuel);
            only_free_names_matter(cx, a, b, *expr2, fuel);
        },
        ExprV::If { cond, expr1, expr2 } => {
            lemma_fewer(a, b, free_in(e), free_in(*cond));
            lemma_fewer(a, b, free_in(e), free_in(*expr1));
            lemma_fewer(a, b, free_in(e), free_in(*expr2));
            only_free_names_matter(cx, a, b, *cond, fuel);
            only_free_names_matter(cx, a, b, *expr1, fuel);
            only_free_names_matter(cx, a, b, *expr2, fuel);
        },
        ExprV::Func { .. } => {
            lemma_captured(a, e);
            lemma_captured(b, e);
        },
        ExprV::Action(_) => {
            lemma_captured(a, e);
            lemma_captured(b, e);
        },
        ExprV::Call { func, args } => {
            lemma_fewer(a, b, free_in(e), free_in(*func));
            only_free_names_matter(cx, a, b, *func, fuel);
            lemma_all(cx, a, b, e, args, 0, Seq::empty(), fuel);
        },
        ExprV::List(val) => {
            lemma_all(cx, a, b, e, val, 0, Seq::empty(), fuel);
        },
        ExprV::Range { start, end } => {
            lemma_fewer(a, b, free_in(e), free_in(*start));
            lemma_fewer(a, b, free_in(e), free_in(*end));
            only_free_names_matter(cx, a, b, *start, fuel);
            only_free_names_matter(cx, a, b, *end, fuel);
        },
        ExprV::Html(parts) => {
            lemma_rendered(cx, a, b, e, parts, 0, evaluator::empty_page(), fuel);
        },
        _ => {},
    }
}

/// The same of several expressions.
proof fn lemma_all(
    cx: ContextV,
    a: Seq<(Symbol, ValueV)>,
    b: Seq<(Symbol, ValueV)>,
    e: ExprV,
    es: Seq<ExprV>,
    i: int,
    vals: Seq<ValueV>,
    fuel: nat,
)
    requires
        0 <= i,
        e == ExprV::List(es) || (e is Call && e->args == es),
        kept(a, free_in(e)) == kept(b, free_in(e)),
    ensures
        evaluator::evaluated_all(cx, a, es, i, vals, fuel) == evaluator::evaluated_all(
            cx,
            b,
            es,
            i,
            vals,
            fuel,
        ),
    decreases es, es.len() - i,
{
    if i < es.len() {
        assert forall|x: Symbol| #[trigger] free_in(es[i])(x) implies free_in(e)(x) by {
            assert(free_var::occurs_free(es[i], x));
            assert(free_var::occurs_free_in_any(es, x));
        }
        lemma_fewer(a, b, free_in(e), free_in(es[i]));
        only_free_names_matter(cx, a, b, es[i], fuel);
        if let Ok(v) = evaluator::evaluated(cx, a, es[i], fuel) {
            lemma_all(cx, a, b, e, es, i + 1, vals.push(v), fuel);
        }
    }
}

/// The same of a template.
proof fn lemma_rendered(
    cx: ContextV,
    a: Seq<(Symbol, ValueV)>,
    b: Seq<(Symbol, ValueV)>,
    e: ExprV,
    parts: Seq<HtmlPartV>,
    i: int,
    before: HtmlV,
    fuel: nat,
)
    requires
        0 <= i,
        e == ExprV::Html(parts),
        kept(a, free_in(e)) == kept(b, free_in(e)),
    ensures
        evaluator::rendered(cx, a, parts, i, before, fuel) == evaluator::rendered(
            cx,
            b,
            parts,
            i,
            before,
            fuel,
        ),
    decreases parts, parts.len() - i,
{
    if i < parts.len() {
        match parts[i] {
            HtmlPartV::Text(s) => {
                lemma_rendered(
                    cx,
                    a,
                    b,
                    e,
                    parts,
                    i + 1,
                    HtmlV { text: before.text + s, ..before },
                    fuel,
                );
            },
            HtmlPartV::Expr(c) => {
                assert forall|x: Symbol| #[trigger] free_in(c)(x) implies free_in(e)(x) by {
                    assert(free_var::occurs_free(c, x));
                    assert(free_var::occurs_free_in_part(parts[i], x));
                    assert(free_var::occurs_free_in_parts(parts, x));
                }
                lemma_fewer(a, b, free_in(e), free_in(c));
                only_free_names_matter(cx, a, b, c, fuel);
                if let Ok(v) = evaluator::evaluated(cx, a, c, fuel) {
                    lemma_rendered(
                        cx,
                        a,
                        b,
                        e,
                        parts,
                        i + 1,
                        evaluator::with_value(before, v),
                        fuel,
                    );
                }
            },
        }
    }
}

/// A function that is called where it is written has the value of its body, with its parameters
/// bound to the values of the arguments in order, and with the local values around it.
pub proof fn functions_see_what_is_around(
    cx: ContextV,
    env: Seq<(Symbol, ValueV)>,
    params: Seq<ParamV>,
    body: ExprV,
    return_ty: Option<TypeV>,
    args: Seq<ExprV>,
    vs: Seq<ValueV>,
    fuel: nat,
)
    requires
        args.len() == params.len(),
        vs.len() == args.len(),
        forall|i: int|
            0 <= i < args.len() ==> evaluator::evaluated(cx, env, #[trigger] args[i], fuel + 1)
                == Ok::<ValueV, EvalErrorV>(vs[i]),
        forall|i: int, j: int|
            0 <= i < env.len() && 0 <= j < params.len() ==> (#[trigger] env[i]).0 != (
            #[trigger] params[j]).name,
    ensures
        evaluator::evaluated(
            cx,
            env,
            ExprV::Call {
                func: Box::new(ExprV::Func { params, body: Box::new(body), return_ty }),
                args,
            },
            fuel + 1,
        ) == evaluator::evaluated(
            cx,
            env + Seq::new(params.len(), |i: int| (params[i].name, vs[i])),
            body,
            fuel,
        ),
{
    let f = ExprV::Func { params, body: Box::new(body), return_ty };
    let around = evaluator::captured(env, f);
    let tail = Seq::new(params.len(), |i: int| (params[i].name, vs[i]));
    lemma_values_in_order(cx, env, args, 0, Seq::empty(), vs, fuel + 1);
    assert(Seq::<ValueV>::empty() + vs.skip(0) =~= vs);
    lemma_captured(env, f);
    assert(evaluator::bound(around, params, vs) =~= around + tail);
    lemma_kept_joined(around, tail, free_in(body));
    lemma_kept_joined(env, tail, free_in(body));
    lemma_kept_twice(env, free_in(f), free_in(f));
    assert(kept(around, free_in(body)) == kept(env, free_in(body))) by {
        assert forall|i: int| 0 <= i < env.len() implies (free_in(f)((#[trigger] env[i]).0)
            <==> free_in(body)(env[i].0)) by {
            if free_var::binds(params, env[i].0) {
                let j = choose|j: int|
                    0 <= j < params.len() && (#[trigger] params[j]).name == env[i].0;
                assert(env[i].0 != params[j].name);
            }
        }
        lemma_same_names(env, free_in(f), free_in(body));
        lemma_kept_twice(env, free_in(body), free_in(body));
    }
    only_free_names_matter(cx, around + tail, env + tail, body, fuel);
    reveal_with_fuel(evaluator::evaluated, 2);
}

/// The values of expressions stand in the order of the expressions.
proof fn lemma_values_in_order(
    cx: ContextV,
    env: Seq<(Symbol, ValueV)>,
    es: Seq<ExprV>,
    i: int,
    found: Seq<ValueV>,
    vs: Seq<ValueV>,
    fuel: nat,
)
    requires
        0 <= i <= es.len(),
        vs.len() == es.len(),
        forall|k: int|
            0 <= k < es.len() ==> evaluator::evaluated(cx, env, #[trigger] es[k], fuel) == Ok::<
                ValueV,
                EvalErrorV,
            >(vs[k]),
    ensures
        evaluator::evaluated_all(cx, env, es, i, found, fuel) == Ok::<Seq<ValueV>, EvalErrorV>(
            found + vs.skip(i),
        ),
    decreases es.len() - i,
{
    if i < es.len() {
        lemma_values_in_order(cx, env, es, i + 1, found.push(vs[i]), vs, fuel);
        assert(found.push(vs[i]) + vs.skip(i + 1) =~= found + vs.skip(i));
    } else {
        assert(found + vs.skip(i) =~= found);
    }
}

/// A list holds the values of its expressions, in their order; it has one exactly where each of them
/// has.
pub proof fn lists_hold_their_items(
    cx: ContextV,
    env: Seq<(Symbol, ValueV)>,
    es: Seq<ExprV>,
    vs: Seq<ValueV>,
    fuel: nat,
)
    requires
        vs.len() == es.len(),
        forall|k: int|
            0 <= k < es.len() ==> evaluator::evaluated(cx, env, #[trigger] es[k], fuel) == Ok::<
                ValueV,
                EvalErrorV,
            >(vs[k]),
    ensures
        evaluator::evaluated(cx, env, ExprV::List(es), fuel) == Ok::<ValueV, EvalErrorV>(
            ValueV::List { vals: vs },
        ),
{
    lemma_values_in_order(cx, env, es, 0, Seq::empty(), vs, fuel);
    assert(Seq::<ValueV>::empty() + vs.skip(0) =~= vs);
    reveal_with_fuel(evaluator::evaluated, 2);
}

} // verus!
