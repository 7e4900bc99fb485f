//! The type checker and the evaluator agree.

use vstd::prelude::*;

use crate::runtime::ast::{BinOp, ExprV, HtmlPartV, HtmlV, StmtV, UnOp, ValueV};
use crate::runtime::graphs::free_var;
use crate::runtime::interner::Symbol;
use crate::runtime::interpreter::evaluator;
use crate::runtime::interpreter::evaluator::{ContextV, EvalErrorV, Evaluated};
use crate::runtime::tt::check;
use crate::runtime::tt::check::{CheckErrorV, Known, SceneV};
use crate::runtime::tt::flow;
use crate::runtime::tt::flow::FlowV;
use crate::runtime::tt::types::{Member, ParamV, TypeV};

verus! {

/// Whether a value is of a type. A function is of every function type.
pub open spec fn has_type(v: ValueV, t: TypeV) -> bool
    decreases v,
{
    match v {
        ValueV::Int { .. } => t == TypeV::Int,
        ValueV::Bool { .. } => t == TypeV::Bool,
        ValueV::String { .. } => t == TypeV::String,
        ValueV::Html(_) => t == TypeV::Html,
        ValueV::Closure { .. } => t is Func,
        ValueV::ActionClosure { .. } => t == TypeV::Action,
        ValueV::List { vals } => t is List && forall|i: int|
            0 <= i < vals.len() ==> has_type(#[trigger] vals[i], *t->List_0),
        ValueV::Range { .. } => t == TypeV::List(Box::new(TypeV::Int)),
    }
}

/// Whether there is a value of a type.
pub open spec fn inhabited(t: TypeV) -> bool {
    exists|v: ValueV| #[trigger] has_type(v, t)
}

/// Whether evaluation failed because a value is not of the type that it has to be.
pub open spec fn is_type_error(e: EvalErrorV) -> bool {
    ||| e == EvalErrorV::RuntimeError("Type error in binary operation"@)
    ||| e == EvalErrorV::RuntimeError("Type error in unary operation"@)
    ||| e == EvalErrorV::RuntimeError("Condition must be boolean"@)
    ||| e == EvalErrorV::RuntimeError("Range bounds must be integers"@)
    ||| e == EvalErrorV::RuntimeError("Attempting to call a non-function value"@)
}

/// Whether an outcome is a value of a type, or a failure for another reason than a type.
pub open spec fn safe(r: Evaluated, t: TypeV) -> bool {
    match r {
        Ok(v) => has_type(v, t),
        Err(e) => !is_type_error(e),
    }
}

/// A value written out.
pub open spec fn literal(v: ValueV) -> ExprV {
    ExprV::Literal { val: v }
}

/// Two values joined by an operator.
pub open spec fn joined(op: BinOp, a: ValueV, b: ValueV) -> ExprV {
    ExprV::Binop { op, expr1: Box::new(literal(a)), expr2: Box::new(literal(b)) }
}

/// The other failures of evaluation are no type errors.
proof fn lemma_messages()
    ensures
        !is_type_error(EvalErrorV::RuntimeError("integer overflow"@)),
        !is_type_error(EvalErrorV::RuntimeError("division by zero"@)),
        !is_type_error(EvalErrorV::RuntimeError("evaluation depth limit exceeded"@)),
{
    reveal_strlit("integer overflow");
    reveal_strlit("division by zero");
    reveal_strlit("evaluation depth limit exceeded");
    reveal_strlit("Type error in binary operation");
    reveal_strlit("Type error in unary operation");
    reveal_strlit("Condition must be boolean");
    reveal_strlit("Range bounds must be integers");
    reveal_strlit("Attempting to call a non-function value");
    assert("integer overflow"@.len() == 16);
    assert("division by zero"@.len() == 16);
    assert("evaluation depth limit exceeded"@.len() == 31);
    assert("Type error in binary operation"@.len() == 30);
    assert("Type error in unary operation"@.len() == 29);
    assert("Condition must be boolean"@.len() == 25);
    assert("Range bounds must be integers"@.len() == 29);
    assert("Attempting to call a non-function value"@.len() == 39);
}

/// The checker agrees with the evaluator on binary operators: operands of two types are accepted
/// exactly where the operator does not fail for the types of any two values of these types; and
/// where it has a value, the value is of the type given.
#[verifier::rlimit(60)]
pub proof fn operators_agree(
    prog: Seq<StmtV>,
    known: Known,
    sc: SceneV,
    op: BinOp,
    e1: ExprV,
    e2: ExprV,
    f1: FlowV,
    f2: FlowV,
    d1: Seq<Member>,
    d2: Seq<Member>,
    fuel: nat,
    cx: ContextV,
    env: Seq<(Symbol, ValueV)>,
    depth: nat,
)
    requires
        check::infer(prog, known, sc, e1, fuel) == Ok::<(FlowV, Seq<Member>), CheckErrorV>((f1, d1)),
        check::infer(prog, known, sc, e2, fuel) == Ok::<(FlowV, Seq<Member>), CheckErrorV>((f2, d2)),
        inhabited(flow::erased(f1)),
        inhabited(flow::erased(f2)),
    ensures
        ({
            let e = ExprV::Binop { op, expr1: Box::new(e1), expr2: Box::new(e2) };
            let r = check::infer(prog, known, sc, e, fuel);
            &&& r is Ok <==> forall|a: ValueV, b: ValueV| #[trigger]
                has_type(a, flow::erased(f1)) && #[trigger] has_type(b, flow::erased(f2))
                    ==> !(evaluator::evaluated(cx, env, joined(op, a, b), depth) matches Err(err)
                    && is_type_error(err))
            &&& r matches Ok((f, _)) ==> forall|a: ValueV, b: ValueV| #[trigger]
                has_type(a, flow::erased(f1)) && #[trigger] has_type(b, flow::erased(f2)) ==> safe(
                    evaluator::evaluated(cx, env, joined(op, a, b), depth),
                    flow::erased(f),
                )
        }),
{
    lemma_messages();
    reveal_with_fuel(check::infer, 2);
    reveal_with_fuel(evaluator::evaluated, 2);
    let t1 = flow::erased(f1);
    let t2 = flow::erased(f2);
    let e = ExprV::Binop { op, expr1: Box::new(e1), expr2: Box::new(e2) };
    let r = check::infer(prog, known, sc, e, fuel);
    let a = choose|a: ValueV| #[trigger] has_type(a, t1);
    let b = choose|b: ValueV| #[trigger] has_type(b, t2);
    if r is Err {
        let out = evaluator::evaluated(cx, env, joined(op, a, b), depth);
        assert(out == evaluator::operate(op, a, b));
        assert(out == Err::<ValueV, EvalErrorV>(
            EvalErrorV::RuntimeError("Type error in binary operation"@),
        ));
        assert(has_type(a, t1) && has_type(b, t2));
    } else {
        assert forall|x: ValueV, y: ValueV| #[trigger]
            has_type(x, t1) && #[trigger] has_type(y, t2) implies safe(
            evaluator::evaluated(cx, env, joined(op, x, y), depth),
            flow::erased((r->Ok_0).0),
        ) by {
            let out = evaluator::evaluated(cx, env, joined(op, x, y), depth);
            assert(out == evaluator::operate(op, x, y));
        }
    }
}

/// Two accepted boolean expressions joined by `&&` or `||` are accepted, and are boolean; so are two
/// integers joined by an order, and two values of the same plain type compared for equality; and two
/// integers joined by an operation are accepted as an integer.
pub proof fn matching_operands_are_accepted(
    prog: Seq<StmtV>,
    known: Known,
    sc: SceneV,
    op: BinOp,
    e1: ExprV,
    e2: ExprV,
    f1: FlowV,
    f2: FlowV,
    d1: Seq<Member>,
    d2: Seq<Member>,
    fuel: nat,
)
    requires
        check::infer(prog, known, sc, e1, fuel) == Ok::<(FlowV, Seq<Member>), CheckErrorV>((f1, d1)),
        check::infer(prog, known, sc, e2, fuel) == Ok::<(FlowV, Seq<Member>), CheckErrorV>((f2, d2)),
    ensures
        ({
            let r = check::infer(
                prog,
                known,
                sc,
                ExprV::Binop { op, expr1: Box::new(e1), expr2: Box::new(e2) },
                fuel,
            );
            &&& f1 == FlowV::Bool && f2 == FlowV::Bool && (op == BinOp::And || op == BinOp::Or
                || op == BinOp::Eq) ==> r is Ok && (r->Ok_0).0 == FlowV::Bool
            &&& f1 == FlowV::Int && f2 == FlowV::Int && (op == BinOp::Lt || op == BinOp::Gt || op
                == BinOp::Eq) ==> r is Ok && (r->Ok_0).0 == FlowV::Bool
            &&& f1 == FlowV::String && f2 == FlowV::String && op == BinOp::Eq ==> r is Ok && (
            r->Ok_0).0 == FlowV::Bool
            &&& f1 == FlowV::Int && f2 == FlowV::Int && (op == BinOp::Add || op == BinOp::Sub || op
                == BinOp::Mul || op == BinOp::Div) ==> r is Ok && (r->Ok_0).0 == FlowV::Int
        }),
{
    reveal_with_fuel(check::infer, 2);
}

/// The checker agrees with the evaluator on signs, conditions and bounds: an expression is accepted
/// there exactly where no value of its type makes evaluation fail for a type.
pub proof fn signs_and_conditions_agree(
    prog: Seq<StmtV>,
    known: Known,
    sc: SceneV,
    op: UnOp,
    e1: ExprV,
    f1: FlowV,
    d1: Seq<Member>,
    fuel: nat,
    cx: ContextV,
    env: Seq<(Symbol, ValueV)>,
    depth: nat,
)
    requires
        check::infer(prog, known, sc, e1, fuel) == Ok::<(FlowV, Seq<Member>), CheckErrorV>((f1, d1)),
        inhabited(flow::erased(f1)),
    ensures
        ({
            let r = check::infer(prog, known, sc, ExprV::Unop { op, expr: Box::new(e1) }, fuel);
            &&& r is Ok <==> forall|a: ValueV| #[trigger]
                has_type(a, flow::erased(f1)) ==> !(evaluator::evaluated(
                    cx,
                    env,
                    ExprV::Unop { op, expr: Box::new(literal(a)) },
                    depth,
                ) matches Err(err) && is_type_error(err))
            &&& r matches Ok((f, _)) ==> forall|a: ValueV| #[trigger]
                has_type(a, flow::erased(f1)) ==> safe(
                    evaluator::evaluated(
                        cx,
                        env,
                        ExprV::Unop { op, expr: Box::new(literal(a)) },
                        depth,
                    ),
                    flow::erased(f),
                )
        }),
        ({
            let one = literal(ValueV::Int { val: 1 });
            let r = check::infer(
                prog,
                known,
                sc,
                ExprV::If { cond: Box::new(e1), expr1: Box::new(one), expr2: Box::new(one) },
                fuel,
            );
            r is Ok <==> forall|a: ValueV| #[trigger]
                has_type(a, flow::erased(f1)) ==> !(evaluator::evaluated(
                    cx,
                    env,
                    ExprV::If {
                        cond: Box::new(literal(a)),
                        expr1: Box::new(one),
                        expr2: Box::new(one),
                    },
                    depth,
                ) matches Err(err) && is_type_error(err))
        }),
        ({
            let one = literal(ValueV::Int { val: 1 });
            let low = check::infer(
                prog,
                known,
                sc,
                ExprV::Range { start: Box::new(e1), end: Box::new(one) },
                fuel,
            );
            let high = check::infer(
                prog,
                known,
                sc,
                ExprV::Range { start: Box::new(one), end: Box::new(e1) },
                fuel,
            );
            &&& low is Ok <==> high is Ok
            &&& low is Ok <==> forall|a: ValueV| #[trigger]
                has_type(a, flow::erased(f1)) ==> !(evaluator::evaluated(
                    cx,
                    env,
                    ExprV::Range { start: Box::new(literal(a)), end: Box::new(one) },
                    depth,
                ) matches Err(err) && is_type_error(err))
        }),
{
    lemma_messages();
    reveal_with_fuel(check::infer, 2);
    reveal_with_fuel(evaluator::evaluated, 2);
    let t1 = flow::erased(f1);
    let a = choose|a: ValueV| #[trigger] has_type(a, t1);
    assert(has_type(a, t1));
    let one = literal(ValueV::Int { val: 1 });
    assert(flow::erased(FlowV::Int) == TypeV::Int);
}

/// Whether the calls of an expression are of functions written in place.
pub open spec fn calls_in_place(e: ExprV) -> bool
    decreases e,
{
    match e {
        ExprV::Unop { expr, .. } => calls_in_place(*expr),
        ExprV::Binop { expr1, expr2, .. } => calls_in_place(*expr1) && calls_in_place(*expr2),
        ExprV::If { cond, expr1, expr2 } => calls_in_place(*cond) && calls_in_place(*expr1)
            && calls_in_place(*expr2),
        ExprV::List(val) => forall|i: int| 0 <= i < val.len() ==> calls_in_place(#[trigger] val[i]),
        ExprV::Range { start, end } => calls_in_place(*start) && calls_in_place(*end),
        ExprV::Call { func, args } => {
            &&& forall|i: int| 0 <= i < args.len() ==> calls_in_place(#[trigger] args[i])
            &&& match *func {
                ExprV::Func { body, .. } => calls_in_place(*body),
                _ => false,
            }
        },
        ExprV::Html(parts) => forall|i: int|
            0 <= i < parts.len() ==> match #[trigger] parts[i] {
                HtmlPartV::Text(_) => true,
                HtmlPartV::Expr(e) => calls_in_place(e),
            },
        _ => true,
    }
}

/// Whether local values are of the types of the local names, as far as an expression uses them.
pub open spec fn env_fits(
    env: Seq<(Symbol, ValueV)>,
    locals: Seq<(Symbol, FlowV)>,
    e: ExprV,
) -> bool {
    forall|x: Symbol| #[trigger]
        free_var::occurs_free(e, x) ==> match check::local_type(locals, x) {
            Some(f) => evaluator::env_value(env, x) matches Some(v) && has_type(v, flow::erased(f)),
            None => evaluator::env_value(env, x) is None,
        }
}

/// Whether the members that were checked have values of their types in a state, or fail for another
/// reason than a type.
pub open spec fn state_fits(cx: ContextV, known: Known) -> bool {
    &&& forall|m: Member, depth: nat|
        check::known_type(known, m) is Some ==> safe(
            #[trigger] evaluator::evaluated(
                cx,
                Seq::empty(),
                ExprV::MemberAccess { service_name: m.0, member_name: m.1 },
                depth,
            ),
            flow::erased(check::known_type(known, m)->0),
        )
    &&& forall|x: Symbol, depth: nat|
        check::known_type(known, (cx.svc, x)) is Some ==> safe(
            #[trigger] evaluator::evaluated(
                cx,
                Seq::empty(),
                ExprV::Variable { name: x },
                depth,
            ),
            flow::erased(check::known_type(known, (cx.svc, x))->0),
        )
}

/// Whether the members that an expression uses were checked.
pub open spec fn uses_checked(
    known: Known,
    svc: Symbol,
    locals: Seq<(Symbol, FlowV)>,
    e: ExprV,
) -> bool {
    &&& forall|x: Symbol| #[trigger]
        free_var::occurs_free(e, x) && check::local_type(locals, x) is None ==> check::known_type(
            known,
            (svc, x),
        ) is Some
    &&& forall|m: Member| #[trigger]
        free_var::names_member(e, m) ==> check::known_type(known, m) is Some
}

/// What is known of an expression is known of one that uses no more.
proof fn lemma_less(
    env: Seq<(Symbol, ValueV)>,
    known: Known,
    svc: Symbol,
    locals: Seq<(Symbol, FlowV)>,
    e: ExprV,
    c: ExprV,
)
    requires
        env_fits(env, locals, e),
        uses_checked(known, svc, locals, e),
        forall|x: Symbol| #[trigger]
            free_var::occurs_free(c, x) ==> free_var::occurs_free(e, x),
        forall|m: Member| #[trigger] free_var::names_member(c, m) ==> free_var::names_member(e, m),
    ensures
        env_fits(env, locals, c),
        uses_checked(known, svc, locals, c),
{
}

/// An accepted expression never fails for the type of a value, and its value is of the type given:
/// where its calls are of functions written in place, the local values are of the types of the local
/// names, and the members that it uses were checked and have values of their types.
#[verifier::rlimit(60)]
#[verifier::spinoff_prover]
pub proof fn accepted_expressions_do_not_fail_for_types(
    prog: Seq<StmtV>,
    known: Known,
    sc: SceneV,
    e: ExprV,
    fuel: nat,
    cx: ContextV,
    env: Seq<(Symbol, ValueV)>,
    depth: nat,
)
    requires
        check::infer(prog, known, sc, e, fuel) is Ok,
        calls_in_place(e),
        cx.svc == sc.svc,
        state_fits(cx, known),
        env_fits(env, sc.locals, e),
        uses_checked(known, sc.svc, sc.locals, e),
    ensures
        safe(
            evaluator::evaluated(cx, env, e, depth),
            flow::erased((check::infer(prog, known, sc, e, fuel)->Ok_0).0),
        ),
    decreases e, 0int,
{
    lemma_messages();
    match e {
        ExprV::Literal { .. } => {},
        ExprV::Variable { name } => {
            assert(free_var::occurs_free(e, name));
            if check::local_type(sc.locals, name) is None {
                let none = Seq::<(Symbol, ValueV)>::empty();
                assert(check::known_type(known, (sc.svc, name)) is Some);
                assert(evaluator::env_value(none, name) is None);
                assert(evaluator::evaluated(cx, env, e, depth) == evaluator::evaluated(
                    cx,
                    none,
                    e,
                    depth,
                ));
                assert(safe(
                    evaluator::evaluated(cx, none, ExprV::Variable { name }, depth),
                    flow::erased(check::known_type(known, (cx.svc, name))->0),
                ));
            }
        },
        ExprV::MemberAccess { service_name, member_name } => {
            let m = (service_name, member_name);
            let none = Seq::<(Symbol, ValueV)>::empty();
            assert(free_var::names_member(e, m));
            assert(evaluator::evaluated(cx, env, e, depth) == evaluator::evaluated(
                cx,
                none,
                ExprV::MemberAccess { service_name: m.0, member_name: m.1 },
                depth,
            ));
        },
        ExprV::Unop { op, expr } => {
            lemma_less(env, known, sc.svc, sc.locals, e, *expr);
            accepted_expressions_do_not_fail_for_types(
                prog,
                known,
                sc,
                *expr,
                fuel,
                cx,
                env,
                depth,
            );
        },
        ExprV::Binop { op, expr1, expr2 } => {
            lemma_less(env, known, sc.svc, sc.locals, e, *expr1);
            lemma_less(env, known, sc.svc, sc.locals, e, *expr2);
            accepted_expressions_do_not_fail_for_types(
                prog,
                known,
                sc,
                *expr1,
                fuel,
                cx,
                env,
                depth,
            );
            accepted_expressions_do_not_fail_for_types(
                prog,
                known,
                sc,
                *expr2,
                fuel,
                cx,
                env,
                depth,
            );
        },
        ExprV::If { cond, expr1, expr2 } => {
            lemma_less(env, known, sc.svc, sc.locals, e, *cond);
            lemma_less(env, known, sc.svc, sc.locals, e, *expr1);
            lemma_less(env, known, sc.svc, sc.locals, e, *expr2);
            accepted_expressions_do_not_fail_for_types(
                prog,
                known,
                sc,
                *cond,
                fuel,
                cx,
                env,
                depth,
            );
            accepted_expressions_do_not_fail_for_types(
                prog,
                known,
                sc,
                *expr1,
                fuel,
                cx,
                env,
                depth,
            );
            accepted_expressions_do_not_fail_for_types(
                prog,
                known,
                sc,
                *expr2,
                fuel,
                cx,
                env,
                depth,
            );
        },
        ExprV::List(val) => {
            lemma_items(
                prog,
                known,
                sc,
                e,
                val,
                0,
                Seq::empty(),
                Seq::empty(),
                fuel,
                cx,
                env,
                Seq::empty(),
                depth,
            );
            let all = check::infer_all(prog, known, sc, val, 0, Seq::empty(), Seq::empty(), fuel);
            let fs = (all->Ok_0).0;
            if let Ok(vs) = evaluator::evaluated_all(cx, env, val, 0, Seq::empty(), depth) {
                lemma_first_unlike(fs, 0, flow::erased(fs[0]));
                assert forall|i: int| 0 <= i < vs.len() implies has_type(
                    #[trigger] vs[i],
                    flow::erased(fs[0]),
                ) by {
                    assert(has_type(vs[i], flow::erased(fs[i])));
                }
            }
        },
        ExprV::Range { start, end } => {
            lemma_less(env, known, sc.svc, sc.locals, e, *start);
            lemma_less(env, known, sc.svc, sc.locals, e, *end);
            accepted_expressions_do_not_fail_for_types(
                prog,
                known,
                sc,
                *start,
                fuel,
                cx,
                env,
                depth,
            );
            accepted_expressions_do_not_fail_for_types(prog, known, sc, *end, fuel, cx, env, depth);
            assert(flow::erased(FlowV::List(Box::new(FlowV::Int))) == TypeV::List(
                Box::new(TypeV::Int),
            )) by {
                reveal_with_fuel(flow::erased, 2);
            }
        },
        ExprV::Func { .. } => {},
        ExprV::Action(_) => {},
        ExprV::Call { func, args } => {
            lemma_items(
                prog,
                known,
                sc,
                e,
                args,
                0,
                Seq::empty(),
                Seq::empty(),
                fuel,
                cx,
                env,
                Seq::empty(),
                depth,
            );
            let all = check::infer_all(prog, known, sc, args, 0, Seq::empty(), Seq::empty(), fuel);
            let fs = (all->Ok_0).0;
            lemma_less(env, known, sc.svc, sc.locals, e, *func);
            if let ExprV::Func { params, body, .. } = *func {
                assert(evaluator::evaluated(cx, env, *func, depth) == Ok::<ValueV, EvalErrorV>(
                    ValueV::Closure { params, body, env: evaluator::captured(env, *func) },
                ));
                if let Ok(vs) = evaluator::evaluated_all(cx, env, args, 0, Seq::empty(), depth) {
                    if depth > 0 {
                        let inner = SceneV {
                            locals: check::bind_args(sc.locals, params, fs),
                            ..sc
                        };
                        lemma_body(env, known, sc, *func, params, *body, fs, vs);
                        accepted_expressions_do_not_fail_for_types(
                            prog,
                            known,
                            inner,
                            *body,
                            (fuel - 1) as nat,
                            cx,
                            evaluator::bound(evaluator::captured(env, *func), params, vs),
                            (depth - 1) as nat,
                        );
                    }
                }
            }
        },
        ExprV::Html(parts) => {
            lemma_template(
                prog,
                known,
                sc,
                e,
                parts,
                0,
                Seq::empty(),
                fuel,
                cx,
                env,
                evaluator::empty_page(),
                depth,
            );
        },
        _ => {},
    }
}

/// Where no type differs from the first, all are the first.
proof fn lemma_first_unlike(fs: Seq<FlowV>, i: int, t: TypeV)
    requires
        0 <= i,
        check::first_unlike(fs, i, t) is None,
    ensures
        forall|k: int| i <= k < fs.len() ==> flow::erased(#[trigger] fs[k]) == t,
    decreases fs.len() - i,
{
    if i < fs.len() {
        lemma_first_unlike(fs, i + 1, t);
    }
}

/// The same of several expressions.
proof fn lemma_items(
    prog: Seq<StmtV>,
    known: Known,
    sc: SceneV,
    e: ExprV,
    es: Seq<ExprV>,
    i: int,
    found: Seq<FlowV>,
    deps: Seq<Member>,
    fuel: nat,
    cx: ContextV,
    env: Seq<(Symbol, ValueV)>,
    vals: Seq<ValueV>,
    depth: nat,
)
    requires
        0 <= i <= es.len(),
        found.len() == i,
        vals.len() == i,
        e == ExprV::List(es) || (e is Call && e->args == es),
        forall|k: int| 0 <= k < es.len() ==> calls_in_place(#[trigger] es[k]),
        cx.svc == sc.svc,
        state_fits(cx, known),
        env_fits(env, sc.locals, e),
        uses_checked(known, sc.svc, sc.locals, e),
        check::infer_all(prog, known, sc, es, i, found, deps, fuel) is Ok,
        forall|k: int| 0 <= k < i ==> has_type(#[trigger] vals[k], flow::erased(found[k])),
    ensures
        ({
            let fs = (check::infer_all(prog, known, sc, es, i, found, deps, fuel)->Ok_0).0;
            &&& fs.len() == es.len()
            &&& match evaluator::evaluated_all(cx, env, es, i, vals, depth) {
                Ok(vs) => vs.len() == es.len() && forall|k: int|
                    0 <= k < vs.len() ==> has_type(#[trigger] vs[k], flow::erased(fs[k])),
                Err(err) => !is_type_error(err),
            }
        }),
    decreases es, es.len() - i,
{
    if i < es.len() {
        let c = es[i];
        assert forall|x: Symbol| #[trigger] free_var::occurs_free(c, x) implies free_var::occurs_free(
            e,
            x,
        ) by {
            assert(free_var::occurs_free_in_any(es, x));
        }
        assert forall|m: Member| #[trigger]
            free_var::names_member(c, m) implies free_var::names_member(e, m) by {
            assert(free_var::any_names_member(es, m));
        }
        lemma_less(env, known, sc.svc, sc.locals, e, c);
        accepted_expressions_do_not_fail_for_types(prog, known, sc, c, fuel, cx, env, depth);
        let (f, d) = check::infer(prog, known, sc, c, fuel)->Ok_0;
        let more = crate::runtime::collections::merged(deps, d);
        match evaluator::evaluated(cx, env, c, depth) {
            Ok(v) => {
                assert forall|k: int| 0 <= k < i + 1 implies has_type(
                    #[trigger] vals.push(v)[k],
                    flow::erased(found.push(f)[k]),
                ) by {
                    if k < i {
                        assert(has_type(vals[k], flow::erased(found[k])));
                    }
                }
                lemma_items(
                    prog,
                    known,
                    sc,
                    e,
                    es,
                    i + 1,
                    found.push(f),
                    more,
                    fuel,
                    cx,
                    env,
                    vals.push(v),
                    depth,
                );
            },
            Err(_) => {
                lemma_count(prog, known, sc, es, i + 1, found.push(f), more, fuel);
            },
        }
    }
}

/// There are as many types as expressions.
proof fn lemma_count(
    prog: Seq<StmtV>,
    known: Known,
    sc: SceneV,
    es: Seq<ExprV>,
    i: int,
    found: Seq<FlowV>,
    deps: Seq<Member>,
    fuel: nat,
)
    requires
        0 <= i <= es.len(),
        found.len() == i,
    ensures
        check::infer_all(prog, known, sc, es, i, found, deps, fuel) matches Ok((fs, _))
            ==> fs.len() == es.len(),
    decreases es.len() - i,
{
    if i < es.len() {
        if let Ok((f, d)) = check::infer(prog, known, sc, es[i], fuel) {
            lemma_count(
                prog,
                known,
                sc,
                es,
                i + 1,
                found.push(f),
                crate::runtime::collections::merged(deps, d),
                fuel,
            );
        }
    }
}

/// The same of a template.
proof fn lemma_template(
    prog: Seq<StmtV>,
    known: Known,
    sc: SceneV,
    e: ExprV,
    parts: Seq<HtmlPartV>,
    i: int,
    deps: Seq<Member>,
    fuel: nat,
    cx: ContextV,
    env: Seq<(Symbol, ValueV)>,
    before: HtmlV,
    depth: nat,
)
    requires
        0 <= i,
        e == ExprV::Html(parts),
        calls_in_place(e),
        cx.svc == sc.svc,
        state_fits(cx, known),
        env_fits(env, sc.locals, e),
        uses_checked(known, sc.svc, sc.locals, e),
        check::infer_parts(prog, known, sc, parts, i, deps, fuel) is Ok,
    ensures
        evaluator::rendered(cx, env, parts, i, before, depth) matches Err(err) ==> !is_type_error(
            err,
        ),
    decreases parts, parts.len() - i,
{
    if i < parts.len() {
        match parts[i] {
            HtmlPartV::Text(s) => {
                lemma_template(
                    prog,
                    known,
                    sc,
                    e,
                    parts,
                    i + 1,
                    deps,
                    fuel,
                    cx,
                    env,
                    HtmlV { text: before.text + s, ..before },
                    depth,
                );
            },
            HtmlPartV::Expr(c) => {
                assert forall|x: Symbol| #[trigger]
                    free_var::occurs_free(c, x) implies free_var::occurs_free(e, x) by {
                    assert(free_var::occurs_free_in_part(parts[i], x));
                    assert(free_var::occurs_free_in_parts(parts, x));
                }
                assert forall|m: Member| #[trigger]
                    free_var::names_member(c, m) implies free_var::names_member(e, m) by {
                    assert(free_var::part_names_member(parts[i], m));
                    assert(free_var::parts_name_member(parts, m));
                }
                lemma_less(env, known, sc.svc, sc.locals, e, c);
                accepted_expressions_do_not_fail_for_types(
                    prog,
                    known,
                    sc,
                    c,
                    fuel,
                    cx,
                    env,
                    depth,
                );
                let (f, d) = check::infer(prog, known, sc, c, fuel)->Ok_0;
                let more = crate::runtime::collections::merged(deps, d);
                if let Ok(v) = evaluator::evaluated(cx, env, c, depth) {
                    lemma_template(
                        prog,
                        known,
                        sc,
                        e,
                        parts,
                        i + 1,
                        more,
                        fuel,
                        cx,
                        env,
                        evaluator::with_value(before, v),
                        depth,
                    );
                }
            },
        }
    }
}

/// The value of a name among those kept.
proof fn lemma_kept(env: Seq<(Symbol, ValueV)>, f: ExprV, x: Symbol)
    requires
        free_var::occurs_free(f, x),
    ensures
        evaluator::env_value(evaluator::captured(env, f), x) == evaluator::env_value(env, x),
    decreases env.len(),
{
    reveal(Seq::filter);
    if env.len() > 0 {
        lemma_kept(env.drop_last(), f, x);
        let rest = evaluator::captured(env.drop_last(), f);
        if free_var::occurs_free(f, env.last().0) {
            assert(evaluator::captured(env, f) == rest.push(env.last()));
            assert(rest.push(env.last()).drop_last() =~= rest);
        } else {
            assert(evaluator::captured(env, f) == rest);
        }
    } else {
        assert(evaluator::captured(env, f) =~= env);
    }
}

/// The first `n` parameters, bound to types and to values.
proof fn lemma_bound(
    env: Seq<(Symbol, ValueV)>,
    locals: Seq<(Symbol, FlowV)>,
    params: Seq<ParamV>,
    fs: Seq<FlowV>,
    vs: Seq<ValueV>,
    n: int,
    x: Symbol,
)
    requires
        0 <= n <= params.len(),
        fs.len() == params.len(),
        vs.len() == params.len(),
        forall|k: int| 0 <= k < vs.len() ==> has_type(#[trigger] vs[k], flow::erased(fs[k])),
    ensures
        ({
            let types = locals + Seq::new(n as nat, |i: int| (params[i].name, fs[i]));
            let values = env + Seq::new(n as nat, |i: int| (params[i].name, vs[i]));
            let here = exists|i: int| 0 <= i < n && (#[trigger] params[i]).name == x;
            if here {
                &&& check::local_type(types, x) is Some
                &&& evaluator::env_value(values, x) is Some
                &&& has_type(
                    evaluator::env_value(values, x)->0,
                    flow::erased(check::local_type(types, x)->0),
                )
            } else {
                &&& check::local_type(types, x) == check::local_type(locals, x)
                &&& evaluator::env_value(values, x) == evaluator::env_value(env, x)
            }
        }),
    decreases n,
{
    let types = locals + Seq::new(n as nat, |i: int| (params[i].name, fs[i]));
    let values = env + Seq::new(n as nat, |i: int| (params[i].name, vs[i]));
    if n > 0 {
        lemma_bound(env, locals, params, fs, vs, n - 1, x);
        assert(types.drop_last() =~= locals + Seq::new(
            (n - 1) as nat,
            |i: int| (params[i].name, fs[i]),
        ));
        assert(values.drop_last() =~= env + Seq::new(
            (n - 1) as nat,
            |i: int| (params[i].name, vs[i]),
        ));
        assert(types.last() == (params[n - 1].name, fs[n - 1]));
        assert(values.last() == (params[n - 1].name, vs[n - 1]));
        assert(has_type(vs[n - 1], flow::erased(fs[n - 1])));
    } else {
        assert(types =~= locals);
        assert(values =~= env);
    }
}

/// What is known where a function is called is known of its body.
proof fn lemma_body(
    env: Seq<(Symbol, ValueV)>,
    known: Known,
    sc: SceneV,
    func: ExprV,
    params: Seq<ParamV>,
    body: ExprV,
    fs: Seq<FlowV>,
    vs: Seq<ValueV>,
)
    requires
        func is Func,
        func->Func_params == params,
        *func->body == body,
        fs.len() == params.len(),
        vs.len() == params.len(),
        forall|k: int| 0 <= k < vs.len() ==> has_type(#[trigger] vs[k], flow::erased(fs[k])),
        env_fits(env, sc.locals, func),
        uses_checked(known, sc.svc, sc.locals, func),
    ensures
        env_fits(
            evaluator::bound(evaluator::captured(env, func), params, vs),
            check::bind_args(sc.locals, params, fs),
            body,
        ),
        uses_checked(known, sc.svc, check::bind_args(sc.locals, params, fs), body),
{
    let n = params.len() as int;
    let around = evaluator::captured(env, func);
    let types = check::bind_args(sc.locals, params, fs);
    let values = evaluator::bound(around, params, vs);
    assert(types =~= sc.locals + Seq::new(n as nat, |i: int| (params[i].name, fs[i])));
    assert(values =~= around + Seq::new(n as nat, |i: int| (params[i].name, vs[i])));
    assert forall|x: Symbol| #[trigger] free_var::occurs_free(body, x) implies {
        &&& match check::local_type(types, x) {
            Some(f) => evaluator::env_value(values, x) matches Some(v) && has_type(
                v,
                flow::erased(f),
            ),
            None => evaluator::env_value(values, x) is None,
        }
        &&& check::local_type(types, x) is None ==> check::known_type(known, (sc.svc, x)) is Some
    } by {
        lemma_bound(around, sc.locals, params, fs, vs, n, x);
        if !(exists|i: int| 0 <= i < n && (#[trigger] params[i]).name == x) {
            assert(!free_var::binds(params, x));
            assert(free_var::occurs_free(func, x));
            lemma_kept(env, func, x);
        }
    }
    assert forall|m: Member| #[trigger] free_var::names_member(body, m) implies check::known_type(
        known,
        m,
    ) is Some by {
        assert(free_var::names_member(func, m));
    }
}

} // verus!
