//! What the types of names, statements and functions have to do with each other.

use vstd::prelude::*;

use crate::runtime::ast;
use crate::runtime::ast::{ActionStmtV, DeclV, ExprV, FieldV, StmtV};
use crate::runtime::collections;
use crate::runtime::interner::Symbol;
use crate::runtime::interpreter::laws;
use crate::runtime::tt::check;
use crate::runtime::tt::check::{CheckErrorV, Known, SceneV};
use crate::runtime::tt::flow;
use crate::runtime::tt::flow::FlowV;
use crate::runtime::tt::types::{Member, ParamV, TypeV};

verus! {

/// Whether a block is accepted.
pub open spec fn accepts(
    prog: Seq<StmtV>,
    known: Known,
    sc: SceneV,
    stmts: Seq<ActionStmtV>,
    fuel: nat,
) -> bool {
    check::check_block(prog, known, sc, stmts, 0, fuel) is Ok
}

/// Whether an expression is accepted, and is of a type.
pub open spec fn typed_as(
    prog: Seq<StmtV>,
    known: Known,
    sc: SceneV,
    e: ExprV,
    t: TypeV,
    fuel: nat,
) -> bool {
    check::infer(prog, known, sc, e, fuel) is Ok && flow::erased(
        check::infer(prog, known, sc, e, fuel)->Ok_0.0,
    ) == t
}

/// A name that is bound on the spot.
pub open spec fn binding(x: Symbol, e: ExprV) -> ActionStmtV {
    ActionStmtV::Let { name: x, ty: None, expr: e }
}

/// A name.
pub open spec fn named(x: Symbol) -> ExprV {
    ExprV::Variable { name: x }
}

/// An action that does nothing.
pub open spec fn idle() -> ExprV {
    ExprV::Action(Seq::empty())
}

/// A block of one statement is accepted where the statement is.
proof fn lemma_one(
    prog: Seq<StmtV>,
    known: Known,
    sc: SceneV,
    s: ActionStmtV,
    fuel: nat,
)
    ensures
        accepts(prog, known, sc, seq![s], fuel) <==> check::check_stmt(
            prog,
            known,
            sc,
            s,
            fuel,
        ) is Ok,
{
    assert(seq![s][0] == s);
    let r = check::check_stmt(prog, known, sc, s, fuel);
    if r is Ok {
        let inner = SceneV { locals: r->Ok_0, ..sc };
        assert(check::check_block(prog, known, inner, seq![s], 1, fuel) is Ok);
    }
}

/// A block of two statements is accepted where both are, one after the other.
proof fn lemma_two(
    prog: Seq<StmtV>,
    known: Known,
    sc: SceneV,
    s: ActionStmtV,
    t: ActionStmtV,
    fuel: nat,
)
    ensures
        accepts(prog, known, sc, seq![s, t], fuel) <==> check::check_stmt(
            prog,
            known,
            sc,
            s,
            fuel,
        ) is Ok && check::check_stmt(
            prog,
            known,
            SceneV { locals: check::check_stmt(prog, known, sc, s, fuel)->Ok_0, ..sc },
            t,
            fuel,
        ) is Ok,
{
    let both = seq![s, t];
    assert(both[0] == s && both[1] == t);
    let r = check::check_stmt(prog, known, sc, s, fuel);
    if r is Ok {
        let inner = SceneV { locals: r->Ok_0, ..sc };
        let q = check::check_stmt(prog, known, inner, t, fuel);
        assert(check::check_block(prog, known, sc, both, 0, fuel) == check::check_block(
            prog,
            known,
            inner,
            both,
            1,
            fuel,
        ));
        if q is Ok {
            let last = SceneV { locals: q->Ok_0, ..inner };
            assert(check::check_block(prog, known, last, both, 2, fuel) is Ok);
        }
    }
}

/// A statement in front of a block moves it by one.
proof fn lemma_moved(
    prog: Seq<StmtV>,
    known: Known,
    sc: SceneV,
    s: ActionStmtV,
    body: Seq<ActionStmtV>,
    i: int,
    fuel: nat,
)
    requires
        0 <= i,
    ensures
        check::check_block(prog, known, sc, seq![s] + body, i + 1, fuel) == check::check_block(
            prog,
            known,
            sc,
            body,
            i,
            fuel,
        ),
    decreases body.len() - i,
{
    let all = seq![s] + body;
    if i < body.len() {
        assert(all[i + 1] == body[i]);
        let r = check::check_stmt(prog, known, sc, body[i], fuel);
        if r is Ok {
            lemma_moved(prog, known, SceneV { locals: r->Ok_0, ..sc }, s, body, i + 1, fuel);
        }
    }
}

/// An idle action is an action.
proof fn lemma_idle(prog: Seq<StmtV>, known: Known, sc: SceneV, fuel: nat)
    ensures
        check::infer(prog, known, sc, idle(), fuel) == Ok::<(FlowV, Seq<Member>), CheckErrorV>(
            (FlowV::Action, Seq::empty()),
        ),
{
    assert(check::check_block(
        prog,
        known,
        check::suspended(sc, sc.locals),
        Seq::empty(),
        0,
        fuel,
    ) is Ok);
}

/// Where a choice between two expressions is accepted.
proof fn lemma_choice(
    prog: Seq<StmtV>,
    known: Known,
    sc: SceneV,
    c: ExprV,
    a: ExprV,
    b: ExprV,
    fuel: nat,
)
    ensures
        check::infer(prog, known, sc, laws::choice(c, a, b), fuel) is Ok <==> {
            &&& typed_as(prog, known, sc, c, TypeV::Bool, fuel)
            &&& check::infer(prog, known, sc, a, fuel) is Ok
            &&& typed_as(
                prog,
                known,
                sc,
                b,
                flow::erased(check::infer(prog, known, sc, a, fuel)->Ok_0.0),
                fuel,
            )
        },
{
}

/// An assertion takes what a condition takes, and `do` takes what may stand in place of an action.
/// An annotated name takes an expression of its type, and a statement that is an expression takes
/// any that has a type. So does an inserted row.
pub proof fn statements_take_their_types(
    prog: Seq<StmtV>,
    known: Known,
    sc: SceneV,
    e: ExprV,
    x: Symbol,
    t: TypeV,
    msg: Seq<char>,
    fuel: nat,
)
    ensures
        accepts(prog, known, sc, seq![ActionStmtV::Assert(e, msg)], fuel) <==> check::infer(
            prog,
            known,
            sc,
            laws::choice(e, laws::number(1), laws::number(2)),
            fuel,
        ) is Ok,
        accepts(prog, known, sc, seq![ActionStmtV::Do(e)], fuel) <==> check::infer(
            prog,
            known,
            sc,
            laws::choice(laws::truth(true), idle(), e),
            fuel,
        ) is Ok,
        accepts(
            prog,
            known,
            sc,
            seq![ActionStmtV::Let { name: x, ty: Some(t), expr: e }],
            fuel,
        ) <==> typed_as(prog, known, sc, e, t, fuel),
        accepts(prog, known, sc, seq![binding(x, e)], fuel) <==> check::infer(
            prog,
            known,
            sc,
            e,
            fuel,
        ) is Ok,
        accepts(prog, known, sc, seq![ActionStmtV::Expr(e)], fuel) <==> check::infer(
            prog,
            known,
            sc,
            e,
            fuel,
        ) is Ok,
        accepts(prog, known, sc, seq![ActionStmtV::Insert { table_name: x, row: e }], fuel)
            <==> check::infer(prog, known, sc, e, fuel) is Ok,
{
    lemma_one(prog, known, sc, ActionStmtV::Assert(e, msg), fuel);
    lemma_one(prog, known, sc, ActionStmtV::Do(e), fuel);
    lemma_one(prog, known, sc, ActionStmtV::Let { name: x, ty: Some(t), expr: e }, fuel);
    lemma_one(prog, known, sc, binding(x, e), fuel);
    lemma_one(prog, known, sc, ActionStmtV::Expr(e), fuel);
    lemma_one(prog, known, sc, ActionStmtV::Insert { table_name: x, row: e }, fuel);
    lemma_choice(prog, known, sc, e, laws::number(1), laws::number(2), fuel);
    lemma_choice(prog, known, sc, laws::truth(true), idle(), e, fuel);
    lemma_idle(prog, known, sc, fuel);
    assert(check::infer(prog, known, sc, laws::number(1), fuel) is Ok);
    assert(check::infer(prog, known, sc, laws::number(2), fuel) is Ok);
    assert(check::infer(prog, known, sc, laws::truth(true), fuel) is Ok);
}

/// The innermost binding of a name is the last one.
proof fn lemma_local(locals: Seq<(Symbol, FlowV)>, x: Symbol, f: FlowV)
    ensures
        check::local_type(locals.push((x, f)), x) == Some(f),
{
    assert(locals.push((x, f)).last() == (x, f));
}

/// A bound name stands for its expression in the statements behind: it may be asserted and done
/// where the expression may, and it can be assigned what may stand in its place. A loop over a list
/// of one item takes the body that may stand behind a binding of that item.
pub proof fn names_have_the_types_of_their_expressions(
    prog: Seq<StmtV>,
    known: Known,
    sc: SceneV,
    x: Symbol,
    e: ExprV,
    e2: ExprV,
    msg: Seq<char>,
    body: Seq<ActionStmtV>,
    fuel: nat,
)
    ensures
        accepts(
            prog,
            known,
            sc,
            seq![binding(x, e), ActionStmtV::Assert(named(x), msg)],
            fuel,
        ) <==> accepts(prog, known, sc, seq![ActionStmtV::Assert(e, msg)], fuel),
        accepts(prog, known, sc, seq![binding(x, e), ActionStmtV::Do(named(x))], fuel)
            <==> accepts(prog, known, sc, seq![ActionStmtV::Do(e)], fuel),
        accepts(
            prog,
            known,
            sc,
            seq![binding(x, e), ActionStmtV::Assign { name: x, expr: e2 }],
            fuel,
        ) <==> accepts(
            prog,
            known,
            sc,
            seq![
                binding(x, e),
                ActionStmtV::Expr(laws::choice(laws::truth(true), named(x), e2)),
            ],
            fuel,
        ),
        accepts(
            prog,
            known,
            sc,
            seq![ActionStmtV::For { var: x, iterable: ExprV::List(seq![e]), body }],
            fuel,
        ) <==> accepts(prog, known, sc, seq![binding(x, e)] + body, fuel),
{
    let r = check::infer(prog, known, sc, e, fuel);
    lemma_one(prog, known, sc, ActionStmtV::Assert(e, msg), fuel);
    lemma_one(prog, known, sc, ActionStmtV::Do(e), fuel);
    lemma_two(prog, known, sc, binding(x, e), ActionStmtV::Assert(named(x), msg), fuel);
    lemma_two(prog, known, sc, binding(x, e), ActionStmtV::Do(named(x)), fuel);
    lemma_two(prog, known, sc, binding(x, e), ActionStmtV::Assign { name: x, expr: e2 }, fuel);
    let both = laws::choice(laws::truth(true), named(x), e2);
    lemma_two(prog, known, sc, binding(x, e), ActionStmtV::Expr(both), fuel);
    let lp = ActionStmtV::For { var: x, iterable: ExprV::List(seq![e]), body };
    lemma_one(prog, known, sc, lp, fuel);
    lemma_list_of_one(prog, known, sc, e, fuel);
    assert(check::check_stmt(prog, known, sc, binding(x, e), fuel) is Ok <==> r is Ok);
    let all = seq![binding(x, e)] + body;
    assert(all[0] == binding(x, e));
    if r is Ok {
        let f = r->Ok_0.0;
        let inner = SceneV { locals: sc.locals.push((x, f)), ..sc };
        lemma_local(sc.locals, x, f);
        assert(check::infer(prog, known, inner, named(x), fuel) == Ok::<
            (FlowV, Seq<Member>),
            CheckErrorV,
        >((f, Seq::empty())));
        lemma_choice(prog, known, inner, laws::truth(true), named(x), e2, fuel);
        assert(check::infer(prog, known, inner, laws::truth(true), fuel) is Ok);
        lemma_moved(prog, known, inner, binding(x, e), body, 0, fuel);
        assert(check::check_block(prog, known, sc, all, 0, fuel) == check::check_block(
            prog,
            known,
            inner,
            all,
            1,
            fuel,
        ));
    }
}

/// A list of one item.
proof fn lemma_list_of_one(prog: Seq<StmtV>, known: Known, sc: SceneV, e: ExprV, fuel: nat)
    ensures
        check::infer(prog, known, sc, ExprV::List(seq![e]), fuel) is Ok <==> check::infer(
            prog,
            known,
            sc,
            e,
            fuel,
        ) is Ok,
        check::infer(prog, known, sc, e, fuel) is Ok ==> check::infer(
            prog,
            known,
            sc,
            ExprV::List(seq![e]),
            fuel,
        )->Ok_0.0 == FlowV::List(Box::new(check::infer(prog, known, sc, e, fuel)->Ok_0.0)),
{
    let es = seq![e];
    assert(es[0] == e);
    let r = check::infer(prog, known, sc, e, fuel);
    let none = Seq::<FlowV>::empty();
    if r is Ok {
        let (f, d) = r->Ok_0;
        let deps = collections::merged(Seq::<Member>::empty(), d);
        let fs = none.push(f);
        assert(fs[0] == f);
        assert(check::infer_all(prog, known, sc, es, 0, none, Seq::empty(), fuel)
            == check::infer_all(prog, known, sc, es, 1, fs, deps, fuel));
        assert(check::infer_all(prog, known, sc, es, 1, fs, deps, fuel) is Ok);
        assert(check::first_unlike(fs, 1, flow::erased(f)) is None);
    } else {
        assert(check::infer_all(prog, known, sc, es, 0, none, Seq::empty(), fuel) is Err);
    }
}

/// A checked member can be assigned what may stand in its place, where no local name hides it.
pub proof fn members_keep_their_types(
    prog: Seq<StmtV>,
    known: Known,
    sc: SceneV,
    x: Symbol,
    e: ExprV,
    fuel: nat,
)
    requires
        check::local_type(sc.locals, x) is None,
        check::known_type(known, (sc.svc, x)) is Some,
    ensures
        accepts(prog, known, sc, seq![ActionStmtV::Assign { name: x, expr: e }], fuel)
            <==> check::infer(
            prog,
            known,
            sc,
            laws::choice(laws::truth(true), named(x), e),
            fuel,
        ) is Ok,
{
    lemma_one(prog, known, sc, ActionStmtV::Assign { name: x, expr: e }, fuel);
    lemma_choice(prog, known, sc, laws::truth(true), named(x), e, fuel);
    assert(check::infer(prog, known, sc, laws::truth(true), fuel) is Ok);
    assert(check::infer(prog, known, sc, named(x), fuel) is Ok);
}

/// Writing a type and reading it gives the type back.
proof fn lemma_annotated(t: TypeV)
    ensures
        flow::erased(flow::annotated(t)) == t,
    decreases t,
{
    match t {
        TypeV::Tuple(ts) => {
            lemma_annotated_all(ts);
        },
        TypeV::List(inner) => {
            lemma_annotated(*inner);
        },
        TypeV::Func { params, ret } => {
            lemma_annotated_all(params);
            lemma_annotated(*ret);
        },
        _ => {},
    }
}

/// Writing types and reading them gives the types back.
proof fn lemma_annotated_all(ts: Seq<TypeV>)
    ensures
        flow::erased_all(flow::annotated_all(ts)) == ts,
    decreases ts,
{
    if ts.len() == 0 {
        assert(flow::erased_all(flow::annotated_all(ts)) =~= ts);
    } else {
        lemma_annotated_all(ts.drop_last());
        lemma_annotated(ts.last());
        let fs = flow::annotated_all(ts);
        assert(fs.drop_last() =~= flow::annotated_all(ts.drop_last()));
        assert(fs.last() == flow::annotated(ts.last()));
        assert(flow::erased_all(fs) =~= ts);
    }
}

/// A function of one parameter.
pub open spec fn function(x: Symbol, t: TypeV, ret: Option<TypeV>, body: ExprV) -> ExprV {
    ExprV::Func {
        params: seq![ParamV { name: x, ty: Some(t) }],
        return_ty: ret,
        body: Box::new(body),
    }
}

/// The scene of a body in which a name is of a type.
pub open spec fn inside(sc: SceneV, x: Symbol, t: TypeV) -> SceneV {
    check::suspended(sc, sc.locals.push((x, flow::annotated(t))))
}

/// A function is of the type that leads from the written type of its parameter to the type of its
/// body, in which the parameter is of the written type. Where a result is written too, the function
/// is accepted exactly where the body is of that type. A parameter without a type is refused.
pub proof fn functions_have_their_written_types(
    prog: Seq<StmtV>,
    known: Known,
    sc: SceneV,
    x: Symbol,
    t: TypeV,
    u: TypeV,
    body: ExprV,
    fuel: nat,
)
    ensures
        typed_as(
            prog,
            known,
            sc,
            function(x, t, None, body),
            TypeV::Func { params: seq![t], ret: Box::new(u) },
            fuel,
        ) <==> typed_as(prog, known, inside(sc, x, t), body, u, fuel),
        typed_as(
            prog,
            known,
            sc,
            function(x, t, Some(u), body),
            TypeV::Func { params: seq![t], ret: Box::new(u) },
            fuel,
        ) <==> typed_as(prog, known, inside(sc, x, t), body, u, fuel),
        check::infer(prog, known, sc, function(x, t, Some(u), body), fuel) is Ok ==> typed_as(
            prog,
            known,
            inside(sc, x, t),
            body,
            u,
            fuel,
        ),
        typed_as(prog, known, inside(sc, x, t), named(x), t, fuel),
        check::infer(
            prog,
            known,
            sc,
            ExprV::Func {
                params: seq![ParamV { name: x, ty: None }],
                return_ty: None,
                body: Box::new(body),
            },
            fuel,
        ) is Err,
{
    let f = flow::annotated(t);
    let p = ParamV { name: x, ty: Some(t) };
    let none = Seq::<ParamV>::empty();
    lemma_annotated(t);
    assert(seq![p].drop_last() =~= none);
    assert(seq![p].last() == p);
    assert(check::param_flows(none) == Some(Seq::<(Symbol, FlowV)>::empty()));
    let bs = Seq::<(Symbol, FlowV)>::empty().push((x, f));
    assert(check::param_flows(seq![p]) == Some(bs));
    assert(sc.locals + bs =~= sc.locals.push((x, f)));
    let fs = check::binding_types(bs);
    assert(fs =~= Seq::empty().push(f));
    assert(fs.drop_last() =~= Seq::<FlowV>::empty());
    assert(flow::erased_all(fs.drop_last()) =~= Seq::<TypeV>::empty());
    assert(flow::erased_all(fs) =~= seq![t]);
    lemma_local(sc.locals, x, f);
    let q = ParamV { name: x, ty: None };
    assert(seq![q].last() == q);
    assert(check::param_flows(seq![q]) is None);
    let r = check::infer(prog, known, inside(sc, x, t), body, fuel);
    if r is Ok {
        let (ret, deps) = r->Ok_0;
        let g = FlowV::Func { params: fs, ret: Box::new(ret), deps };
        assert(flow::erased(g) == TypeV::Func {
            params: flow::erased_all(fs),
            ret: Box::new(flow::erased(ret)),
        });
    }
}

/// A name that is known to be a function of one parameter can be called exactly with an argument of
/// the type of the parameter, and the call is of the type of the result. What is no function cannot
/// be called.
pub proof fn calls_take_what_functions_take(
    prog: Seq<StmtV>,
    known: Known,
    sc: SceneV,
    x: Symbol,
    f: FlowV,
    a: ExprV,
    u: TypeV,
    fuel: nat,
)
    requires
        check::local_type(sc.locals, x) == Some(f),
    ensures
        typed_as(
            prog,
            known,
            sc,
            ExprV::Call { func: Box::new(named(x)), args: seq![a] },
            u,
            fuel,
        ) <==> exists|t: TypeV|
            #![trigger typed_as(prog, known, sc, a, t, fuel)]
            typed_as(prog, known, sc, a, t, fuel) && flow::erased(f) == (TypeV::Func {
                params: seq![t],
                ret: Box::new(u),
            }),
{
    let args = seq![a];
    let e = ExprV::Call { func: Box::new(named(x)), args };
    let r = check::infer(prog, known, sc, a, fuel);
    let none = Seq::<FlowV>::empty();
    assert(args[0] == a);
    assert(check::callee(prog, sc, named(x)) == check::CalleeV::Opaque);
    assert(check::infer(prog, known, sc, named(x), fuel) == Ok::<
        (FlowV, Seq<Member>),
        CheckErrorV,
    >((f, Seq::empty())));
    if r is Ok {
        let (g, d) = r->Ok_0;
        let deps = collections::merged(Seq::<Member>::empty(), d);
        let fs = none.push(g);
        assert(check::infer_all(prog, known, sc, args, 0, none, Seq::empty(), fuel)
            == check::infer_all(prog, known, sc, args, 1, fs, deps, fuel));
        assert(check::infer_all(prog, known, sc, args, 1, fs, deps, fuel) == Ok::<
            (Seq<FlowV>, Seq<Member>),
            CheckErrorV,
        >((fs, deps)));
        assert(fs.drop_last() =~= none);
        assert(flow::erased_all(none) =~= Seq::<TypeV>::empty());
        assert(flow::erased_all(fs) =~= seq![flow::erased(g)]);
        assert(typed_as(prog, known, sc, a, flow::erased(g), fuel));
        assert(check::infer(prog, known, sc, e, fuel) == check::opaque_call(
            f,
            Seq::empty(),
            fs,
            deps,
        ));
        if let FlowV::Func { params, ret, deps: inner } = f {
            lemma_erased_len(params);
            assert(flow::erased(f) == TypeV::Func {
                params: flow::erased_all(params),
                ret: Box::new(flow::erased(*ret)),
            });
            if params.len() != 1 {
                assert(flow::erased_all(params).len() != seq![flow::erased(g)].len());
                assert forall|t: TypeV| flow::erased_all(params) != #[trigger] seq![t] by {
                    assert(seq![t].len() == 1);
                }
            } else if flow::erased_all(params) != flow::erased_all(fs) {
                assert forall|t: TypeV|
                    #[trigger] typed_as(prog, known, sc, a, t, fuel) implies flow::erased_all(
                    params,
                ) != seq![t] by {}
            }
        } else {
            assert(flow::erased(f) !is Func);
        }
    } else {
        assert(check::infer_all(prog, known, sc, args, 0, none, Seq::empty(), fuel) is Err);
    }
}

/// As many types as there are.
proof fn lemma_erased_len(fs: Seq<FlowV>)
    ensures
        flow::erased_all(fs).len() == fs.len(),
    decreases fs.len(),
{
    if fs.len() > 0 {
        lemma_erased_len(fs.drop_last());
    }
}

/// Whether a type is that of a declaration, given what is known before it: an expression is of that
/// type, and where a type is written, it is the written one. A table is a list of its rows.
pub open spec fn declared_as(
    prog: Seq<StmtV>,
    known: Known,
    svc: Symbol,
    d: DeclV,
    t: TypeV,
) -> bool {
    match d {
        DeclV::VarDecl { name, ty, val } => {
            &&& typed_as(
                prog,
                known,
                check::decl_scene((svc, name)),
                val,
                t,
                check::inference_depth(),
            )
            &&& ty matches Some(u) ==> u == t
        },
        DeclV::DefDecl { name, ty, val, .. } => {
            &&& typed_as(
                prog,
                known,
                check::decl_scene((svc, name)),
                val,
                t,
                check::inference_depth(),
            )
            &&& ty matches Some(u) ==> u == t
        },
        DeclV::TableDecl { name, fields } => t == TypeV::List(
            Box::new(TypeV::Tuple(Seq::new(fields.len(), |i: int| fields[i].ty))),
        ),
    }
}

/// Whether the `n`th of the known types is that of a declaration.
pub open spec fn known_as(prog: Seq<StmtV>, known: Known, n: int, svc: Symbol, d: DeclV) -> bool {
    &&& 0 <= n < known.len()
    &&& known[n].0 == (svc, ast::decl_name(d))
    &&& declared_as(prog, known.take(n), svc, d, flow::erased(known[n].1))
}

/// The columns of a table.
proof fn lemma_columns(fields: Seq<FieldV>)
    ensures
        flow::erased_all(check::column_flows(fields)) =~= Seq::new(
            fields.len(),
            |i: int| fields[i].ty,
        ),
    decreases fields.len(),
{
    let fs = check::column_flows(fields);
    if fields.len() > 0 {
        lemma_columns(fields.drop_last());
        lemma_annotated(fields.last().ty);
        assert(fs.drop_last() =~= check::column_flows(fields.drop_last()));
        assert(fs.last() == flow::annotated(fields.last().ty));
    }
}

/// What becomes known of the declarations of a service.
proof fn lemma_decls(
    prog: Seq<StmtV>,
    known: Known,
    svc: Symbol,
    decls: Seq<DeclV>,
    i: int,
    j: int,
)
    requires
        0 <= i <= decls.len(),
        check::check_decls(prog, known, svc, decls, i) is Ok,
    ensures
        check::check_decls(prog, known, svc, decls, i)->Ok_0.len() == known.len() + (decls.len()
            - i),
        check::check_decls(prog, known, svc, decls, i)->Ok_0.take(known.len() as int) == known,
        i <= j < decls.len() ==> known_as(
            prog,
            check::check_decls(prog, known, svc, decls, i)->Ok_0,
            known.len() + (j - i),
            svc,
            decls[j],
        ),
    decreases decls.len() - i,
{
    let last = check::check_decls(prog, known, svc, decls, i)->Ok_0;
    if i < decls.len() {
        let d = decls[i];
        let more = check::check_decl(prog, known, svc, d)->Ok_0;
        lemma_decls(prog, more, svc, decls, i + 1, j);
        assert(more.take(known.len() as int) =~= known);
        assert(last.take(known.len() as int) =~= last.take(more.len() as int).take(
            known.len() as int,
        ));
        if i == j {
            let n = known.len() as int;
            assert(last.take(more.len() as int)[n] == last[n]);
            assert(last[n] == more[n]);
            if let DeclV::TableDecl { name, fields } = d {
                lemma_columns(fields);
                let fs = check::column_flows(fields);
                assert(flow::erased(FlowV::Tuple(fs)) == TypeV::Tuple(flow::erased_all(fs)));
            }
        }
    } else {
        assert(last.take(known.len() as int) =~= known);
    }
}

/// What is known of declarations stays known.
proof fn lemma_from(prog: Seq<StmtV>, known: Known, i: int, k: int, j: int)
    requires
        0 <= i <= prog.len(),
        check::check_from(prog, known, i) is Ok,
    ensures
        known.len() <= check::check_from(prog, known, i)->Ok_0.len(),
        check::check_from(prog, known, i)->Ok_0.take(known.len() as int) == known,
        i <= k < prog.len() && prog[k] is Service && 0 <= j < prog[k]->Service_decls.len()
            ==> exists|n: int| #[trigger]
            known_as(
                prog,
                check::check_from(prog, known, i)->Ok_0,
                n,
                prog[k]->Service_name,
                prog[k]->Service_decls[j],
            ),
    decreases prog.len() - i,
{
    let last = check::check_from(prog, known, i)->Ok_0;
    if i < prog.len() {
        if let StmtV::Service { name, decls } = prog[i] {
            lemma_decls(prog, known, name, decls, 0, j);
            let more = check::check_decls(prog, known, name, decls, 0)->Ok_0;
            lemma_from(prog, more, i + 1, k, j);
            assert(last.take(known.len() as int) =~= last.take(more.len() as int).take(
                known.len() as int,
            ));
            if i == k && 0 <= j < decls.len() {
                let n = known.len() + j;
                assert(known_as(prog, more, n, name, decls[j]));
                assert(last.take(more.len() as int)[n] == last[n]);
                assert(last.take(n) =~= last.take(more.len() as int).take(n));
                assert(known_as(prog, last, n, name, decls[j]));
            }
        } else {
            lemma_from(prog, known, i + 1, k, j);
        }
    } else {
        assert(last.take(known.len() as int) =~= known);
    }
}

/// In an accepted program every member has a type: that of its expression, given the types of the
/// members before it, and the written one, where a type is written. A table is a list of rows of
/// its columns. So a program in which an expression is not of the written type is refused.
pub proof fn accepted_programs_keep_written_types(prog: Seq<StmtV>, k: int, j: int)
    requires
        check::checked(prog) is Ok,
        0 <= k < prog.len(),
        prog[k] is Service,
        0 <= j < prog[k]->Service_decls.len(),
    ensures
        exists|n: int| #[trigger]
            known_as(
                prog,
                check::checked(prog)->Ok_0,
                n,
                prog[k]->Service_name,
                prog[k]->Service_decls[j],
            ),
{
    lemma_from(prog, Seq::empty(), 0, k, j);
}

} // verus!
