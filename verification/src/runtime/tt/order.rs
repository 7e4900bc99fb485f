//! What an accepted program promises: what a declaration reads at once was declared before it,
//! and nothing reads itself.

use vstd::prelude::*;

use crate::runtime::ast;
use crate::runtime::ast::{DeclV, ExprV, HtmlPartV, StmtV};
use crate::runtime::collections;
use crate::runtime::interner::Symbol;
use crate::runtime::nameres;
use crate::runtime::tt::check;
use crate::runtime::tt::check::{Known, SceneV};
use crate::runtime::tt::flow;
use crate::runtime::tt::flow::FlowV;
use crate::runtime::tt::types::{Member, ParamV};

verus! {

/// What a local name is bound to, as far as it is known.
pub enum BoundV {
    /// Some value.
    Plain,
    /// A function written at a place.
    Closure { params: Seq<ParamV>, body: ExprV, at: Box<PlaceV> },
}

/// Where an expression is evaluated: its service, the local names around it, the members whose
/// evaluation is under way, and the functions whose bodies enclose it.
pub struct PlaceV {
    pub svc: Symbol,
    pub bound: Seq<(Symbol, BoundV)>,
    pub path: Seq<Member>,
    pub inside: Seq<Member>,
}

/// What a local name is bound to: its innermost binding.
pub open spec fn bound_at(bound: Seq<(Symbol, BoundV)>, x: Symbol) -> Option<BoundV>
    decreases bound.len(),
{
    if bound.len() == 0 {
        None
    } else if bound.last().0 == x {
        Some(bound.last().1)
    } else {
        bound_at(bound.drop_last(), x)
    }
}

/// What a parameter is bound to where this argument is passed: a function that is written there,
/// or one that a local name stands for.
pub open spec fn passed(at: PlaceV, arg: ExprV) -> BoundV {
    match arg {
        ExprV::Func { params, body, .. } => BoundV::Closure {
            params,
            body: *body,
            at: Box::new(at),
        },
        ExprV::Variable { name } => match bound_at(at.bound, name) {
            Some(b) => b,
            None => BoundV::Plain,
        },
        _ => BoundV::Plain,
    }
}

/// The parameters of a function that is called.
pub open spec fn bind_passed(at: PlaceV, params: Seq<ParamV>, args: Seq<ExprV>) -> Seq<
    (Symbol, BoundV),
> {
    Seq::new(params.len(), |i: int| (params[i].name, passed(at, args[i])))
}

/// The place inside a function that is called where it is written.
pub open spec fn inline_place(at: PlaceV, params: Seq<ParamV>, args: Seq<ExprV>) -> PlaceV {
    PlaceV { bound: at.bound + bind_passed(at, params, args), ..at }
}

/// The place inside a function that was written at `at`.
pub open spec fn closure_place(at: PlaceV, params: Seq<ParamV>) -> PlaceV {
    PlaceV {
        svc: at.svc,
        bound: at.bound + Seq::new(params.len(), |i: int| (params[i].name, BoundV::Plain)),
        path: Seq::empty(),
        inside: collections::merged(at.inside, at.path),
    }
}

/// The member that an expression refers to.
pub open spec fn named_at(at: PlaceV, e: ExprV) -> Option<Member> {
    match e {
        ExprV::Variable { name } => match bound_at(at.bound, name) {
            Some(_) => None,
            None => Some((at.svc, name)),
        },
        ExprV::MemberAccess { service_name, member_name } => Some((service_name, member_name)),
        _ => None,
    }
}

/// The function that a call of `func` enters: a member that is declared as a function and is
/// neither under way nor entered already.
pub open spec fn entered_by(prog: Seq<StmtV>, at: PlaceV, func: ExprV) -> Option<
    (Member, Seq<ParamV>, ExprV),
> {
    match named_at(at, func) {
        None => None,
        Some(t) => if at.path.contains(t) || at.inside.contains(t) {
            None
        } else {
            match check::decl_of(prog, t) {
                Some(d) => match ast::decl_val(d) {
                    Some(ExprV::Func { params, body, .. }) => Some((t, params, *body)),
                    _ => None,
                },
                None => None,
            }
        },
    }
}

/// The place inside the body of a member that is called.
pub open spec fn called_place(
    at: PlaceV,
    t: Member,
    params: Seq<ParamV>,
    args: Seq<ExprV>,
) -> PlaceV {
    PlaceV {
        svc: t.0,
        bound: bind_passed(at, params, args),
        path: at.path,
        inside: at.inside.push(t),
    }
}

/// The function that a local name stands for.
pub open spec fn closure_named(at: PlaceV, func: ExprV) -> BoundV {
    match func {
        ExprV::Variable { name } => match bound_at(at.bound, name) {
            Some(b) => b,
            None => BoundV::Plain,
        },
        _ => BoundV::Plain,
    }
}

/// Whether evaluating `e` reads the member `m` at once, by its name, and not only inside a
/// function or an action that is made and not called. A call of a function that is declared as
/// a member reads what its body reads, and so does a call of a parameter to which a function was
/// passed; `depth` bounds how many such calls are followed.
pub open spec fn reads(prog: Seq<StmtV>, e: ExprV, at: PlaceV, m: Member, depth: nat) -> bool
    decreases depth, e,
{
    match e {
        ExprV::Variable { name } => m == (at.svc, name) && bound_at(at.bound, name) is None,
        ExprV::KeyVal { value, .. } => reads(prog, *value, at, m, depth),
        ExprV::Tuple { val } => any_reads(prog, val, at, m, depth),
        ExprV::List(val) => any_reads(prog, val, at, m, depth),
        ExprV::Range { start, end } => reads(prog, *start, at, m, depth) || reads(
            prog,
            *end,
            at,
            m,
            depth,
        ),
        ExprV::Unop { expr, .. } => reads(prog, *expr, at, m, depth),
        ExprV::Binop { expr1, expr2, .. } => reads(prog, *expr1, at, m, depth) || reads(
            prog,
            *expr2,
            at,
            m,
            depth,
        ),
        ExprV::If { cond, expr1, expr2 } => reads(prog, *cond, at, m, depth) || reads(
            prog,
            *expr1,
            at,
            m,
            depth,
        ) || reads(prog, *expr2, at, m, depth),
        ExprV::Call { func, args } => {
            ||| any_reads(prog, args, at, m, depth)
            ||| match *func {
                ExprV::Func { params, body, .. } => reads(
                    prog,
                    *body,
                    inline_place(at, params, args),
                    m,
                    depth,
                ),
                _ => reads(prog, *func, at, m, depth),
            }
            ||| match entered_by(prog, at, *func) {
                Some((t, params, body)) => depth > 0 && reads(
                    prog,
                    body,
                    called_place(at, t, params, args),
                    m,
                    (depth - 1) as nat,
                ),
                None => false,
            }
            ||| match closure_named(at, *func) {
                BoundV::Closure { params, body, at: made } => depth > 0 && reads(
                    prog,
                    body,
                    closure_place(*made, params),
                    m,
                    (depth - 1) as nat,
                ),
                BoundV::Plain => false,
            }
        },
        ExprV::Html(parts) => any_part_reads(prog, parts, at, m, depth),
        _ => false,
    }
}

/// Whether evaluating one of the expressions reads `m` at once.
pub open spec fn any_reads(
    prog: Seq<StmtV>,
    es: Seq<ExprV>,
    at: PlaceV,
    m: Member,
    depth: nat,
) -> bool
    decreases depth, es,
{
    exists|i: int| 0 <= i < es.len() && reads(prog, #[trigger] es[i], at, m, depth)
}

/// Whether evaluating a template reads `m` at once.
pub open spec fn any_part_reads(
    prog: Seq<StmtV>,
    parts: Seq<HtmlPartV>,
    at: PlaceV,
    m: Member,
    depth: nat,
) -> bool
    decreases depth, parts,
{
    exists|i: int| 0 <= i < parts.len() && part_reads(prog, #[trigger] parts[i], at, m, depth)
}

/// Whether evaluating a piece of a template reads `m` at once.
pub open spec fn part_reads(
    prog: Seq<StmtV>,
    p: HtmlPartV,
    at: PlaceV,
    m: Member,
    depth: nat,
) -> bool
    decreases depth, p,
{
    match p {
        HtmlPartV::Text(_) => false,
        HtmlPartV::Expr(e) => reads(prog, e, at, m, depth),
    }
}

/// Whether a type tells at least what a call of the function reads that a name is bound to.
pub open spec fn covers(prog: Seq<StmtV>, f: FlowV, b: BoundV) -> bool {
    match b {
        BoundV::Plain => true,
        BoundV::Closure { params, body, at } => f is Func && forall|m: Member, depth: nat|
            #[trigger]
            reads(prog, body, closure_place(*at, params), m, depth) ==> f->Func_deps.contains(m),
    }
}

/// Whether a place is that of a scene.
pub open spec fn stands_at(prog: Seq<StmtV>, sc: SceneV, at: PlaceV) -> bool {
    &&& sc.svc == at.svc
    &&& sc.path == at.path
    &&& sc.guarded == at.inside
    &&& sc.locals.len() == at.bound.len()
    &&& forall|i: int|
        0 <= i < sc.locals.len() ==> (#[trigger] sc.locals[i]).0 == at.bound[i].0 && covers(
            prog,
            sc.locals[i].1,
            at.bound[i].1,
        )
}

/// A name is bound in a scene where it is bound at its place.
proof fn lemma_lookup(
    prog: Seq<StmtV>,
    locals: Seq<(Symbol, FlowV)>,
    bound: Seq<(Symbol, BoundV)>,
    x: Symbol,
)
    requires
        locals.len() == bound.len(),
        forall|i: int|
            0 <= i < locals.len() ==> (#[trigger] locals[i]).0 == bound[i].0 && covers(
                prog,
                locals[i].1,
                bound[i].1,
            ),
    ensures
        match (check::local_type(locals, x), bound_at(bound, x)) {
            (Some(f), Some(b)) => covers(prog, f, b),
            (None, None) => true,
            _ => false,
        },
    decreases locals.len(),
{
    if locals.len() > 0 {
        let n = locals.len() - 1;
        assert(locals[n].0 == bound[n].0);
        if locals.last().0 != x {
            assert forall|i: int| 0 <= i < locals.drop_last().len() implies (
            #[trigger] locals.drop_last()[i]).0 == bound.drop_last()[i].0 && covers(
                prog,
                locals.drop_last()[i].1,
                bound.drop_last()[i].1,
            ) by {
                assert(locals[i].0 == bound[i].0);
            }
            lemma_lookup(prog, locals.drop_last(), bound.drop_last(), x);
        }
    }
}

/// Whether the local names of a scene are these.
pub open spec fn binds_names(sc: SceneV, bound: Seq<Symbol>) -> bool {
    forall|x: Symbol| #[trigger]
        bound.contains(x) <==> check::local_type(sc.locals, x) is Some
}

/// Binding parameters binds their names.
proof fn lemma_bind_args(
    locals: Seq<(Symbol, FlowV)>,
    params: Seq<ParamV>,
    args: Seq<FlowV>,
    x: Symbol,
)
    requires
        params.len() == args.len(),
    ensures
        check::local_type(check::bind_args(locals, params, args), x) is Some
            <==> check::local_type(locals, x) is Some || nameres::param_names(params).contains(x),
    decreases params.len(),
{
    let all = check::bind_args(locals, params, args);
    if params.len() == 0 {
        assert(all =~= locals);
    } else {
        let fewer = params.drop_last();
        assert(all.drop_last() =~= check::bind_args(locals, fewer, args.drop_last()));
        assert(all.last() == (params.last().name, args.last()));
        lemma_bind_args(locals, fewer, args.drop_last(), x);
        let names = nameres::param_names(params);
        assert(names =~= nameres::param_names(fewer).push(params.last().name));
        if nameres::param_names(fewer).contains(x) {
            let k = choose|k: int|
                0 <= k < nameres::param_names(fewer).len() && nameres::param_names(fewer)[k] == x;
            assert(names[k] == x);
        }
        if names.contains(x) && x != params.last().name {
            let k = choose|k: int| 0 <= k < names.len() && names[k] == x;
            assert(nameres::param_names(fewer)[k] == x);
        }
        if x == params.last().name {
            assert(names[params.len() - 1] == x);
        }
    }
}

/// The scene of a function that is called where it is written binds its parameters too.
proof fn lemma_inline_scene(
    sc: SceneV,
    bound: Seq<Symbol>,
    params: Seq<ParamV>,
    args: Seq<FlowV>,
)
    requires
        binds_names(sc, bound),
        params.len() == args.len(),
    ensures
        binds_names(
            SceneV { locals: check::bind_args(sc.locals, params, args), ..sc },
            bound + nameres::param_names(params),
        ),
{
    let inner = SceneV { locals: check::bind_args(sc.locals, params, args), ..sc };
    let names = nameres::param_names(params);
    assert forall|x: Symbol| #[trigger] (bound + names).contains(x) <==> check::local_type(
        inner.locals,
        x,
    ) is Some by {
        lemma_bind_args(sc.locals, params, args, x);
        if (bound + names).contains(x) {
            let k = choose|k: int| 0 <= k < (bound + names).len() && (bound + names)[k] == x;
            if k < bound.len() {
                assert(bound[k] == x);
                assert(bound.contains(x));
            } else {
                assert(names[k - bound.len()] == x);
            }
        }
        if bound.contains(x) {
            let k = choose|k: int| 0 <= k < bound.len() && bound[k] == x;
            assert((bound + names)[k] == x);
        }
        if names.contains(x) {
            let k = choose|k: int| 0 <= k < names.len() && names[k] == x;
            assert((bound + names)[bound.len() + k] == x);
        }
    }
}

/// A merged list holds both.
proof fn lemma_merged_holds(a: Seq<Member>, b: Seq<Member>, m: Member)
    ensures
        collections::merged(a, b).contains(m) <==> a.contains(m) || b.contains(m),
{
    collections::lemma_merged(a, b);
}

/// What is read at once is among what evaluation reads.
#[verifier::rlimit(80)]
proof fn lemma_reads_recorded(
    prog: Seq<StmtV>,
    known: Known,
    sc: SceneV,
    e: ExprV,
    fuel: nat,
    at: PlaceV,
    m: Member,
    depth: nat,
)
    requires
        check::infer(prog, known, sc, e, fuel) is Ok,
        stands_at(prog, sc, at),
        reads(prog, e, at, m, depth),
    ensures
        (check::infer(prog, known, sc, e, fuel)->Ok_0).1.contains(m),
    decreases fuel, e, 1int,
{
    match e {
        ExprV::Variable { name } => {
            lemma_lookup(prog, sc.locals, at.bound, name);
            assert forall|deps: Seq<Member>| #[trigger]
                collections::with_member(deps, m).contains(m) by {
                collections::lemma_with_member(deps, m);
            }
        },
        ExprV::KeyVal { value, .. } => {
            lemma_reads_recorded(prog, known, sc, *value, fuel, at, m, depth);
        },
        ExprV::Tuple { val } => {
            lemma_reads_recorded_all(
                prog,
                known,
                sc,
                val,
                0,
                Seq::empty(),
                Seq::empty(),
                fuel,
                at,
                m,
                depth,
            );
        },
        ExprV::List(val) => {
            lemma_reads_recorded_all(
                prog,
                known,
                sc,
                val,
                0,
                Seq::empty(),
                Seq::empty(),
                fuel,
                at,
                m,
                depth,
            );
            let r = check::infer_all(
                prog,
                known,
                sc,
                val,
                0,
                Seq::empty(),
                Seq::empty(),
                fuel,
            )->Ok_0;
            lemma_merged_holds(r.1, flow::latent_all(r.0.skip(1)), m);
        },
        ExprV::Range { start, end } => {
            let d1 = (check::infer(prog, known, sc, *start, fuel)->Ok_0).1;
            let d2 = (check::infer(prog, known, sc, *end, fuel)->Ok_0).1;
            lemma_merged_holds(d1, d2, m);
            if reads(prog, *start, at, m, depth) {
                lemma_reads_recorded(prog, known, sc, *start, fuel, at, m, depth);
            } else {
                lemma_reads_recorded(prog, known, sc, *end, fuel, at, m, depth);
            }
        },
        ExprV::Unop { expr, .. } => {
            lemma_reads_recorded(prog, known, sc, *expr, fuel, at, m, depth);
        },
        ExprV::Binop { expr1, expr2, .. } => {
            let d1 = (check::infer(prog, known, sc, *expr1, fuel)->Ok_0).1;
            let d2 = (check::infer(prog, known, sc, *expr2, fuel)->Ok_0).1;
            lemma_merged_holds(d1, d2, m);
            if reads(prog, *expr1, at, m, depth) {
                lemma_reads_recorded(prog, known, sc, *expr1, fuel, at, m, depth);
            } else {
                lemma_reads_recorded(prog, known, sc, *expr2, fuel, at, m, depth);
            }
        },
        ExprV::If { cond, expr1, expr2 } => {
            let d0 = (check::infer(prog, known, sc, *cond, fuel)->Ok_0).1;
            let d1 = (check::infer(prog, known, sc, *expr1, fuel)->Ok_0).1;
            let (f2, d2) = check::infer(prog, known, sc, *expr2, fuel)->Ok_0;
            let a = collections::merged(d0, d1);
            let b = collections::merged(a, d2);
            lemma_merged_holds(d0, d1, m);
            lemma_merged_holds(a, d2, m);
            lemma_merged_holds(b, flow::latent(f2), m);
            if reads(prog, *cond, at, m, depth) {
                lemma_reads_recorded(prog, known, sc, *cond, fuel, at, m, depth);
            } else if reads(prog, *expr1, at, m, depth) {
                lemma_reads_recorded(prog, known, sc, *expr1, fuel, at, m, depth);
            } else {
                lemma_reads_recorded(prog, known, sc, *expr2, fuel, at, m, depth);
            }
        },
        ExprV::Call { .. } => {
            lemma_call_recorded(prog, known, sc, e, fuel, at, m, depth);
        },
        ExprV::Html(parts) => {
            lemma_reads_recorded_parts(
                prog,
                known,
                sc,
                parts,
                0,
                Seq::empty(),
                fuel,
                at,
                m,
                depth,
            );
        },
        _ => {},
    }
}

/// What a call reads at once is among what evaluation reads.
#[verifier::rlimit(80)]
proof fn lemma_call_recorded(
    prog: Seq<StmtV>,
    known: Known,
    sc: SceneV,
    e: ExprV,
    fuel: nat,
    at: PlaceV,
    m: Member,
    depth: nat,
)
    requires
        e is Call,
        check::infer(prog, known, sc, e, fuel) is Ok,
        stands_at(prog, sc, at),
        reads(prog, e, at, m, depth),
    ensures
        (check::infer(prog, known, sc, e, fuel)->Ok_0).1.contains(m),
    decreases fuel, e, 0int,
{
    let func = *e->Call_func;
    let args = e->Call_args;
    let none = Seq::<FlowV>::empty();
    let (fs, adeps) = check::infer_all(
        prog,
        known,
        sc,
        args,
        0,
        none,
        Seq::empty(),
        fuel,
    )->Ok_0;
    if any_reads(prog, args, at, m, depth) {
        lemma_reads_recorded_all(
            prog,
            known,
            sc,
            args,
            0,
            none,
            Seq::empty(),
            fuel,
            at,
            m,
            depth,
        );
    }
    lemma_callee(prog, sc, at, func);
    lemma_passed(prog, known, sc, args, 0, none, Seq::empty(), fuel, at);
    match check::callee(prog, sc, func) {
        check::CalleeV::Inline(params, body) => {
            let inner = SceneV { locals: check::bind_args(sc.locals, params, fs), ..sc };
            let (f, deps) = check::infer(prog, known, inner, body, (fuel - 1) as nat)->Ok_0;
            lemma_merged_holds(adeps, deps, m);
            if !any_reads(prog, args, at, m, depth) {
                let place = inline_place(at, params, args);
                assert(stands_at(prog, inner, place)) by {
                    lemma_bound(prog, sc.locals, at.bound, params, args, fs, at);
                }
                lemma_reads_recorded(
                    prog,
                    known,
                    inner,
                    body,
                    (fuel - 1) as nat,
                    place,
                    m,
                    depth,
                );
            }
        },
        check::CalleeV::Member(t, params, body) => {
            let (_, fdeps) = check::infer(prog, known, sc, func, fuel)->Ok_0;
            let inner = SceneV {
                svc: t.0,
                locals: check::bind_args(Seq::empty(), params, fs),
                path: sc.path,
                guarded: sc.guarded.push(t),
            };
            let (f, deps) = check::infer(prog, known, inner, body, (fuel - 1) as nat)->Ok_0;
            lemma_merged_holds(adeps, fdeps, m);
            lemma_merged_holds(collections::merged(adeps, fdeps), deps, m);
            if !any_reads(prog, args, at, m, depth) {
                if reads(prog, func, at, m, depth) {
                    lemma_reads_recorded(prog, known, sc, func, fuel, at, m, depth);
                } else {
                    let place = called_place(at, t, params, args);
                    assert(stands_at(prog, inner, place)) by {
                        let empty = Seq::<(Symbol, BoundV)>::empty();
                        lemma_bound(prog, Seq::empty(), empty, params, args, fs, at);
                        assert(empty + bind_passed(at, params, args) =~= place.bound);
                    }
                    lemma_reads_recorded(
                        prog,
                        known,
                        inner,
                        body,
                        (fuel - 1) as nat,
                        place,
                        m,
                        (depth - 1) as nat,
                    );
                }
            }
        },
        check::CalleeV::Opaque => {
            let (f, fdeps) = check::infer(prog, known, sc, func, fuel)->Ok_0;
            let deps = f->Func_deps;
            let a = collections::merged(adeps, fdeps);
            let b = collections::merged(a, deps);
            lemma_merged_holds(adeps, fdeps, m);
            lemma_merged_holds(a, deps, m);
            lemma_merged_holds(b, flow::latent_all(fs), m);
            if !any_reads(prog, args, at, m, depth) {
                if reads(prog, func, at, m, depth) {
                    lemma_reads_recorded(prog, known, sc, func, fuel, at, m, depth);
                } else {
                    let name = func->Variable_name;
                    lemma_lookup(prog, sc.locals, at.bound, name);
                    assert(covers(prog, f, closure_named(at, func)));
                    if let BoundV::Closure { params, body, at: made } = closure_named(at, func) {
                        let before = (depth - 1) as nat;
                        assert(reads(prog, body, closure_place(*made, params), m, before));
                    }
                }
            }
        },
    }
}

/// The function that a call enters is the one that is known to be called.
proof fn lemma_callee(prog: Seq<StmtV>, sc: SceneV, at: PlaceV, func: ExprV)
    requires
        stands_at(prog, sc, at),
    ensures
        func !is Func ==> match entered_by(prog, at, func) {
            Some((t, params, body)) => check::callee(prog, sc, func) == check::CalleeV::Member(
                t,
                params,
                body,
            ),
            None => check::callee(prog, sc, func) is Opaque,
        },
        func is Func ==> entered_by(prog, at, func) is None,
        closure_named(at, func) is Closure ==> entered_by(prog, at, func) is None,
{
    if let ExprV::Variable { name } = func {
        lemma_lookup(prog, sc.locals, at.bound, name);
    }
}

/// The scene of a function that is called is that of its place.
proof fn lemma_bound(
    prog: Seq<StmtV>,
    locals: Seq<(Symbol, FlowV)>,
    bound: Seq<(Symbol, BoundV)>,
    params: Seq<ParamV>,
    args: Seq<ExprV>,
    fs: Seq<FlowV>,
    at: PlaceV,
)
    requires
        locals.len() == bound.len(),
        forall|i: int|
            0 <= i < locals.len() ==> (#[trigger] locals[i]).0 == bound[i].0 && covers(
                prog,
                locals[i].1,
                bound[i].1,
            ),
        params.len() == fs.len(),
        forall|i: int|
            0 <= i < fs.len() ==> covers(prog, #[trigger] fs[i], passed(at, args[i])),
    ensures
        ({
            let inner = check::bind_args(locals, params, fs);
            let outer = bound + bind_passed(at, params, args);
            &&& inner.len() == outer.len()
            &&& forall|i: int|
                0 <= i < inner.len() ==> (#[trigger] inner[i]).0 == outer[i].0 && covers(
                    prog,
                    inner[i].1,
                    outer[i].1,
                )
        }),
{
    let inner = check::bind_args(locals, params, fs);
    let outer = bound + bind_passed(at, params, args);
    assert forall|i: int| 0 <= i < inner.len() implies (#[trigger] inner[i]).0 == outer[i].0
        && covers(prog, inner[i].1, outer[i].1) by {
        if i < locals.len() {
            assert(inner[i] == locals[i]);
        } else {
            let k = i - locals.len();
            assert(inner[i].1 == fs[k]);
        }
    }
}

/// The types of arguments tell what calls of the functions read that are passed.
proof fn lemma_passed(
    prog: Seq<StmtV>,
    known: Known,
    sc: SceneV,
    es: Seq<ExprV>,
    i: int,
    found: Seq<FlowV>,
    deps: Seq<Member>,
    fuel: nat,
    at: PlaceV,
)
    requires
        0 <= i <= es.len(),
        found.len() == i,
        forall|k: int| 0 <= k < i ==> covers(prog, #[trigger] found[k], passed(at, es[k])),
        check::infer_all(prog, known, sc, es, i, found, deps, fuel) is Ok,
        stands_at(prog, sc, at),
    ensures
        ({
            let fs = (check::infer_all(prog, known, sc, es, i, found, deps, fuel)->Ok_0).0;
            &&& fs.len() == es.len()
            &&& forall|k: int|
                0 <= k < fs.len() ==> covers(prog, #[trigger] fs[k], passed(at, es[k]))
        }),
    decreases fuel, es, es.len() - i,
{
    if i < es.len() {
        let (f, d) = check::infer(prog, known, sc, es[i], fuel)->Ok_0;
        lemma_covers(prog, known, sc, es[i], fuel, at);
        let more = found.push(f);
        assert forall|k: int| 0 <= k < i + 1 implies covers(
            prog,
            #[trigger] more[k],
            passed(at, es[k]),
        ) by {
            if k < i {
                assert(more[k] == found[k]);
            }
        }
        lemma_passed(
            prog,
            known,
            sc,
            es,
            i + 1,
            more,
            collections::merged(deps, d),
            fuel,
            at,
        );
    }
}

/// The type of a function tells what calls of it read.
proof fn lemma_covers(
    prog: Seq<StmtV>,
    known: Known,
    sc: SceneV,
    e: ExprV,
    fuel: nat,
    at: PlaceV,
)
    requires
        check::infer(prog, known, sc, e, fuel) is Ok,
        stands_at(prog, sc, at),
    ensures
        covers(prog, (check::infer(prog, known, sc, e, fuel)->Ok_0).0, passed(at, e)),
    decreases fuel, e, 2int,
{
    let f = (check::infer(prog, known, sc, e, fuel)->Ok_0).0;
    match e {
        ExprV::Func { params, body, .. } => {
            let bs = check::param_flows(params)->0;
            let inner = check::suspended(sc, sc.locals + bs);
            let place = closure_place(at, params);
            lemma_param_names(params);
            assert(stands_at(prog, inner, place)) by {
                assert forall|i: int| 0 <= i < inner.locals.len() implies (
                #[trigger] inner.locals[i]).0 == place.bound[i].0 && covers(
                    prog,
                    inner.locals[i].1,
                    place.bound[i].1,
                ) by {
                    if i < sc.locals.len() {
                        assert(inner.locals[i] == sc.locals[i]);
                    } else {
                        assert(inner.locals[i] == bs[i - sc.locals.len()]);
                    }
                }
            }
            assert forall|m: Member, depth: nat| #[trigger]
                reads(prog, *body, place, m, depth) implies f->Func_deps.contains(m) by {
                lemma_reads_recorded(prog, known, inner, *body, fuel, place, m, depth);
            }
        },
        ExprV::Variable { name } => {
            lemma_lookup(prog, sc.locals, at.bound, name);
        },
        _ => {},
    }
}

/// Declared parameters are bound in order.
proof fn lemma_param_names(params: Seq<ParamV>)
    requires
        check::param_flows(params) is Some,
    ensures
        (check::param_flows(params)->0).len() == params.len(),
        forall|i: int|
            0 <= i < params.len() ==> (#[trigger] (check::param_flows(params)->0)[i]).0
                == params[i].name,
    decreases params.len(),
{
    if params.len() > 0 {
        lemma_param_names(params.drop_last());
    }
}

/// What expressions read at once is among what evaluating them reads.
proof fn lemma_reads_recorded_all(
    prog: Seq<StmtV>,
    known: Known,
    sc: SceneV,
    es: Seq<ExprV>,
    i: int,
    found: Seq<FlowV>,
    deps: Seq<Member>,
    fuel: nat,
    at: PlaceV,
    m: Member,
    depth: nat,
)
    requires
        0 <= i,
        check::infer_all(prog, known, sc, es, i, found, deps, fuel) is Ok,
        stands_at(prog, sc, at),
    ensures
        ({
            let out = (check::infer_all(prog, known, sc, es, i, found, deps, fuel)->Ok_0).1;
            &&& deps.contains(m) ==> out.contains(m)
            &&& (exists|k: int| i <= k < es.len() && reads(prog, #[trigger] es[k], at, m, depth))
                ==> out.contains(m)
            &&& i == 0 && any_reads(prog, es, at, m, depth) ==> out.contains(m)
        }),
    decreases fuel, es, es.len() - i,
{
    if i < es.len() {
        let (f, d) = check::infer(prog, known, sc, es[i], fuel)->Ok_0;
        lemma_merged_holds(deps, d, m);
        if reads(prog, es[i], at, m, depth) {
            lemma_reads_recorded(prog, known, sc, es[i], fuel, at, m, depth);
        }
        lemma_reads_recorded_all(
            prog,
            known,
            sc,
            es,
            i + 1,
            found.push(f),
            collections::merged(deps, d),
            fuel,
            at,
            m,
            depth,
        );
    }
}

/// What a template reads at once is among what evaluating it reads.
proof fn lemma_reads_recorded_parts(
    prog: Seq<StmtV>,
    known: Known,
    sc: SceneV,
    parts: Seq<HtmlPartV>,
    i: int,
    deps: Seq<Member>,
    fuel: nat,
    at: PlaceV,
    m: Member,
    depth: nat,
)
    requires
        0 <= i,
        check::infer_parts(prog, known, sc, parts, i, deps, fuel) is Ok,
        stands_at(prog, sc, at),
    ensures
        ({
            let out = check::infer_parts(prog, known, sc, parts, i, deps, fuel)->Ok_0;
            &&& deps.contains(m) ==> out.contains(m)
            &&& (exists|k: int|
                i <= k < parts.len() && part_reads(prog, #[trigger] parts[k], at, m, depth))
                ==> out.contains(m)
            &&& i == 0 && any_part_reads(prog, parts, at, m, depth) ==> out.contains(m)
        }),
    decreases fuel, parts, parts.len() - i,
{
    if i < parts.len() {
        match parts[i] {
            HtmlPartV::Text(_) => {
                lemma_reads_recorded_parts(
                    prog,
                    known,
                    sc,
                    parts,
                    i + 1,
                    deps,
                    fuel,
                    at,
                    m,
                    depth,
                );
            },
            HtmlPartV::Expr(e) => {
                let (_, d) = check::infer(prog, known, sc, e, fuel)->Ok_0;
                lemma_merged_holds(deps, d, m);
                if reads(prog, e, at, m, depth) {
                    lemma_reads_recorded(prog, known, sc, e, fuel, at, m, depth);
                }
                lemma_reads_recorded_parts(
                    prog,
                    known,
                    sc,
                    parts,
                    i + 1,
                    collections::merged(deps, d),
                    fuel,
                    at,
                    m,
                    depth,
                );
            },
        }
    }
}

/// The place of a declaration.
pub open spec fn decl_place(m: Member) -> PlaceV {
    PlaceV { svc: m.0, bound: Seq::empty(), path: seq![m], inside: Seq::empty() }
}

/// Whether a declaration of a service reads the member `m` at once.
pub open spec fn decl_reads(
    prog: Seq<StmtV>,
    svc: Symbol,
    d: DeclV,
    m: Member,
    depth: nat,
) -> bool {
    ast::decl_val(d) matches Some(e) && reads(
        prog,
        e,
        decl_place((svc, ast::decl_name(d))),
        m,
        depth,
    )
}

/// Whether a service declares a name among its first `j` declarations.
pub open spec fn declares_among(decls: Seq<DeclV>, j: int, x: Symbol) -> bool {
    exists|i: int| 0 <= i < j && i < decls.len() && ast::decl_name(#[trigger] decls[i]) == x
}

/// Whether a member is declared before declaration `j` of statement `k`.
pub open spec fn declared_before(prog: Seq<StmtV>, k: int, j: int, m: Member) -> bool {
    ||| exists|i: int|
        0 <= i < k && i < prog.len() && (#[trigger] prog[i] matches StmtV::Service { name, decls }
            && name == m.0 && declares_among(decls, decls.len() as int, m.1))
    ||| 0 <= k < prog.len() && (prog[k] matches StmtV::Service { name, decls } && name == m.0
        && declares_among(decls, j, m.1))
}

/// Whether everything known was declared before.
pub open spec fn known_before(prog: Seq<StmtV>, k: int, j: int, known: Known) -> bool {
    forall|m: Member|
        #[trigger] check::known_type(known, m) is Some ==> declared_before(prog, k, j, m)
}

/// What was declared before one declaration was declared before the next.
proof fn lemma_before_next(prog: Seq<StmtV>, k: int, j: int, m: Member)
    requires
        declared_before(prog, k, j, m),
    ensures
        declared_before(prog, k, j + 1, m),
{
    if 0 <= k < prog.len() {
        if let StmtV::Service { name, decls } = prog[k] {
            if name == m.0 && declares_among(decls, j, m.1) {
                let i = choose|i: int|
                    0 <= i < j && i < decls.len() && ast::decl_name(#[trigger] decls[i]) == m.1;
                assert(declares_among(decls, j + 1, m.1));
            }
        }
    }
}

/// Nothing unchecked is read.
proof fn lemma_all_checked(known: Known, deps: Seq<Member>, i: int, m: Member)
    requires
        0 <= i,
        check::first_unchecked(known, deps, i) is None,
        exists|k: int| i <= k < deps.len() && #[trigger] deps[k] == m,
    ensures
        check::known_type(known, m) is Some,
    decreases deps.len() - i,
{
    if i < deps.len() {
        if deps[i] != m {
            lemma_all_checked(known, deps, i + 1, m);
        }
    }
}

/// In a service that is accepted from declaration `i` on, what declaration `j` reads at once was
/// declared before it.
proof fn lemma_decls_in_order(prog: Seq<StmtV>, known: Known, k: int, i: int)
    requires
        0 <= k < prog.len(),
        prog[k] is Service,
        0 <= i <= prog[k]->Service_decls.len(),
        check::check_decls(
            prog,
            known,
            prog[k]->Service_name,
            prog[k]->Service_decls,
            i,
        ) is Ok,
        known_before(prog, k, i, known),
    ensures
        known_before(
            prog,
            k,
            prog[k]->Service_decls.len() as int,
            check::check_decls(
                prog,
                known,
                prog[k]->Service_name,
                prog[k]->Service_decls,
                i,
            )->Ok_0,
        ),
        forall|j: int, m: Member, depth: nat|
            i <= j < prog[k]->Service_decls.len() && #[trigger] decl_reads(
                prog,
                prog[k]->Service_name,
                prog[k]->Service_decls[j],
                m,
                depth,
            ) ==> declared_before(prog, k, j, m),
    decreases prog[k]->Service_decls.len() - i,
{
    let svc = prog[k]->Service_name;
    let decls = prog[k]->Service_decls;
    if i < decls.len() {
        let d = decls[i];
        let own = (svc, ast::decl_name(d));
        let more = check::check_decl(prog, known, svc, d)->Ok_0;
        assert(known_before(prog, k, i + 1, more)) by {
            assert forall|n: Member|
                #[trigger] check::known_type(more, n) is Some implies declared_before(
                prog,
                k,
                i + 1,
                n,
            ) by {
                assert(more.drop_last() =~= known);
                assert(more.last().0 == own);
                if n == own {
                    assert(ast::decl_name(decls[i]) == own.1);
                    assert(declares_among(decls, i + 1, own.1));
                } else {
                    assert(check::known_type(known, n) is Some);
                    lemma_before_next(prog, k, i, n);
                }
            }
        }
        lemma_decls_in_order(prog, more, k, i + 1);
        assert forall|j: int, m: Member, depth: nat|
            i <= j < decls.len() && #[trigger] decl_reads(
                prog,
                svc,
                decls[j],
                m,
                depth,
            ) implies declared_before(prog, k, j, m) by {
            if j == i {
                let e = ast::decl_val(d)->0;
                let sc = check::decl_scene(own);
                let (f, deps) = check::infer(
                    prog,
                    known,
                    sc,
                    e,
                    check::inference_depth(),
                )->Ok_0;
                lemma_reads_recorded(
                    prog,
                    known,
                    sc,
                    e,
                    check::inference_depth(),
                    decl_place(own),
                    m,
                    depth,
                );
                lemma_all_checked(known, deps, 0, m);
            }
        }
    }
}

/// In a program that is accepted from statement `i` on, what a declaration reads at once was
/// declared before it.
proof fn lemma_prog_in_order(
    prog: Seq<StmtV>,
    known: Known,
    i: int,
    k: int,
    j: int,
    m: Member,
    depth: nat,
)
    requires
        0 <= i <= k < prog.len(),
        check::check_from(prog, known, i) is Ok,
        known_before(prog, i, 0, known),
        prog[k] is Service,
        0 <= j < prog[k]->Service_decls.len(),
        decl_reads(prog, prog[k]->Service_name, prog[k]->Service_decls[j], m, depth),
    ensures
        declared_before(prog, k, j, m),
    decreases k - i,
{
    match prog[i] {
        StmtV::Service { name, decls } => {
            lemma_decls_in_order(prog, known, i, 0);
            let more = check::check_decls(prog, known, name, decls, 0)->Ok_0;
            if i < k {
                assert(known_before(prog, i + 1, 0, more)) by {
                    assert forall|n: Member|
                        #[trigger] check::known_type(more, n) is Some implies declared_before(
                        prog,
                        i + 1,
                        0,
                        n,
                    ) by {
                        assert(declared_before(prog, i, decls.len() as int, n));
                        assert(prog[i] is Service);
                    }
                }
                lemma_prog_in_order(prog, more, i + 1, k, j, m, depth);
            }
        },
        _ => {
            assert(known_before(prog, i + 1, 0, known)) by {
                assert forall|n: Member|
                    #[trigger] check::known_type(known, n) is Some implies declared_before(
                    prog,
                    i + 1,
                    0,
                    n,
                ) by {
                    assert(declared_before(prog, i, 0, n));
                }
            }
            lemma_prog_in_order(prog, known, i + 1, k, j, m, depth);
        },
    }
}

/// In an accepted program, what a declaration reads at once was declared before it, also what it
/// reads through calls of functions that are declared as members or passed to them: there is no
/// forward reference to a value that does not exist yet. What is read only when a function or an
/// action runs later may be declared later.
pub proof fn members_are_declared_before_use(
    prog: Seq<StmtV>,
    k: int,
    j: int,
    m: Member,
    depth: nat,
)
    requires
        check::checked(prog) is Ok,
        0 <= k < prog.len(),
        prog[k] is Service,
        0 <= j < prog[k]->Service_decls.len(),
        decl_reads(prog, prog[k]->Service_name, prog[k]->Service_decls[j], m, depth),
    ensures
        declared_before(prog, k, j, m),
{
    lemma_prog_in_order(prog, Seq::empty(), 0, k, j, m, depth);
}

/// Whether evaluating `e` in service `svc` reads the member `m` at once, of this service or of
/// another. `bound` holds the local names around `e`.
pub open spec fn reads_member(e: ExprV, svc: Symbol, bound: Seq<Symbol>, m: Member) -> bool
    decreases e,
{
    match e {
        ExprV::Variable { name } => m == (svc, name) && !bound.contains(name),
        ExprV::MemberAccess { service_name, member_name } => m == (service_name, member_name),
        ExprV::KeyVal { value, .. } => reads_member(*value, svc, bound, m),
        ExprV::Tuple { val } => any_reads_member(val, svc, bound, m),
        ExprV::List(val) => any_reads_member(val, svc, bound, m),
        ExprV::Range { start, end } => reads_member(*start, svc, bound, m) || reads_member(
            *end,
            svc,
            bound,
            m,
        ),
        ExprV::Unop { expr, .. } => reads_member(*expr, svc, bound, m),
        ExprV::Binop { expr1, expr2, .. } => reads_member(*expr1, svc, bound, m) || reads_member(
            *expr2,
            svc,
            bound,
            m,
        ),
        ExprV::If { cond, expr1, expr2 } => reads_member(*cond, svc, bound, m) || reads_member(
            *expr1,
            svc,
            bound,
            m,
        ) || reads_member(*expr2, svc, bound, m),
        ExprV::Call { func, args } => any_reads_member(args, svc, bound, m) || match *func {
            ExprV::Func { params, body, .. } => reads_member(
                *body,
                svc,
                bound + nameres::param_names(params),
                m,
            ),
            _ => reads_member(*func, svc, bound, m),
        },
        ExprV::Html(parts) => any_part_reads_member(parts, svc, bound, m),
        _ => false,
    }
}

/// Whether evaluating one of the expressions reads `m` at once.
pub open spec fn any_reads_member(
    es: Seq<ExprV>,
    svc: Symbol,
    bound: Seq<Symbol>,
    m: Member,
) -> bool
    decreases es,
{
    exists|i: int| 0 <= i < es.len() && reads_member(#[trigger] es[i], svc, bound, m)
}

/// Whether evaluating a template reads `m` at once.
pub open spec fn any_part_reads_member(
    parts: Seq<HtmlPartV>,
    svc: Symbol,
    bound: Seq<Symbol>,
    m: Member,
) -> bool
    decreases parts,
{
    exists|i: int| 0 <= i < parts.len() && part_reads_member(#[trigger] parts[i], svc, bound, m)
}

/// Whether evaluating a piece of a template reads `m` at once.
pub open spec fn part_reads_member(
    p: HtmlPartV,
    svc: Symbol,
    bound: Seq<Symbol>,
    m: Member,
) -> bool
    decreases p,
{
    match p {
        HtmlPartV::Text(_) => false,
        HtmlPartV::Expr(e) => reads_member(e, svc, bound, m),
    }
}

/// Whether the expression of a member has a type where that member is under way.
pub open spec fn has_type_there(prog: Seq<StmtV>, known: Known, sc: SceneV, m: Member) -> bool {
    check::decl_of(prog, m) matches Some(d) && (ast::decl_val(d) matches Some(v) ==> exists|
        fuel: nat,
    | #[trigger] check::infer(prog, known, check::demand_scene(sc, m), v, fuel) is Ok)
}

/// A member that was not checked before and is read at once is not under way, and its own
/// expression has a type.
#[verifier::rlimit(60)]
proof fn lemma_demanded(
    prog: Seq<StmtV>,
    known: Known,
    sc: SceneV,
    e: ExprV,
    fuel: nat,
    bound: Seq<Symbol>,
    m: Member,
)
    requires
        check::infer(prog, known, sc, e, fuel) is Ok,
        binds_names(sc, bound),
        reads_member(e, sc.svc, bound, m),
        check::known_type(known, m) is None,
        sc.guarded.len() == 0,
    ensures
        !sc.path.contains(m),
        has_type_there(prog, known, sc, m),
    decreases fuel, e, 1int,
{
    match e {
        ExprV::Variable { name } => {
            assert(!bound.contains(name));
            assert(check::local_type(sc.locals, name) is None);
            lemma_reference(prog, known, sc, e, fuel, m);
        },
        ExprV::MemberAccess { .. } => {
            lemma_reference(prog, known, sc, e, fuel, m);
        },
        ExprV::KeyVal { value, .. } => {
            lemma_demanded(prog, known, sc, *value, fuel, bound, m);
        },
        ExprV::Tuple { val } => {
            lemma_demanded_all(
                prog,
                known,
                sc,
                val,
                0,
                Seq::empty(),
                Seq::empty(),
                fuel,
                bound,
                m,
            );
        },
        ExprV::List(val) => {
            lemma_demanded_all(
                prog,
                known,
                sc,
                val,
                0,
                Seq::empty(),
                Seq::empty(),
                fuel,
                bound,
                m,
            );
        },
        ExprV::Range { start, end } => {
            if reads_member(*start, sc.svc, bound, m) {
                lemma_demanded(prog, known, sc, *start, fuel, bound, m);
            } else {
                lemma_demanded(prog, known, sc, *end, fuel, bound, m);
            }
        },
        ExprV::Unop { expr, .. } => {
            lemma_demanded(prog, known, sc, *expr, fuel, bound, m);
        },
        ExprV::Binop { expr1, expr2, .. } => {
            if reads_member(*expr1, sc.svc, bound, m) {
                lemma_demanded(prog, known, sc, *expr1, fuel, bound, m);
            } else {
                lemma_demanded(prog, known, sc, *expr2, fuel, bound, m);
            }
        },
        ExprV::If { cond, expr1, expr2 } => {
            if reads_member(*cond, sc.svc, bound, m) {
                lemma_demanded(prog, known, sc, *cond, fuel, bound, m);
            } else if reads_member(*expr1, sc.svc, bound, m) {
                lemma_demanded(prog, known, sc, *expr1, fuel, bound, m);
            } else {
                lemma_demanded(prog, known, sc, *expr2, fuel, bound, m);
            }
        },
        ExprV::Call { .. } => {
            lemma_demanded_call(prog, known, sc, e, fuel, bound, m);
        },
        ExprV::Html(parts) => {
            lemma_demanded_parts(prog, known, sc, parts, 0, Seq::empty(), fuel, bound, m);
        },
        _ => {},
    }
}

/// A reference to a member that was not checked before.
proof fn lemma_reference(
    prog: Seq<StmtV>,
    known: Known,
    sc: SceneV,
    e: ExprV,
    fuel: nat,
    m: Member,
)
    requires
        check::infer(prog, known, sc, e, fuel) is Ok,
        check::member_named(sc, e) == Some(m),
        check::known_type(known, m) is None,
        sc.guarded.len() == 0,
    ensures
        !sc.path.contains(m),
        has_type_there(prog, known, sc, m),
{
    assert(!sc.guarded.contains(m));
    let r = check::reference(prog, known, sc, m);
    assert(r is Demand);
    let d = check::decl_of(prog, m)->0;
    if let Some(v) = ast::decl_val(d) {
        assert(check::infer(
            prog,
            known,
            check::demand_scene(sc, m),
            v,
            (fuel - 1) as nat,
        ) is Ok);
    }
}

/// A call that reads a member at once.
#[verifier::rlimit(40)]
proof fn lemma_demanded_call(
    prog: Seq<StmtV>,
    known: Known,
    sc: SceneV,
    e: ExprV,
    fuel: nat,
    bound: Seq<Symbol>,
    m: Member,
)
    requires
        e is Call,
        check::infer(prog, known, sc, e, fuel) is Ok,
        binds_names(sc, bound),
        reads_member(e, sc.svc, bound, m),
        check::known_type(known, m) is None,
        sc.guarded.len() == 0,
    ensures
        !sc.path.contains(m),
        has_type_there(prog, known, sc, m),
    decreases fuel, e, 0int,
{
    let func = *e->Call_func;
    let args = e->Call_args;
    let none = Seq::<FlowV>::empty();
    let (fs, _) = check::infer_all(prog, known, sc, args, 0, none, Seq::empty(), fuel)->Ok_0;
    if any_reads_member(args, sc.svc, bound, m) {
        lemma_demanded_all(prog, known, sc, args, 0, none, Seq::empty(), fuel, bound, m);
    } else {
        match func {
            ExprV::Func { params, body, .. } => {
                let inner = SceneV { locals: check::bind_args(sc.locals, params, fs), ..sc };
                lemma_inline_scene(sc, bound, params, fs);
                lemma_demanded(
                    prog,
                    known,
                    inner,
                    *body,
                    (fuel - 1) as nat,
                    bound + nameres::param_names(params),
                    m,
                );
                assert(check::demand_scene(inner, m) == check::demand_scene(sc, m));
            },
            _ => {
                lemma_demanded(prog, known, sc, func, fuel, bound, m);
            },
        }
    }
}

/// Expressions that read a member at once.
proof fn lemma_demanded_all(
    prog: Seq<StmtV>,
    known: Known,
    sc: SceneV,
    es: Seq<ExprV>,
    i: int,
    found: Seq<FlowV>,
    deps: Seq<Member>,
    fuel: nat,
    bound: Seq<Symbol>,
    m: Member,
)
    requires
        0 <= i,
        check::infer_all(prog, known, sc, es, i, found, deps, fuel) is Ok,
        binds_names(sc, bound),
        check::known_type(known, m) is None,
        sc.guarded.len() == 0,
    ensures
        (exists|k: int| i <= k < es.len() && reads_member(#[trigger] es[k], sc.svc, bound, m)) || (i
            == 0 && any_reads_member(es, sc.svc, bound, m)) ==> !sc.path.contains(m)
            && has_type_there(prog, known, sc, m),
    decreases fuel, es, es.len() - i,
{
    if i < es.len() {
        let (f, d) = check::infer(prog, known, sc, es[i], fuel)->Ok_0;
        if reads_member(es[i], sc.svc, bound, m) {
            lemma_demanded(prog, known, sc, es[i], fuel, bound, m);
        }
        lemma_demanded_all(
            prog,
            known,
            sc,
            es,
            i + 1,
            found.push(f),
            collections::merged(deps, d),
            fuel,
            bound,
            m,
        );
    }
}

/// A template that reads a member at once.
proof fn lemma_demanded_parts(
    prog: Seq<StmtV>,
    known: Known,
    sc: SceneV,
    parts: Seq<HtmlPartV>,
    i: int,
    deps: Seq<Member>,
    fuel: nat,
    bound: Seq<Symbol>,
    m: Member,
)
    requires
        0 <= i,
        check::infer_parts(prog, known, sc, parts, i, deps, fuel) is Ok,
        binds_names(sc, bound),
        check::known_type(known, m) is None,
        sc.guarded.len() == 0,
    ensures
        (exists|k: int|
            i <= k < parts.len() && part_reads_member(#[trigger] parts[k], sc.svc, bound, m)) || (i
            == 0 && any_part_reads_member(parts, sc.svc, bound, m)) ==> !sc.path.contains(m)
            && has_type_there(prog, known, sc, m),
    decreases fuel, parts, parts.len() - i,
{
    if i < parts.len() {
        match parts[i] {
            HtmlPartV::Text(_) => {
                lemma_demanded_parts(prog, known, sc, parts, i + 1, deps, fuel, bound, m);
            },
            HtmlPartV::Expr(e) => {
                let (_, d) = check::infer(prog, known, sc, e, fuel)->Ok_0;
                if reads_member(e, sc.svc, bound, m) {
                    lemma_demanded(prog, known, sc, e, fuel, bound, m);
                }
                lemma_demanded_parts(
                    prog,
                    known,
                    sc,
                    parts,
                    i + 1,
                    collections::merged(deps, d),
                    fuel,
                    bound,
                    m,
                );
            },
        }
    }
}

/// Whether the declaration of `a` reads the member `b` at once.
pub open spec fn depends_on(prog: Seq<StmtV>, a: Member, b: Member) -> bool {
    check::decl_of(prog, a) matches Some(d) && (ast::decl_val(d) matches Some(e) && reads_member(
        e,
        a.0,
        Seq::empty(),
        b,
    ))
}

/// Whether each member of a walk depends on the next.
pub open spec fn is_walk(prog: Seq<StmtV>, p: Seq<Member>) -> bool {
    forall|i: int| 0 <= i < p.len() - 1 ==> depends_on(prog, #[trigger] p[i], p[i + 1])
}

/// Whether a walk leads from a member back to it.
pub open spec fn is_round(prog: Seq<StmtV>, p: Seq<Member>, m: Member) -> bool {
    is_walk(prog, p) && p.len() >= 2 && p[0] == m && p.last() == m
}

/// Whether a member depends on itself, directly or through others.
pub open spec fn on_cycle(prog: Seq<StmtV>, m: Member) -> bool {
    exists|p: Seq<Member>| #[trigger] is_round(prog, p, m)
}

/// Every member of a round depends on itself.
proof fn lemma_round(prog: Seq<StmtV>, p: Seq<Member>, m: Member, i: int)
    requires
        is_round(prog, p, m),
        0 <= i < p.len(),
    ensures
        on_cycle(prog, p[i]),
{
    if i == p.len() - 1 {
        assert(p[i] == m);
    } else {
        let q = p.skip(i) + p.subrange(1, i + 1);
        let first = p.len() - i;
        assert forall|k: int| 0 <= k < q.len() - 1 implies depends_on(
            prog,
            #[trigger] q[k],
            q[k + 1],
        ) by {
            if k < first - 1 {
                assert(q[k] == p[i + k]);
                assert(q[k + 1] == p[i + k + 1]);
            } else if k == first - 1 {
                assert(q[k] == p[p.len() - 1]);
                assert(q[k + 1] == p[1]);
                assert(p[0] == p[p.len() - 1]);
                assert(depends_on(prog, p[0], p[1]));
            } else {
                assert(q[k] == p[k - first + 1]);
                assert(q[k + 1] == p[k - first + 2]);
            }
        }
        assert(q[0] == p[i]);
        if i == 0 {
            assert(q.last() == p.last());
        } else {
            assert(q.last() == p[i]);
        }
        assert(is_round(prog, q, p[i]));
    }
}

/// A member on a round, none of whose members was checked, has no type.
proof fn lemma_round_untyped(
    prog: Seq<StmtV>,
    known: Known,
    p: Seq<Member>,
    t: int,
    sc: SceneV,
    fuel: nat,
)
    requires
        p.len() >= 2,
        is_round(prog, p, p[0]),
        forall|i: int| 0 <= i < p.len() ==> check::known_type(known, #[trigger] p[i]) is None,
        0 <= t < p.len() - 1,
        sc.svc == p[t].0,
        sc.locals.len() == 0,
        sc.guarded.len() == 0,
        sc.path == p.take(t + 1),
    ensures
        check::infer(
            prog,
            known,
            sc,
            ast::decl_val(check::decl_of(prog, p[t])->0)->0,
            fuel,
        ) is Err,
    decreases p.len() - t,
{
    let m = p[t + 1];
    let e = ast::decl_val(check::decl_of(prog, p[t])->0)->0;
    assert(depends_on(prog, p[t], m));
    assert(binds_names(sc, Seq::empty()));
    assert(check::known_type(known, p[t + 1]) is None);
    if check::infer(prog, known, sc, e, fuel) is Ok {
        lemma_demanded(prog, known, sc, e, fuel, Seq::empty(), m);
        if t + 1 == p.len() - 1 {
            assert(m == p[0]);
            assert(sc.path[0] == m);
            assert(sc.path.contains(m));
        } else {
            assert(depends_on(prog, p[t + 1], p[t + 2]));
            let v = ast::decl_val(check::decl_of(prog, m)->0)->0;
            let fuel2 = choose|fuel2: nat| #[trigger]
                check::infer(prog, known, check::demand_scene(sc, m), v, fuel2) is Ok;
            let next = check::demand_scene(sc, m);
            assert(next.path =~= p.take(t + 2));
            lemma_round_untyped(prog, known, p, t + 1, next, fuel2);
        }
    }
}

/// Whether no member that depends on itself was checked.
pub open spec fn no_cycle_known(prog: Seq<StmtV>, known: Known) -> bool {
    forall|m: Member| on_cycle(prog, m) ==> #[trigger] check::known_type(known, m) is None
}

/// A service that is accepted from declaration `j` on declares no member that depends on itself,
/// where none was declared before.
proof fn lemma_decls_acyclic(prog: Seq<StmtV>, known: Known, i: int, j: int)
    requires
        0 <= i < prog.len(),
        prog[i] is Service,
        0 <= j <= prog[i]->Service_decls.len(),
        check::check_decls(
            prog,
            known,
            prog[i]->Service_name,
            prog[i]->Service_decls,
            j,
        ) is Ok,
        no_cycle_known(prog, known),
        forall|m: Member| #[trigger]
            on_cycle(prog, m) ==> check::decl_of(prog, m) == check::member_from(prog, i, m),
        forall|m: Member|
            on_cycle(prog, m) && m.0 == prog[i]->Service_name ==> #[trigger] check::decl_from(
                prog[i]->Service_decls,
                0,
                m.1,
            ) == check::decl_from(prog[i]->Service_decls, j, m.1),
    ensures
        no_cycle_known(
            prog,
            check::check_decls(
                prog,
                known,
                prog[i]->Service_name,
                prog[i]->Service_decls,
                j,
            )->Ok_0,
        ),
        forall|m: Member|
            on_cycle(prog, m) && m.0 == prog[i]->Service_name ==> #[trigger] check::decl_from(
                prog[i]->Service_decls,
                0,
                m.1,
            ) is None,
    decreases prog[i]->Service_decls.len() - j,
{
    let svc = prog[i]->Service_name;
    let decls = prog[i]->Service_decls;
    if j < decls.len() {
        let d = decls[j];
        let m = (svc, ast::decl_name(d));
        let more = check::check_decl(prog, known, svc, d)->Ok_0;
        if on_cycle(prog, m) {
            let p = choose|p: Seq<Member>| #[trigger] is_round(prog, p, m);
            assert(check::decl_from(decls, 0, m.1) == check::decl_from(decls, j, m.1));
            assert(check::decl_of(prog, m) == Some(d));
            assert forall|k: int| 0 <= k < p.len() implies check::known_type(
                known,
                #[trigger] p[k],
            ) is None by {
                lemma_round(prog, p, m, k);
            }
            assert(depends_on(prog, p[0], p[1]));
            let sc = check::decl_scene(m);
            assert(sc.path =~= p.take(1));
            lemma_round_untyped(prog, known, p, 0, sc, check::inference_depth());
        }
        assert(no_cycle_known(prog, more)) by {
            assert(more.drop_last() =~= known);
            assert(more.last().0 == m);
            assert forall|n: Member| on_cycle(prog, n) implies #[trigger] check::known_type(
                more,
                n,
            ) is None by {
                assert(n != m);
                assert(check::known_type(known, n) is None);
            }
        }
        lemma_decls_acyclic(prog, more, i, j + 1);
    }
}

/// A program that is accepted from statement `i` on has no member that depends on itself, where
/// none was declared before.
proof fn lemma_prog_acyclic(prog: Seq<StmtV>, known: Known, i: int, m: Member)
    requires
        0 <= i <= prog.len(),
        check::check_from(prog, known, i) is Ok,
        no_cycle_known(prog, known),
        forall|n: Member| #[trigger]
            on_cycle(prog, n) ==> check::decl_of(prog, n) == check::member_from(prog, i, n),
    ensures
        !on_cycle(prog, m),
    decreases prog.len() - i,
{
    if i < prog.len() {
        match prog[i] {
            StmtV::Service { name, decls } => {
                lemma_decls_acyclic(prog, known, i, 0);
                let more = check::check_decls(prog, known, name, decls, 0)->Ok_0;
                assert forall|n: Member| #[trigger] on_cycle(prog, n) implies check::decl_of(
                    prog,
                    n,
                ) == check::member_from(prog, i + 1, n) by {
                    if n.0 == name {
                        assert(check::decl_from(decls, 0, n.1) is None);
                    }
                }
                lemma_prog_acyclic(prog, more, i + 1, m);
            },
            _ => {
                lemma_prog_acyclic(prog, known, i + 1, m);
            },
        }
    } else if on_cycle(prog, m) {
        let p = choose|p: Seq<Member>| #[trigger] is_round(prog, p, m);
        assert(depends_on(prog, p[0], p[1]));
    }
}

/// In an accepted program no member depends on itself: there is no cycle of members, of one
/// service or across services, each of which reads the next at once.
pub proof fn accepted_programs_have_no_cycles(prog: Seq<StmtV>, m: Member)
    requires
        check::checked(prog) is Ok,
    ensures
        !on_cycle(prog, m),
{
    lemma_prog_acyclic(prog, Seq::empty(), 0, m);
}

} // verus!
