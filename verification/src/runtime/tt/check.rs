//! Type checking with dependency tracking.
//!
//! Services and their members are checked in order. The type of an expression comes with the
//! members that evaluating it reads; what a function reads when it is called stands in its type.
//! A declaration is accepted only where all that it reads at once was checked before it. A member
//! that is referred to before its turn is inferred on demand, and a chain of such references that
//! comes back to its start is a dependency cycle.

use vstd::prelude::*;

use crate::runtime::ast;
use crate::runtime::ast::{
    ActionStmt, ActionStmtV, BinOp, Decl, DeclV, Expr, ExprV, Field, FieldV, HtmlPart, HtmlPartV,
    Stmt, StmtV, UnOp, Value, ValueV,
};
use crate::runtime::collections;
use crate::runtime::collections::{copy_members, has_member, insert_member, insert_members};
use crate::runtime::interner::Symbol;
use crate::runtime::limits::MAX_SCOPE_DEPTH;
use crate::runtime::tt::flow;
use crate::runtime::tt::flow::{
    annotate, clone_flow, erase, erase_all, latent_deps, latent_deps_all, Flow, FlowV,
};
use crate::runtime::tt::types;
use crate::runtime::tt::types::{same_type, same_type_list, Member, Param, ParamV, Type, TypeV};

verus! {

broadcast use {types::views_push, types::group_type_views};

/// Why a program is rejected.
#[derive(Debug, PartialEq, Eq)]
pub enum CheckError {
    DependencyCycle { service: Symbol, member: Symbol },
    UnboundVariable(Symbol),
    TypeMismatch { expected: Type, found: Type },
    CannotInferType,
    DepthLimitExceeded,
    InvalidTupleArity,
    NotAFunction,
    IllegalDependency { service: Symbol, member: Symbol },
}

/// What a `CheckError` stands for.
pub enum CheckErrorV {
    DependencyCycle { service: Symbol, member: Symbol },
    UnboundVariable(Symbol),
    TypeMismatch { expected: TypeV, found: TypeV },
    CannotInferType,
    DepthLimitExceeded,
    InvalidTupleArity,
    NotAFunction,
    IllegalDependency { service: Symbol, member: Symbol },
}

impl View for CheckError {
    type V = CheckErrorV;

    open spec fn view(&self) -> CheckErrorV {
        match *self {
            CheckError::DependencyCycle { service, member } => CheckErrorV::DependencyCycle {
                service,
                member,
            },
            CheckError::UnboundVariable(x) => CheckErrorV::UnboundVariable(x),
            CheckError::TypeMismatch { expected, found } => CheckErrorV::TypeMismatch {
                expected: expected@,
                found: found@,
            },
            CheckError::CannotInferType => CheckErrorV::CannotInferType,
            CheckError::DepthLimitExceeded => CheckErrorV::DepthLimitExceeded,
            CheckError::InvalidTupleArity => CheckErrorV::InvalidTupleArity,
            CheckError::NotAFunction => CheckErrorV::NotAFunction,
            CheckError::IllegalDependency { service, member } => CheckErrorV::IllegalDependency {
                service,
                member,
            },
        }
    }
}

/// The type of an expression and the members that evaluating it reads, or why it has none.
pub type Inferred = Result<(FlowV, Seq<Member>), CheckErrorV>;

/// The members checked so far and their types, in order.
pub type Known = Seq<(Member, FlowV)>;

/// Where an expression stands: its service, the local names around it, the members whose
/// evaluation is under way, and those whose functions or actions enclose it.
pub struct SceneV {
    pub svc: Symbol,
    pub locals: Seq<(Symbol, FlowV)>,
    pub path: Seq<Member>,
    pub guarded: Seq<Member>,
}

/// The type of a local name: its innermost binding.
pub open spec fn local_type(locals: Seq<(Symbol, FlowV)>, x: Symbol) -> Option<FlowV>
    decreases locals.len(),
{
    if locals.len() == 0 {
        None
    } else if locals.last().0 == x {
        Some(locals.last().1)
    } else {
        local_type(locals.drop_last(), x)
    }
}

/// The type of a checked member: its last declaration.
pub open spec fn known_type(known: Known, m: Member) -> Option<FlowV>
    decreases known.len(),
{
    if known.len() == 0 {
        None
    } else if known.last().0 == m {
        Some(known.last().1)
    } else {
        known_type(known.drop_last(), m)
    }
}

/// The first declaration of `x` from position `i` on.
pub open spec fn decl_from(decls: Seq<DeclV>, i: int, x: Symbol) -> Option<DeclV>
    decreases decls.len() - i,
{
    if i < 0 || i >= decls.len() {
        None
    } else if ast::decl_name(decls[i]) == x {
        Some(decls[i])
    } else {
        decl_from(decls, i + 1, x)
    }
}

/// The first declaration of a member in the services from statement `i` on.
pub open spec fn member_from(prog: Seq<StmtV>, i: int, m: Member) -> Option<DeclV>
    decreases prog.len() - i,
{
    if i < 0 || i >= prog.len() {
        None
    } else {
        match prog[i] {
            StmtV::Service { name, decls } => if name == m.0 && decl_from(decls, 0, m.1) is Some {
                decl_from(decls, 0, m.1)
            } else {
                member_from(prog, i + 1, m)
            },
            _ => member_from(prog, i + 1, m),
        }
    }
}

/// The declaration of a member.
pub open spec fn decl_of(prog: Seq<StmtV>, m: Member) -> Option<DeclV> {
    member_from(prog, 0, m)
}

/// What a reference to a member means.
pub enum RefV {
    /// It was checked before.
    Checked(FlowV),
    /// Its evaluation is under way.
    Cycle,
    /// It encloses the reference, and its type is declared.
    Declared(TypeV),
    /// It encloses the reference, and no type is declared.
    Untyped,
    /// There is no such member.
    Missing,
    /// It is to be inferred now.
    Demand(DeclV),
}

/// What a reference to a member means where it stands.
pub open spec fn reference(prog: Seq<StmtV>, known: Known, sc: SceneV, m: Member) -> RefV {
    match known_type(known, m) {
        Some(f) => RefV::Checked(f),
        None => if sc.path.contains(m) {
            RefV::Cycle
        } else {
            match decl_of(prog, m) {
                None => RefV::Missing,
                Some(d) => if !sc.guarded.contains(m) {
                    RefV::Demand(d)
                } else {
                    match ast::decl_ty(d) {
                        Some(t) => RefV::Declared(t),
                        None => RefV::Untyped,
                    }
                },
            }
        },
    }
}

/// The types of the columns of a table.
pub open spec fn column_flows(fields: Seq<FieldV>) -> Seq<FlowV>
    decreases fields.len(),
{
    if fields.len() == 0 {
        Seq::empty()
    } else {
        column_flows(fields.drop_last()).push(flow::annotated(fields.last().ty))
    }
}

/// The type of a table: a list of rows.
pub open spec fn table_flow(d: DeclV) -> FlowV {
    match d {
        DeclV::TableDecl { fields, .. } => FlowV::List(
            Box::new(FlowV::Tuple(column_flows(fields))),
        ),
        _ => FlowV::Unit,
    }
}

/// Where the expression of a member is inferred on demand.
pub open spec fn demand_scene(sc: SceneV, m: Member) -> SceneV {
    SceneV { svc: m.0, locals: Seq::empty(), path: sc.path.push(m), guarded: sc.guarded }
}

/// Where the body of a function or an action stands: nothing is evaluated yet.
pub open spec fn suspended(sc: SceneV, locals: Seq<(Symbol, FlowV)>) -> SceneV {
    SceneV {
        svc: sc.svc,
        locals,
        path: Seq::empty(),
        guarded: collections::merged(sc.guarded, sc.path),
    }
}

/// A result whose type is the declared one, where one is declared.
pub open spec fn conform(ty: Option<TypeV>, r: Inferred) -> Inferred {
    match (ty, r) {
        (Some(t), Ok((f, deps))) => if flow::erased(f) == t {
            r
        } else {
            Err(CheckErrorV::TypeMismatch { expected: t, found: flow::erased(f) })
        },
        _ => r,
    }
}

/// A member's type and reads, with the member itself among the reads.
pub open spec fn reading(r: Inferred, m: Member) -> Inferred {
    match r {
        Ok((f, deps)) => Ok((f, collections::with_member(deps, m))),
        Err(e) => Err(e),
    }
}

/// The meaning of a reference, given what inference on demand yields.
pub open spec fn resolved(r: RefV, m: Member, on_demand: Inferred) -> Inferred {
    match r {
        RefV::Checked(f) => Ok((f, Seq::empty())),
        RefV::Cycle => Err(CheckErrorV::DependencyCycle { service: m.0, member: m.1 }),
        RefV::Declared(t) => Ok((flow::annotated(t), Seq::empty())),
        RefV::Untyped => Err(CheckErrorV::CannotInferType),
        RefV::Missing => Err(CheckErrorV::UnboundVariable(m.1)),
        RefV::Demand(d) => conform(ast::decl_ty(d), on_demand),
    }
}

/// The parameters with their declared types, if all have one.
pub open spec fn param_flows(params: Seq<ParamV>) -> Option<Seq<(Symbol, FlowV)>>
    decreases params.len(),
{
    if params.len() == 0 {
        Some(Seq::empty())
    } else {
        match (param_flows(params.drop_last()), params.last().ty) {
            (Some(fs), Some(t)) => Some(fs.push((params.last().name, flow::annotated(t)))),
            _ => None,
        }
    }
}

/// The types of bindings.
pub open spec fn binding_types(bs: Seq<(Symbol, FlowV)>) -> Seq<FlowV> {
    bs.map_values(|b: (Symbol, FlowV)| b.1)
}

/// Local names with parameters bound to the types of arguments.
pub open spec fn bind_args(
    locals: Seq<(Symbol, FlowV)>,
    params: Seq<ParamV>,
    args: Seq<FlowV>,
) -> Seq<(Symbol, FlowV)> {
    locals + Seq::new(params.len(), |i: int| (params[i].name, args[i]))
}

/// What is called.
pub enum CalleeV {
    /// A function written in place.
    Inline(Seq<ParamV>, ExprV),
    /// A member declared as a function.
    Member(Member, Seq<ParamV>, ExprV),
    /// Something of which only the type is known.
    Opaque,
}

/// The member that an expression refers to.
pub open spec fn member_named(sc: SceneV, e: ExprV) -> Option<Member> {
    match e {
        ExprV::Variable { name } => if local_type(sc.locals, name) is None {
            Some((sc.svc, name))
        } else {
            None
        },
        ExprV::MemberAccess { service_name, member_name } => Some((service_name, member_name)),
        _ => None,
    }
}

/// What a call calls.
pub open spec fn callee(prog: Seq<StmtV>, sc: SceneV, func: ExprV) -> CalleeV {
    match func {
        ExprV::Func { params, body, .. } => CalleeV::Inline(params, *body),
        _ => match member_named(sc, func) {
            None => CalleeV::Opaque,
            Some(m) => if sc.guarded.contains(m) || sc.path.contains(m) {
                CalleeV::Opaque
            } else {
                match decl_of(prog, m) {
                    Some(d) => match ast::decl_val(d) {
                        Some(ExprV::Func { params, body, .. }) => CalleeV::Member(m, params, *body),
                        _ => CalleeV::Opaque,
                    },
                    None => CalleeV::Opaque,
                }
            },
        },
    }
}

/// The type of a literal.
pub open spec fn literal_flow(v: ValueV) -> Option<FlowV> {
    match v {
        ValueV::Int { .. } => Some(FlowV::Int),
        ValueV::Bool { .. } => Some(FlowV::Bool),
        ValueV::String { .. } => Some(FlowV::String),
        ValueV::Html(_) => Some(FlowV::Html),
        _ => None,
    }
}

/// The type that both operands of an operator have, where it is fixed.
pub open spec fn operand_type(op: BinOp) -> Option<TypeV> {
    match op {
        BinOp::Add | BinOp::Sub | BinOp::Mul | BinOp::Div | BinOp::Lt | BinOp::Gt => Some(
            TypeV::Int,
        ),
        BinOp::And | BinOp::Or => Some(TypeV::Bool),
        BinOp::Eq => None,
    }
}

/// The type of the result of an operator.
pub open spec fn result_flow(op: BinOp) -> FlowV {
    match op {
        BinOp::Add | BinOp::Sub | BinOp::Mul | BinOp::Div => FlowV::Int,
        _ => FlowV::Bool,
    }
}

/// Whether values of a type can be compared for equality.
pub open spec fn comparable(t: TypeV) -> bool {
    t == TypeV::Int || t == TypeV::Bool || t == TypeV::String
}

/// The first type from position `i` on that differs from `t`.
pub open spec fn first_unlike(fs: Seq<FlowV>, i: int, t: TypeV) -> Option<TypeV>
    decreases fs.len() - i,
{
    if i < 0 || i >= fs.len() {
        None
    } else if flow::erased(fs[i]) != t {
        Some(flow::erased(fs[i]))
    } else {
        first_unlike(fs, i + 1, t)
    }
}

/// The type of a list of items of these types, and what making it reads.
pub open spec fn list_of(fs: Seq<FlowV>, deps: Seq<Member>) -> Inferred {
    if fs.len() == 0 {
        Err(CheckErrorV::CannotInferType)
    } else {
        match first_unlike(fs, 0, flow::erased(fs[0])) {
            Some(found) => Err(
                CheckErrorV::TypeMismatch { expected: flow::erased(fs[0]), found },
            ),
            None => Ok(
                (
                    FlowV::List(Box::new(fs[0])),
                    collections::merged(deps, flow::latent_all(fs.skip(1))),
                ),
            ),
        }
    }
}

/// A call of something of which only the type is known: it may call whatever it is given.
pub open spec fn opaque_call(
    f: FlowV,
    fdeps: Seq<Member>,
    args: Seq<FlowV>,
    adeps: Seq<Member>,
) -> Inferred {
    match f {
        FlowV::Func { params, ret, deps } => if params.len() != args.len() {
            Err(CheckErrorV::InvalidTupleArity)
        } else if flow::erased_all(params) != flow::erased_all(args) {
            Err(
                CheckErrorV::TypeMismatch {
                    expected: TypeV::Tuple(flow::erased_all(params)),
                    found: TypeV::Tuple(flow::erased_all(args)),
                },
            )
        } else {
            Ok(
                (
                    *ret,
                    collections::merged(
                        collections::merged(collections::merged(adeps, fdeps), deps),
                        flow::latent_all(args),
                    ),
                ),
            )
        },
        _ => Err(CheckErrorV::NotAFunction),
    }
}

/// The type of an expression and what evaluating it reads. `fuel` bounds the number of members
/// inferred on demand and of function bodies entered one inside the other.
pub open spec fn infer(
    prog: Seq<StmtV>,
    known: Known,
    sc: SceneV,
    e: ExprV,
    fuel: nat,
) -> Inferred
    decreases fuel, e, 0int,
{
    match e {
        ExprV::Literal { val } => match literal_flow(val) {
            Some(f) => Ok((f, Seq::empty())),
            None => Err(CheckErrorV::CannotInferType),
        },
        ExprV::Variable { name } => match local_type(sc.locals, name) {
            Some(f) => Ok((f, Seq::empty())),
            None => {
                let m = (sc.svc, name);
                let r = reference(prog, known, sc, m);
                let on_demand = match r {
                    RefV::Demand(d) => match ast::decl_val(d) {
                        None => Ok((table_flow(d), Seq::empty())),
                        Some(v) => if fuel == 0 {
                            Err(CheckErrorV::DepthLimitExceeded)
                        } else {
                            infer(prog, known, demand_scene(sc, m), v, (fuel - 1) as nat)
                        },
                    },
                    _ => Err(CheckErrorV::CannotInferType),
                };
                reading(resolved(r, m, on_demand), m)
            },
        },
        ExprV::MemberAccess { service_name, member_name } => {
            let m = (service_name, member_name);
            let r = reference(prog, known, sc, m);
            let on_demand = match r {
                RefV::Demand(d) => match ast::decl_val(d) {
                    None => Ok((table_flow(d), Seq::empty())),
                    Some(v) => if fuel == 0 {
                        Err(CheckErrorV::DepthLimitExceeded)
                    } else {
                        infer(prog, known, demand_scene(sc, m), v, (fuel - 1) as nat)
                    },
                },
                _ => Err(CheckErrorV::CannotInferType),
            };
            resolved(r, m, on_demand)
        },
        ExprV::KeyVal { value, .. } => infer(prog, known, sc, *value, fuel),
        ExprV::Tuple { val } => match infer_all(
            prog,
            known,
            sc,
            val,
            0,
            Seq::empty(),
            Seq::empty(),
            fuel,
        ) {
            Err(e) => Err(e),
            Ok((fs, deps)) => Ok((FlowV::Tuple(fs), deps)),
        },
        ExprV::List(val) => match infer_all(
            prog,
            known,
            sc,
            val,
            0,
            Seq::empty(),
            Seq::empty(),
            fuel,
        ) {
            Err(e) => Err(e),
            Ok((fs, deps)) => list_of(fs, deps),
        },
        ExprV::Range { start, end } => match conform(
            Some(TypeV::Int),
            infer(prog, known, sc, *start, fuel),
        ) {
            Err(e) => Err(e),
            Ok((_, d1)) => match conform(Some(TypeV::Int), infer(prog, known, sc, *end, fuel)) {
                Err(e) => Err(e),
                Ok((_, d2)) => Ok(
                    (FlowV::List(Box::new(FlowV::Int)), collections::merged(d1, d2)),
                ),
            },
        },
        ExprV::Unop { op, expr } => match op {
            UnOp::Neg => conform(Some(TypeV::Int), infer(prog, known, sc, *expr, fuel)),
            UnOp::Not => conform(Some(TypeV::Bool), infer(prog, known, sc, *expr, fuel)),
        },
        ExprV::Binop { op, expr1, expr2 } => match conform(
            operand_type(op),
            infer(prog, known, sc, *expr1, fuel),
        ) {
            Err(e) => Err(e),
            Ok((f1, d1)) => if op == BinOp::Eq && !comparable(flow::erased(f1)) {
                Err(CheckErrorV::CannotInferType)
            } else {
                match conform(Some(flow::erased(f1)), infer(prog, known, sc, *expr2, fuel)) {
                    Err(e) => Err(e),
                    Ok((_, d2)) => Ok((result_flow(op), collections::merged(d1, d2))),
                }
            },
        },
        ExprV::If { cond, expr1, expr2 } => match conform(
            Some(TypeV::Bool),
            infer(prog, known, sc, *cond, fuel),
        ) {
            Err(e) => Err(e),
            Ok((_, d0)) => match infer(prog, known, sc, *expr1, fuel) {
                Err(e) => Err(e),
                Ok((f1, d1)) => match conform(
                    Some(flow::erased(f1)),
                    infer(prog, known, sc, *expr2, fuel),
                ) {
                    Err(e) => Err(e),
                    Ok((f2, d2)) => Ok(
                        (
                            f1,
                            collections::merged(
                                collections::merged(collections::merged(d0, d1), d2),
                                flow::latent(f2),
                            ),
                        ),
                    ),
                },
            },
        },
        ExprV::Func { params, body, return_ty } => match param_flows(params) {
            None => Err(CheckErrorV::CannotInferType),
            Some(bs) => match conform(
                return_ty,
                infer(prog, known, suspended(sc, sc.locals + bs), *body, fuel),
            ) {
                Err(e) => Err(e),
                Ok((ret, deps)) => Ok(
                    (
                        FlowV::Func { params: binding_types(bs), ret: Box::new(ret), deps },
                        Seq::empty(),
                    ),
                ),
            },
        },
        ExprV::Call { func, args } => match infer_all(
            prog,
            known,
            sc,
            args,
            0,
            Seq::empty(),
            Seq::empty(),
            fuel,
        ) {
            Err(e) => Err(e),
            Ok((fs, adeps)) => match callee(prog, sc, *func) {
                CalleeV::Inline(params, body) => if params.len() != fs.len() {
                    Err(CheckErrorV::InvalidTupleArity)
                } else if fuel == 0 {
                    Err(CheckErrorV::DepthLimitExceeded)
                } else {
                    match infer(
                        prog,
                        known,
                        SceneV { locals: bind_args(sc.locals, params, fs), ..sc },
                        body,
                        (fuel - 1) as nat,
                    ) {
                        Err(e) => Err(e),
                        Ok((f, deps)) => Ok((f, collections::merged(adeps, deps))),
                    }
                },
                CalleeV::Member(m, params, body) => match infer(prog, known, sc, *func, fuel) {
                    Err(e) => Err(e),
                    Ok((_, fdeps)) => if params.len() != fs.len() {
                        Err(CheckErrorV::InvalidTupleArity)
                    } else if fuel == 0 {
                        Err(CheckErrorV::DepthLimitExceeded)
                    } else {
                        match infer(
                            prog,
                            known,
                            SceneV {
                                svc: m.0,
                                locals: bind_args(Seq::empty(), params, fs),
                                path: sc.path,
                                guarded: sc.guarded.push(m),
                            },
                            body,
                            (fuel - 1) as nat,
                        ) {
                            Err(e) => Err(e),
                            Ok((f, deps)) => Ok(
                                (f, collections::merged(collections::merged(adeps, fdeps), deps)),
                            ),
                        }
                    },
                },
                CalleeV::Opaque => match infer(prog, known, sc, *func, fuel) {
                    Err(e) => Err(e),
                    Ok((f, fdeps)) => opaque_call(f, fdeps, fs, adeps),
                },
            },
        },
        ExprV::Action(stmts) => match check_block(
            prog,
            known,
            suspended(sc, sc.locals),
            stmts,
            0,
            fuel,
        ) {
            Err(e) => Err(e),
            Ok(_) => Ok((FlowV::Action, Seq::empty())),
        },
        ExprV::Html(parts) => match infer_parts(prog, known, sc, parts, 0, Seq::empty(), fuel) {
            Err(e) => Err(e),
            Ok(deps) => Ok((FlowV::Html, deps)),
        },
        ExprV::Select { .. } | ExprV::Fold { .. } | ExprV::Table { .. } => Err(
            CheckErrorV::CannotInferType,
        ),
    }
}

/// The types of expressions from position `i` on, behind those found before, and what evaluating
/// all of them reads.
pub open spec fn infer_all(
    prog: Seq<StmtV>,
    known: Known,
    sc: SceneV,
    es: Seq<ExprV>,
    i: int,
    found: Seq<FlowV>,
    deps: Seq<Member>,
    fuel: nat,
) -> Result<(Seq<FlowV>, Seq<Member>), CheckErrorV>
    decreases fuel, es, es.len() - i,
{
    if i < 0 || i >= es.len() {
        Ok((found, deps))
    } else {
        match infer(prog, known, sc, es[i], fuel) {
            Err(e) => Err(e),
            Ok((f, d)) => infer_all(
                prog,
                known,
                sc,
                es,
                i + 1,
                found.push(f),
                collections::merged(deps, d),
                fuel,
            ),
        }
    }
}

/// What evaluating the pieces of a template from position `i` on reads.
pub open spec fn infer_parts(
    prog: Seq<StmtV>,
    known: Known,
    sc: SceneV,
    parts: Seq<HtmlPartV>,
    i: int,
    deps: Seq<Member>,
    fuel: nat,
) -> Result<Seq<Member>, CheckErrorV>
    decreases fuel, parts, parts.len() - i,
{
    if i < 0 || i >= parts.len() {
        Ok(deps)
    } else {
        match parts[i] {
            HtmlPartV::Text(_) => infer_parts(prog, known, sc, parts, i + 1, deps, fuel),
            HtmlPartV::Expr(e) => match infer(prog, known, sc, e, fuel) {
                Err(e) => Err(e),
                Ok((_, d)) => infer_parts(
                    prog,
                    known,
                    sc,
                    parts,
                    i + 1,
                    collections::merged(deps, d),
                    fuel,
                ),
            },
        }
    }
}

/// The type that an assignment to a name must have, where it is known.
pub open spec fn target_type(prog: Seq<StmtV>, known: Known, sc: SceneV, x: Symbol) -> Option<
    TypeV,
> {
    match local_type(sc.locals, x) {
        Some(f) => Some(flow::erased(f)),
        None => match known_type(known, (sc.svc, x)) {
            Some(f) => Some(flow::erased(f)),
            None => match decl_of(prog, (sc.svc, x)) {
                Some(d) => ast::decl_ty(d),
                None => None,
            },
        },
    }
}

/// The local names behind a block, given those before statement `i`.
pub open spec fn check_block(
    prog: Seq<StmtV>,
    known: Known,
    sc: SceneV,
    stmts: Seq<ActionStmtV>,
    i: int,
    fuel: nat,
) -> Result<Seq<(Symbol, FlowV)>, CheckErrorV>
    decreases fuel, stmts, stmts.len() - i,
{
    if i < 0 || i >= stmts.len() {
        Ok(sc.locals)
    } else {
        match check_stmt(prog, known, sc, stmts[i], fuel) {
            Err(e) => Err(e),
            Ok(locals) => check_block(prog, known, SceneV { locals, ..sc }, stmts, i + 1, fuel),
        }
    }
}

/// The local names behind a statement.
pub open spec fn check_stmt(
    prog: Seq<StmtV>,
    known: Known,
    sc: SceneV,
    s: ActionStmtV,
    fuel: nat,
) -> Result<Seq<(Symbol, FlowV)>, CheckErrorV>
    decreases fuel, s, 0int,
{
    match s {
        ActionStmtV::Let { name, ty, expr } => match conform(
            ty,
            infer(prog, known, sc, expr, fuel),
        ) {
            Err(e) => Err(e),
            Ok((f, _)) => Ok(sc.locals.push((name, f))),
        },
        ActionStmtV::Assign { name, expr } => match conform(
            target_type(prog, known, sc, name),
            infer(prog, known, sc, expr, fuel),
        ) {
            Err(e) => Err(e),
            Ok(_) => Ok(sc.locals),
        },
        ActionStmtV::Do(expr) => match conform(
            Some(TypeV::Action),
            infer(prog, known, sc, expr, fuel),
        ) {
            Err(e) => Err(e),
            Ok(_) => Ok(sc.locals),
        },
        ActionStmtV::Assert(expr, _) => match conform(
            Some(TypeV::Bool),
            infer(prog, known, sc, expr, fuel),
        ) {
            Err(e) => Err(e),
            Ok(_) => Ok(sc.locals),
        },
        ActionStmtV::Expr(expr) => match infer(prog, known, sc, expr, fuel) {
            Err(e) => Err(e),
            Ok(_) => Ok(sc.locals),
        },
        ActionStmtV::Insert { row, .. } => match infer(prog, known, sc, row, fuel) {
            Err(e) => Err(e),
            Ok(_) => Ok(sc.locals),
        },
        ActionStmtV::For { var, iterable, body } => match infer(prog, known, sc, iterable, fuel) {
            Err(e) => Err(e),
            Ok((f, _)) => match f {
                FlowV::List(item) => match check_block(
                    prog,
                    known,
                    SceneV { locals: sc.locals.push((var, *item)), ..sc },
                    body,
                    0,
                    fuel,
                ) {
                    Err(e) => Err(e),
                    Ok(_) => Ok(sc.locals),
                },
                _ => Err(CheckErrorV::CannotInferType),
            },
        },
    }
}

/// How many members are inferred on demand, and function bodies entered, one inside the other.
pub open spec fn inference_depth() -> nat {
    MAX_SCOPE_DEPTH as nat
}

/// Where the expression of a declaration stands.
pub open spec fn decl_scene(m: Member) -> SceneV {
    SceneV { svc: m.0, locals: Seq::empty(), path: seq![m], guarded: Seq::empty() }
}

/// The first member from position `i` on that was not checked.
pub open spec fn first_unchecked(known: Known, deps: Seq<Member>, i: int) -> Option<Member>
    decreases deps.len() - i,
{
    if i < 0 || i >= deps.len() {
        None
    } else if known_type(known, deps[i]) is None {
        Some(deps[i])
    } else {
        first_unchecked(known, deps, i + 1)
    }
}

/// What is known behind a declaration of a service, or why it is rejected.
pub open spec fn check_decl(prog: Seq<StmtV>, known: Known, svc: Symbol, d: DeclV) -> Result<
    Known,
    CheckErrorV,
> {
    let m = (svc, ast::decl_name(d));
    match ast::decl_val(d) {
        None => Ok(known.push((m, table_flow(d)))),
        Some(e) => match conform(
            ast::decl_ty(d),
            infer(prog, known, decl_scene(m), e, inference_depth()),
        ) {
            Err(e) => Err(e),
            Ok((f, deps)) => match first_unchecked(known, deps, 0) {
                Some(x) => Err(CheckErrorV::IllegalDependency { service: x.0, member: x.1 }),
                None => Ok(known.push((m, f))),
            },
        },
    }
}

/// What is known behind the declarations of a service from position `i` on.
pub open spec fn check_decls(
    prog: Seq<StmtV>,
    known: Known,
    svc: Symbol,
    decls: Seq<DeclV>,
    i: int,
) -> Result<Known, CheckErrorV>
    decreases decls.len() - i,
{
    if i < 0 || i >= decls.len() {
        Ok(known)
    } else {
        match check_decl(prog, known, svc, decls[i]) {
            Err(e) => Err(e),
            Ok(more) => check_decls(prog, more, svc, decls, i + 1),
        }
    }
}

/// What is known behind the statements of a program from position `i` on.
pub open spec fn check_from(prog: Seq<StmtV>, known: Known, i: int) -> Result<Known, CheckErrorV>
    decreases prog.len() - i,
{
    if i < 0 || i >= prog.len() {
        Ok(known)
    } else {
        match prog[i] {
            StmtV::Service { name, decls } => match check_decls(prog, known, name, decls, 0) {
                Err(e) => Err(e),
                Ok(more) => check_from(prog, more, i + 1),
            },
            _ => check_from(prog, known, i + 1),
        }
    }
}

/// The types of all members of a program in order, or why it is rejected.
pub open spec fn checked(prog: Seq<StmtV>) -> Result<Known, CheckErrorV> {
    check_from(prog, Seq::empty(), 0)
}

/// Local names and their types, by their views.
pub open spec fn bindings_view(bs: Seq<(Symbol, Flow)>) -> Seq<(Symbol, FlowV)> {
    bs.map_values(|b: (Symbol, Flow)| (b.0, b.1@))
}

/// Members and their types, by their views.
pub open spec fn known_view(known: Seq<(Member, Flow)>) -> Known {
    known.map_values(|b: (Member, Flow)| (b.0, b.1@))
}

/// Where an expression stands.
pub struct Scene {
    pub svc: Symbol,
    pub locals: Vec<(Symbol, Flow)>,
    pub path: Vec<Member>,
    pub guarded: Vec<Member>,
}

impl View for Scene {
    type V = SceneV;

    open spec fn view(&self) -> SceneV {
        SceneV {
            svc: self.svc,
            locals: bindings_view(self.locals@),
            path: self.path@,
            guarded: self.guarded@,
        }
    }
}

/// Whether a computed result is the inferred one.
pub open spec fn typed(res: Result<(Flow, Vec<Member>), CheckError>, spec: Inferred) -> bool {
    match res {
        Ok((f, deps)) => spec == Ok::<(FlowV, Seq<Member>), CheckErrorV>((f@, deps@)),
        Err(e) => spec == Err::<(FlowV, Seq<Member>), CheckErrorV>(e@),
    }
}

fn copy_bindings(bs: &Vec<(Symbol, Flow)>) -> (res: Vec<(Symbol, Flow)>)
    ensures
        bindings_view(res@) == bindings_view(bs@),
{
    let mut res: Vec<(Symbol, Flow)> = Vec::new();
    let mut i: usize = 0;
    while i < bs.len()
        invariant
            i <= bs@.len(),
            res@.len() == i,
            forall|k: int|
                0 <= k < i ==> (#[trigger] res@[k]).0 == bs@[k].0 && res@[k].1@ == bs@[k].1@,
        decreases bs@.len() - i,
    {
        res.push((bs[i].0, clone_flow(&bs[i].1)));
        i += 1;
    }
    assert(bindings_view(res@) =~= bindings_view(bs@));
    res
}

fn find_local(locals: &Vec<(Symbol, Flow)>, x: Symbol) -> (res: Option<&Flow>)
    ensures
        match res {
            Some(f) => local_type(bindings_view(locals@), x) == Some(f@),
            None => local_type(bindings_view(locals@), x) is None,
        },
{
    let ghost bs = bindings_view(locals@);
    let mut i: usize = locals.len();
    assert(bs.take(i as int) =~= bs);
    while i > 0
        invariant
            i <= locals@.len(),
            bs == bindings_view(locals@),
            local_type(bs, x) == local_type(bs.take(i as int), x),
        decreases i,
    {
        assert(bs.take(i as int).last() == bs[i - 1]);
        assert(bs.take(i as int).drop_last() =~= bs.take(i - 1));
        if locals[i - 1].0 == x {
            return Some(&locals[i - 1].1);
        }
        i -= 1;
    }
    None
}

fn find_known(known: &Vec<(Member, Flow)>, m: Member) -> (res: Option<&Flow>)
    ensures
        match res {
            Some(f) => known_type(known_view(known@), m) == Some(f@),
            None => known_type(known_view(known@), m) is None,
        },
{
    let ghost ks = known_view(known@);
    let mut i: usize = known.len();
    assert(ks.take(i as int) =~= ks);
    while i > 0
        invariant
            i <= known@.len(),
            ks == known_view(known@),
            known_type(ks, m) == known_type(ks.take(i as int), m),
        decreases i,
    {
        assert(ks.take(i as int).last() == ks[i - 1]);
        assert(ks.take(i as int).drop_last() =~= ks.take(i - 1));
        let at = known[i - 1].0;
        if at.0 == m.0 && at.1 == m.1 {
            return Some(&known[i - 1].1);
        }
        i -= 1;
    }
    None
}

/// The name that a declaration introduces.
pub fn name_of_decl(d: &Decl) -> (res: Symbol)
    ensures
        res == ast::decl_name(d@),
{
    match d {
        Decl::VarDecl { name, .. } => *name,
        Decl::DefDecl { name, .. } => *name,
        Decl::TableDecl { name, .. } => *name,
    }
}

/// The expression of a variable or a definition.
pub fn value_of_decl(d: &Decl) -> (res: Option<&Expr>)
    ensures
        match res {
            Some(e) => ast::decl_val(d@) == Some(e@),
            None => ast::decl_val(d@) is None,
        },
{
    match d {
        Decl::VarDecl { val, .. } => Some(val),
        Decl::DefDecl { val, .. } => Some(val),
        Decl::TableDecl { .. } => None,
    }
}

/// The declared type of a variable or a definition.
pub fn type_of_decl(d: &Decl) -> (res: Option<&Type>)
    ensures
        match res {
            Some(t) => ast::decl_ty(d@) == Some(t@),
            None => ast::decl_ty(d@) is None,
        },
{
    match d {
        Decl::VarDecl { ty: Some(t), .. } => Some(t),
        Decl::DefDecl { ty: Some(t), .. } => Some(t),
        _ => None,
    }
}

fn find_decl(decls: &Vec<Decl>, x: Symbol) -> (res: Option<&Decl>)
    ensures
        match res {
            Some(d) => decl_from(types::views(decls@), 0, x) == Some(d@),
            None => decl_from(types::views(decls@), 0, x) is None,
        },
{
    let ghost ds = types::views(decls@);
    let mut i: usize = 0;
    while i < decls.len()
        invariant
            i <= decls@.len(),
            ds == types::views(decls@),
            decl_from(ds, 0, x) == decl_from(ds, i as int, x),
        decreases decls@.len() - i,
    {
        assert(ds[i as int] == decls@[i as int]@);
        if name_of_decl(&decls[i]) == x {
            return Some(&decls[i]);
        }
        i += 1;
    }
    None
}

fn find_member(prog: &[Stmt], m: Member) -> (res: Option<&Decl>)
    ensures
        match res {
            Some(d) => decl_of(types::views(prog@), m) == Some(d@),
            None => decl_of(types::views(prog@), m) is None,
        },
{
    let ghost ps = types::views(prog@);
    let mut i: usize = 0;
    while i < prog.len()
        invariant
            i <= prog@.len(),
            ps == types::views(prog@),
            decl_of(ps, m) == member_from(ps, i as int, m),
        decreases prog@.len() - i,
    {
        assert(ps[i as int] == prog@[i as int]@);
        proof {
            ast::lemma_stmt_view(prog@[i as int]);
        }
        if let Stmt::Service { name, decls } = &prog[i] {
            if *name == m.0 {
                if let Some(d) = find_decl(decls, m.1) {
                    return Some(d);
                }
            }
        }
        i += 1;
    }
    None
}

fn table_type(fields: &Vec<Field>) -> (res: Flow)
    ensures
        res@ == FlowV::List(Box::new(FlowV::Tuple(column_flows(types::views(fields@))))),
{
    let ghost fs = types::views(fields@);
    let mut cols: Vec<Flow> = Vec::new();
    assert(types::views(cols@) =~= column_flows(fs.take(0)));
    let mut i: usize = 0;
    while i < fields.len()
        invariant
            i <= fields@.len(),
            fs == types::views(fields@),
            types::views(cols@) == column_flows(fs.take(i as int)),
        decreases fields@.len() - i,
    {
        assert(fs.take(i + 1).drop_last() =~= fs.take(i as int));
        assert(fs.take(i + 1).last() == fields@[i as int]@);
        cols.push(annotate(&fields[i].ty));
        i += 1;
    }
    assert(fs.take(i as int) =~= fs);
    let row = Flow::Tuple(cols);
    proof {
        flow::lemma_flow_view(row);
    }
    let res = Flow::List(Box::new(row));
    proof {
        flow::lemma_flow_view(res);
    }
    res
}

fn mismatch(expected: Type, found: Type) -> (res: CheckError)
    ensures
        res@ == (CheckErrorV::TypeMismatch { expected: expected@, found: found@ }),
{
    CheckError::TypeMismatch { expected, found }
}

/// A result whose type is the declared one, where one is declared.
fn conforming(ty: Option<&Type>, r: Result<(Flow, Vec<Member>), CheckError>) -> (res: Result<
    (Flow, Vec<Member>),
    CheckError,
>)
    ensures
        forall|spec: Inferred| #[trigger]
            typed(r, spec) ==> typed(
                res,
                conform(
                    match ty {
                        Some(t) => Some(t@),
                        None => None,
                    },
                    spec,
                ),
            ),
{
    match r {
        Err(e) => Err(e),
        Ok((f, deps)) => match ty {
            None => Ok((f, deps)),
            Some(t) => {
                let found = erase(&f);
                if same_type(&found, t) {
                    Ok((f, deps))
                } else {
                    Err(mismatch(t.clone(), found))
                }
            },
        },
    }
}

fn param_bindings(params: &Vec<Param>) -> (res: Option<Vec<(Symbol, Flow)>>)
    ensures
        match res {
            Some(bs) => param_flows(types::views(params@)) == Some(bindings_view(bs@)),
            None => param_flows(types::views(params@)) is None,
        },
{
    let ghost ps = types::views(params@);
    let mut bs: Vec<(Symbol, Flow)> = Vec::new();
    assert(bindings_view(bs@) =~= Seq::<(Symbol, FlowV)>::empty());
    let mut i: usize = 0;
    while i < params.len()
        invariant
            i <= params@.len(),
            ps == types::views(params@),
            param_flows(ps.take(i as int)) == Some(bindings_view(bs@)),
        decreases params@.len() - i,
    {
        assert(ps.take(i + 1).drop_last() =~= ps.take(i as int));
        assert(ps.take(i + 1).last() == params@[i as int]@);
        match &params[i].ty {
            None => {
                proof {
                    lemma_param_flows_none(ps, i + 1);
                }
                return None;
            },
            Some(t) => {
                let ghost before = bs@;
                bs.push((params[i].name, annotate(t)));
                assert(bindings_view(bs@) =~= bindings_view(before).push(
                    (params@[i as int].name, flow::annotated(t@)),
                ));
            },
        }
        i += 1;
    }
    assert(ps.take(i as int) =~= ps);
    Some(bs)
}

proof fn lemma_param_flows_none(ps: Seq<ParamV>, i: int)
    requires
        0 <= i <= ps.len(),
        param_flows(ps.take(i)) is None,
    ensures
        param_flows(ps) is None,
    decreases ps.len() - i,
{
    if i == ps.len() {
        assert(ps.take(i) =~= ps);
    } else {
        assert(ps.take(i + 1).drop_last() =~= ps.take(i));
        lemma_param_flows_none(ps, i + 1);
    }
}

fn flows_of(bs: &Vec<(Symbol, Flow)>) -> (res: Vec<Flow>)
    ensures
        types::views(res@) == binding_types(bindings_view(bs@)),
{
    let mut res: Vec<Flow> = Vec::new();
    let mut i: usize = 0;
    while i < bs.len()
        invariant
            i <= bs@.len(),
            res@.len() == i,
            forall|k: int| 0 <= k < i ==> (#[trigger] res@[k])@ == bs@[k].1@,
        decreases bs@.len() - i,
    {
        res.push(clone_flow(&bs[i].1));
        i += 1;
    }
    assert(types::views(res@) =~= binding_types(bindings_view(bs@)));
    res
}

fn extended(locals: &Vec<(Symbol, Flow)>, more: &Vec<(Symbol, Flow)>) -> (res: Vec<(Symbol, Flow)>)
    ensures
        bindings_view(res@) == bindings_view(locals@) + bindings_view(more@),
{
    let mut res = copy_bindings(locals);
    let mut tail = copy_bindings(more);
    let ghost a = res@;
    let ghost b = tail@;
    res.append(&mut tail);
    assert(bindings_view(a + b) =~= bindings_view(a) + bindings_view(b));
    res
}

fn with_args(locals: &Vec<(Symbol, Flow)>, params: &Vec<Param>, args: &Vec<Flow>) -> (res: Vec<
    (Symbol, Flow),
>)
    requires
        params@.len() == args@.len(),
    ensures
        bindings_view(res@) == bind_args(
            bindings_view(locals@),
            types::views(params@),
            types::views(args@),
        ),
{
    let mut res = copy_bindings(locals);
    let ghost start = res@;
    let mut i: usize = 0;
    while i < params.len()
        invariant
            i <= params@.len(),
            params@.len() == args@.len(),
            res@.len() == start.len() + i,
            forall|k: int| 0 <= k < start.len() ==> #[trigger] res@[k] == start[k],
            forall|k: int|
                start.len() <= k < start.len() + i ==> (#[trigger] res@[k]).0 == params@[k
                    - start.len()].name && res@[k].1@ == args@[k - start.len()]@,
        decreases params@.len() - i,
    {
        res.push((params[i].name, clone_flow(&args[i])));
        i += 1;
    }
    assert(bindings_view(res@) =~= bind_args(
        bindings_view(start),
        types::views(params@),
        types::views(args@),
    ));
    res
}

fn suspend(sc: &Scene, locals: Vec<(Symbol, Flow)>) -> (res: Scene)
    ensures
        res@ == suspended(sc@, bindings_view(locals@)),
{
    let mut guarded = copy_members(&sc.guarded);
    insert_members(&mut guarded, &sc.path);
    let path: Vec<Member> = Vec::new();
    assert(path@ =~= Seq::<Member>::empty());
    Scene { svc: sc.svc, locals, path, guarded }
}

fn demand(sc: &Scene, m: Member) -> (res: Scene)
    ensures
        res@ == demand_scene(sc@, m),
{
    let mut path = copy_members(&sc.path);
    path.push(m);
    let locals: Vec<(Symbol, Flow)> = Vec::new();
    assert(bindings_view(locals@) =~= Seq::<(Symbol, FlowV)>::empty());
    Scene { svc: m.0, locals, path, guarded: copy_members(&sc.guarded) }
}

fn unlike(fs: &Vec<Flow>, t: &Type) -> (res: Option<Type>)
    ensures
        types::opt_view(res) == first_unlike(types::views(fs@), 0, t@),
{
    let ghost vs = types::views(fs@);
    let mut i: usize = 0;
    while i < fs.len()
        invariant
            i <= fs@.len(),
            vs == types::views(fs@),
            first_unlike(vs, 0, t@) == first_unlike(vs, i as int, t@),
        decreases fs@.len() - i,
    {
        assert(vs[i as int] == fs@[i as int]@);
        let found = erase(&fs[i]);
        if !same_type(&found, t) {
            return Some(found);
        }
        i += 1;
    }
    None
}

fn list_type(fs: Vec<Flow>, deps: Vec<Member>) -> (res: Result<(Flow, Vec<Member>), CheckError>)
    ensures
        typed(res, list_of(types::views(fs@), deps@)),
{
    let ghost vs = types::views(fs@);
    if fs.len() == 0 {
        return Err(CheckError::CannotInferType);
    }
    let first = erase(&fs[0]);
    match unlike(&fs, &first) {
        Some(found) => Err(mismatch(first, found)),
        None => {
            let mut rest = fs;
            let item = rest.remove(0);
            assert(types::views(rest@) =~= vs.skip(1));
            let mut reads = deps;
            insert_members(&mut reads, &latent_deps_all(&rest));
            let res = Flow::List(Box::new(item));
            proof {
                flow::lemma_flow_view(res);
            }
            Ok((res, reads))
        },
    }
}

fn call_opaque(f: Flow, fdeps: Vec<Member>, args: Vec<Flow>, adeps: Vec<Member>) -> (res: Result<
    (Flow, Vec<Member>),
    CheckError,
>)
    ensures
        typed(res, opaque_call(f@, fdeps@, types::views(args@), adeps@)),
{
    proof {
        flow::lemma_flow_view(f);
    }
    match f {
        Flow::Func { params, ret, deps } => {
            if params.len() != args.len() {
                return Err(CheckError::InvalidTupleArity);
            }
            let expected = erase_all(&params);
            let found = erase_all(&args);
            if !same_type_list(&expected, &found) {
                return Err(mismatch(Type::Tuple(expected), Type::Tuple(found)));
            }
            let mut reads = adeps;
            insert_members(&mut reads, &fdeps);
            insert_members(&mut reads, &deps);
            insert_members(&mut reads, &latent_deps_all(&args));
            Ok((*ret, reads))
        },
        _ => Err(CheckError::NotAFunction),
    }
}

fn operand(op: BinOp) -> (res: Option<Type>)
    ensures
        types::opt_view(res) == operand_type(op),
{
    match op {
        BinOp::Add | BinOp::Sub | BinOp::Mul | BinOp::Div | BinOp::Lt | BinOp::Gt => Some(
            Type::Int,
        ),
        BinOp::And | BinOp::Or => Some(Type::Bool),
        BinOp::Eq => None,
    }
}

fn literal_type(v: &Value) -> (res: Option<Flow>)
    ensures
        types::opt_view(res) == literal_flow(v@),
{
    proof {
        ast::lemma_value_view(*v);
        flow::lemma_flow_view(Flow::Int);
        flow::lemma_flow_view(Flow::Bool);
        flow::lemma_flow_view(Flow::String);
        flow::lemma_flow_view(Flow::Html);
    }
    match v {
        Value::Int { .. } => Some(Flow::Int),
        Value::Bool { .. } => Some(Flow::Bool),
        Value::String { .. } => Some(Flow::String),
        Value::Html(_) => Some(Flow::Html),
        _ => None,
    }
}

/// What a reference to a member means.
enum Ref<'a> {
    Checked(&'a Flow),
    Cycle,
    Declared(&'a Type),
    Untyped,
    Missing,
    Demand(&'a Decl),
}

impl<'a> Ref<'a> {
    spec fn is(self, r: RefV) -> bool {
        match self {
            Ref::Checked(f) => r == RefV::Checked(f@),
            Ref::Cycle => r == RefV::Cycle,
            Ref::Declared(t) => r == RefV::Declared(t@),
            Ref::Untyped => r == RefV::Untyped,
            Ref::Missing => r == RefV::Missing,
            Ref::Demand(d) => r == RefV::Demand(d@),
        }
    }
}

fn classify<'a>(
    prog: &'a [Stmt],
    known: &'a Vec<(Member, Flow)>,
    sc: &Scene,
    m: Member,
) -> (res: Ref<'a>)
    ensures
        res.is(reference(types::views(prog@), known_view(known@), sc@, m)),
{
    if let Some(f) = find_known(known, m) {
        return Ref::Checked(f);
    }
    if has_member(&sc.path, m) {
        return Ref::Cycle;
    }
    match find_member(prog, m) {
        None => Ref::Missing,
        Some(d) => {
            if !has_member(&sc.guarded, m) {
                Ref::Demand(d)
            } else {
                match type_of_decl(d) {
                    Some(t) => Ref::Declared(t),
                    None => Ref::Untyped,
                }
            }
        },
    }
}

/// What inference on demand yields for a reference.
spec fn on_demand(
    prog: Seq<StmtV>,
    known: Known,
    sc: SceneV,
    m: Member,
    fuel: nat,
) -> Inferred {
    match reference(prog, known, sc, m) {
        RefV::Demand(d) => match ast::decl_val(d) {
            None => Ok((table_flow(d), Seq::empty())),
            Some(v) => if fuel == 0 {
                Err(CheckErrorV::DepthLimitExceeded)
            } else {
                infer(prog, known, demand_scene(sc, m), v, (fuel - 1) as nat)
            },
        },
        _ => Err(CheckErrorV::CannotInferType),
    }
}

fn nothing_read() -> (res: Vec<Member>)
    ensures
        res@ == Seq::<Member>::empty(),
{
    let res: Vec<Member> = Vec::new();
    assert(res@ =~= Seq::<Member>::empty());
    res
}

/// The type of the member that the expression `_at` refers to, and what inferring it reads.
fn infer_reference(
    prog: &[Stmt],
    known: &Vec<(Member, Flow)>,
    sc: &Scene,
    m: Member,
    _at: &Expr,
    fuel: usize,
) -> (res: Result<(Flow, Vec<Member>), CheckError>)
    ensures
        typed(
            res,
            resolved(
                reference(types::views(prog@), known_view(known@), sc@, m),
                m,
                on_demand(types::views(prog@), known_view(known@), sc@, m, fuel as nat),
            ),
        ),
    decreases fuel, *_at, 0int,
{
    match classify(prog, known, sc, m) {
        Ref::Checked(f) => Ok((clone_flow(f), nothing_read())),
        Ref::Cycle => Err(CheckError::DependencyCycle { service: m.0, member: m.1 }),
        Ref::Declared(t) => Ok((annotate(t), nothing_read())),
        Ref::Untyped => Err(CheckError::CannotInferType),
        Ref::Missing => Err(CheckError::UnboundVariable(m.1)),
        Ref::Demand(d) => {
            let r = match d {
                Decl::TableDecl { fields, .. } => Ok((table_type(fields), nothing_read())),
                Decl::VarDecl { val, .. } | Decl::DefDecl { val, .. } => {
                    if fuel == 0 {
                        Err(CheckError::DepthLimitExceeded)
                    } else {
                        infer_expr(prog, known, &demand(sc, m), val, fuel - 1)
                    }
                },
            };
            assert(typed(
                r,
                on_demand(types::views(prog@), known_view(known@), sc@, m, fuel as nat),
            ));
            conforming(type_of_decl(d), r)
        },
    }
}

/// The type of an expression and what evaluating it reads.
#[verifier::rlimit(60)]
pub fn infer_expr(
    prog: &[Stmt],
    known: &Vec<(Member, Flow)>,
    sc: &Scene,
    e: &Expr,
    fuel: usize,
) -> (res: Result<(Flow, Vec<Member>), CheckError>)
    ensures
        typed(res, infer(types::views(prog@), known_view(known@), sc@, e@, fuel as nat)),
    decreases fuel, *e, 1int,
{
    proof {
        ast::lemma_expr_view(*e);
    }
    match e {
        Expr::Literal { val } => match literal_type(val) {
            Some(f) => Ok((f, nothing_read())),
            None => Err(CheckError::CannotInferType),
        },
        Expr::Variable { name } => {
            if let Some(f) = find_local(&sc.locals, *name) {
                return Ok((clone_flow(f), nothing_read()));
            }
            let m = (sc.svc, *name);
            match infer_reference(prog, known, sc, m, e, fuel) {
                Err(err) => Err(err),
                Ok((f, deps)) => {
                    let mut reads = deps;
                    insert_member(&mut reads, m);
                    Ok((f, reads))
                },
            }
        },
        Expr::MemberAccess { service_name, member_name } => infer_reference(
            prog,
            known,
            sc,
            (*service_name, *member_name),
            e,
            fuel,
        ),
        Expr::KeyVal { value, .. } => infer_expr(prog, known, sc, value, fuel),
        Expr::Tuple { val } => match infer_exprs(prog, known, sc, val, fuel) {
            Err(err) => Err(err),
            Ok((fs, deps)) => {
                let res = Flow::Tuple(fs);
                proof {
                    flow::lemma_flow_view(res);
                }
                Ok((res, deps))
            },
        },
        Expr::List(val) => match infer_exprs(prog, known, sc, val, fuel) {
            Err(err) => Err(err),
            Ok((fs, deps)) => list_type(fs, deps),
        },
        Expr::Range { .. } => infer_range(prog, known, sc, e, fuel),
        Expr::Unop { op, expr } => {
            let r = infer_expr(prog, known, sc, expr, fuel);
            match op {
                UnOp::Neg => conforming(Some(&Type::Int), r),
                UnOp::Not => conforming(Some(&Type::Bool), r),
            }
        },
        Expr::Binop { .. } => infer_binop(prog, known, sc, e, fuel),
        Expr::If { .. } => infer_if(prog, known, sc, e, fuel),
        Expr::Func { params, body, return_ty } => match param_bindings(params) {
            None => Err(CheckError::CannotInferType),
            Some(bs) => {
                let inner = suspend(sc, extended(&sc.locals, &bs));
                let r = infer_expr(prog, known, &inner, body, fuel);
                match conforming(return_ty.as_ref(), r) {
                    Err(err) => Err(err),
                    Ok((ret, deps)) => {
                        let res = Flow::Func { params: flows_of(&bs), ret: Box::new(ret), deps };
                        proof {
                            flow::lemma_flow_view(res);
                        }
                        Ok((res, nothing_read()))
                    },
                }
            },
        },
        Expr::Call { .. } => infer_call(prog, known, sc, e, fuel),
        Expr::Action(stmts) => {
            let inner = suspend(sc, copy_bindings(&sc.locals));
            match check_stmts(prog, known, &inner, stmts, fuel) {
                Err(err) => Err(err),
                Ok(_) => {
                    proof {
                        flow::lemma_flow_view(Flow::Action);
                    }
                    Ok((Flow::Action, nothing_read()))
                },
            }
        },
        Expr::Html(template) => infer_template(prog, known, sc, &template.parts, fuel),
        Expr::Select { .. } | Expr::Fold { .. } | Expr::Table { .. } => Err(
            CheckError::CannotInferType,
        ),
    }
}

/// The type of a range and what evaluating its ends reads.
fn infer_range(
    prog: &[Stmt],
    known: &Vec<(Member, Flow)>,
    sc: &Scene,
    e: &Expr,
    fuel: usize,
) -> (res: Result<(Flow, Vec<Member>), CheckError>)
    requires
        e is Range,
    ensures
        typed(res, infer(types::views(prog@), known_view(known@), sc@, e@, fuel as nat)),
    decreases fuel, *e, 0int,
{
    proof {
        ast::lemma_expr_view(*e);
    }
    if let Expr::Range { start, end } = e {
        let r1 = infer_expr(prog, known, sc, start, fuel);
        match conforming(Some(&Type::Int), r1) {
            Err(err) => Err(err),
            Ok((_, d1)) => {
                let r2 = infer_expr(prog, known, sc, end, fuel);
                match conforming(Some(&Type::Int), r2) {
                    Err(err) => Err(err),
                    Ok((_, d2)) => {
                        let mut reads = d1;
                        insert_members(&mut reads, &d2);
                        let res = Flow::List(Box::new(Flow::Int));
                        proof {
                            flow::lemma_flow_view(Flow::Int);
                            flow::lemma_flow_view(res);
                        }
                        Ok((res, reads))
                    },
                }
            },
        }
    } else {
        Err(CheckError::CannotInferType)
    }
}

/// The type of an operation and what evaluating its operands reads.
fn infer_binop(
    prog: &[Stmt],
    known: &Vec<(Member, Flow)>,
    sc: &Scene,
    e: &Expr,
    fuel: usize,
) -> (res: Result<(Flow, Vec<Member>), CheckError>)
    requires
        e is Binop,
    ensures
        typed(res, infer(types::views(prog@), known_view(known@), sc@, e@, fuel as nat)),
    decreases fuel, *e, 0int,
{
    proof {
        ast::lemma_expr_view(*e);
    }
    if let Expr::Binop { op, expr1, expr2 } = e {
        let r1 = infer_expr(prog, known, sc, expr1, fuel);
        let wanted = operand(*op);
        match conforming(wanted.as_ref(), r1) {
            Err(err) => Err(err),
            Ok((f1, d1)) => {
                let t1 = erase(&f1);
                if *op == BinOp::Eq && !(same_type(&t1, &Type::Int) || same_type(&t1, &Type::Bool)
                    || same_type(&t1, &Type::String)) {
                    return Err(CheckError::CannotInferType);
                }
                let r2 = infer_expr(prog, known, sc, expr2, fuel);
                match conforming(Some(&t1), r2) {
                    Err(err) => Err(err),
                    Ok((_, d2)) => {
                        let mut reads = d1;
                        insert_members(&mut reads, &d2);
                        proof {
                            flow::lemma_flow_view(Flow::Int);
                            flow::lemma_flow_view(Flow::Bool);
                        }
                        match op {
                            BinOp::Add | BinOp::Sub | BinOp::Mul | BinOp::Div => Ok(
                                (Flow::Int, reads),
                            ),
                            _ => Ok((Flow::Bool, reads)),
                        }
                    },
                }
            },
        }
    } else {
        Err(CheckError::CannotInferType)
    }
}

/// The type of a choice and what evaluating it reads.
fn infer_if(
    prog: &[Stmt],
    known: &Vec<(Member, Flow)>,
    sc: &Scene,
    e: &Expr,
    fuel: usize,
) -> (res: Result<(Flow, Vec<Member>), CheckError>)
    requires
        e is If,
    ensures
        typed(res, infer(types::views(prog@), known_view(known@), sc@, e@, fuel as nat)),
    decreases fuel, *e, 0int,
{
    proof {
        ast::lemma_expr_view(*e);
    }
    if let Expr::If { cond, expr1, expr2 } = e {
        let r0 = infer_expr(prog, known, sc, cond, fuel);
        match conforming(Some(&Type::Bool), r0) {
            Err(err) => Err(err),
            Ok((_, d0)) => match infer_expr(prog, known, sc, expr1, fuel) {
                Err(err) => Err(err),
                Ok((f1, d1)) => {
                    let t1 = erase(&f1);
                    let r2 = infer_expr(prog, known, sc, expr2, fuel);
                    match conforming(Some(&t1), r2) {
                        Err(err) => Err(err),
                        Ok((f2, d2)) => {
                            let mut reads = d0;
                            insert_members(&mut reads, &d1);
                            insert_members(&mut reads, &d2);
                            insert_members(&mut reads, &latent_deps(&f2));
                            Ok((f1, reads))
                        },
                    }
                },
            },
        }
    } else {
        Err(CheckError::CannotInferType)
    }
}

/// What a call calls.
enum Callee<'a> {
    Inline(&'a Vec<Param>, &'a Expr),
    Member(Member, &'a Vec<Param>, &'a Expr),
    Opaque,
}

impl<'a> Callee<'a> {
    spec fn is(self, c: CalleeV) -> bool {
        match self {
            Callee::Inline(params, body) => c == CalleeV::Inline(types::views(params@), body@),
            Callee::Member(m, params, body) => c == CalleeV::Member(
                m,
                types::views(params@),
                body@,
            ),
            Callee::Opaque => c == CalleeV::Opaque,
        }
    }
}

fn find_callee<'a>(prog: &'a [Stmt], sc: &Scene, func: &'a Expr) -> (res: Callee<'a>)
    ensures
        res.is(callee(types::views(prog@), sc@, func@)),
        res matches Callee::Inline(_, body) ==> func is Func && *body == *func->body,
{
    proof {
        ast::lemma_expr_view(*func);
    }
    let m = match func {
        Expr::Func { params, body, .. } => {
            return Callee::Inline(params, body);
        },
        Expr::Variable { name } => {
            if find_local(&sc.locals, *name).is_some() {
                return Callee::Opaque;
            }
            (sc.svc, *name)
        },
        Expr::MemberAccess { service_name, member_name } => (*service_name, *member_name),
        _ => {
            return Callee::Opaque;
        },
    };
    if has_member(&sc.guarded, m) || has_member(&sc.path, m) {
        return Callee::Opaque;
    }
    match find_member(prog, m) {
        None => Callee::Opaque,
        Some(d) => match value_of_decl(d) {
            None => Callee::Opaque,
            Some(v) => {
                proof {
                    ast::lemma_expr_view(*v);
                }
                match v {
                    Expr::Func { params, body, .. } => Callee::Member(m, params, body),
                    _ => Callee::Opaque,
                }
            },
        },
    }
}

/// The type of a call and what evaluating it reads.
#[verifier::rlimit(60)]
fn infer_call(
    prog: &[Stmt],
    known: &Vec<(Member, Flow)>,
    sc: &Scene,
    e: &Expr,
    fuel: usize,
) -> (res: Result<(Flow, Vec<Member>), CheckError>)
    requires
        e is Call,
    ensures
        typed(res, infer(types::views(prog@), known_view(known@), sc@, e@, fuel as nat)),
    decreases fuel, *e, 0int,
{
    proof {
        ast::lemma_expr_view(*e);
    }
    if let Expr::Call { func, args } = e {
        match infer_exprs(prog, known, sc, args, fuel) {
            Err(err) => Err(err),
            Ok((fs, adeps)) => match find_callee(prog, sc, func) {
                Callee::Inline(params, body) => {
                    if params.len() != fs.len() {
                        return Err(CheckError::InvalidTupleArity);
                    }
                    if fuel == 0 {
                        return Err(CheckError::DepthLimitExceeded);
                    }
                    let inner = Scene {
                        svc: sc.svc,
                        locals: with_args(&sc.locals, params, &fs),
                        path: copy_members(&sc.path),
                        guarded: copy_members(&sc.guarded),
                    };
                    match infer_expr(prog, known, &inner, body, fuel - 1) {
                        Err(err) => Err(err),
                        Ok((f, deps)) => {
                            let mut reads = adeps;
                            insert_members(&mut reads, &deps);
                            Ok((f, reads))
                        },
                    }
                },
                Callee::Member(m, params, body) => match infer_expr(prog, known, sc, func, fuel) {
                    Err(err) => Err(err),
                    Ok((_, fdeps)) => {
                        if params.len() != fs.len() {
                            return Err(CheckError::InvalidTupleArity);
                        }
                        if fuel == 0 {
                            return Err(CheckError::DepthLimitExceeded);
                        }
                        let none: Vec<(Symbol, Flow)> = Vec::new();
                        assert(bindings_view(none@) =~= Seq::<(Symbol, FlowV)>::empty());
                        let mut guarded = copy_members(&sc.guarded);
                        guarded.push(m);
                        let inner = Scene {
                            svc: m.0,
                            locals: with_args(&none, params, &fs),
                            path: copy_members(&sc.path),
                            guarded,
                        };
                        match infer_expr(prog, known, &inner, body, fuel - 1) {
                            Err(err) => Err(err),
                            Ok((f, deps)) => {
                                let mut reads = adeps;
                                insert_members(&mut reads, &fdeps);
                                insert_members(&mut reads, &deps);
                                Ok((f, reads))
                            },
                        }
                    },
                },
                Callee::Opaque => match infer_expr(prog, known, sc, func, fuel) {
                    Err(err) => Err(err),
                    Ok((f, fdeps)) => call_opaque(f, fdeps, fs, adeps),
                },
            },
        }
    } else {
        Err(CheckError::CannotInferType)
    }
}

/// The types of expressions and what evaluating all of them reads.
fn infer_exprs(
    prog: &[Stmt],
    known: &Vec<(Member, Flow)>,
    sc: &Scene,
    exprs: &Vec<Expr>,
    fuel: usize,
) -> (res: Result<(Vec<Flow>, Vec<Member>), CheckError>)
    ensures
        match res {
            Ok((fs, deps)) => infer_all(
                types::views(prog@),
                known_view(known@),
                sc@,
                types::views(exprs@),
                0,
                Seq::empty(),
                Seq::empty(),
                fuel as nat,
            ) == Ok::<(Seq<FlowV>, Seq<Member>), CheckErrorV>((types::views(fs@), deps@)),
            Err(err) => infer_all(
                types::views(prog@),
                known_view(known@),
                sc@,
                types::views(exprs@),
                0,
                Seq::empty(),
                Seq::empty(),
                fuel as nat,
            ) == Err::<(Seq<FlowV>, Seq<Member>), CheckErrorV>(err@),
        },
    decreases fuel, *exprs, 1int,
{
    let ghost ps = types::views(prog@);
    let ghost ks = known_view(known@);
    let ghost es = types::views(exprs@);
    let mut found: Vec<Flow> = Vec::new();
    let mut reads: Vec<Member> = nothing_read();
    assert(types::views(found@) =~= Seq::<FlowV>::empty());
    let mut i: usize = 0;
    while i < exprs.len()
        invariant
            i <= exprs@.len(),
            ps == types::views(prog@),
            ks == known_view(known@),
            es == types::views(exprs@),
            infer_all(ps, ks, sc@, es, 0, Seq::empty(), Seq::empty(), fuel as nat) == infer_all(
                ps,
                ks,
                sc@,
                es,
                i as int,
                types::views(found@),
                reads@,
                fuel as nat,
            ),
            decreases_to!(*exprs => exprs@),
        decreases exprs@.len() - i,
    {
        assert(decreases_to!(exprs@ => exprs@[i as int]));
        assert(es[i as int] == exprs@[i as int]@);
        match infer_expr(prog, known, sc, &exprs[i], fuel) {
            Err(err) => {
                return Err(err);
            },
            Ok((f, deps)) => {
                found.push(f);
                insert_members(&mut reads, &deps);
            },
        }
        i += 1;
    }
    Ok((found, reads))
}

/// The type of a template and what evaluating its expressions reads.
fn infer_template(
    prog: &[Stmt],
    known: &Vec<(Member, Flow)>,
    sc: &Scene,
    parts: &Vec<HtmlPart>,
    fuel: usize,
) -> (res: Result<(Flow, Vec<Member>), CheckError>)
    ensures
        match res {
            Ok((f, deps)) => f@ == FlowV::Html && infer_parts(
                types::views(prog@),
                known_view(known@),
                sc@,
                types::views(parts@),
                0,
                Seq::empty(),
                fuel as nat,
            ) == Ok::<Seq<Member>, CheckErrorV>(deps@),
            Err(err) => infer_parts(
                types::views(prog@),
                known_view(known@),
                sc@,
                types::views(parts@),
                0,
                Seq::empty(),
                fuel as nat,
            ) == Err::<Seq<Member>, CheckErrorV>(err@),
        },
    decreases fuel, *parts, 1int,
{
    let ghost ps = types::views(prog@);
    let ghost ks = known_view(known@);
    let ghost vs = types::views(parts@);
    let mut reads: Vec<Member> = nothing_read();
    let mut i: usize = 0;
    while i < parts.len()
        invariant
            i <= parts@.len(),
            ps == types::views(prog@),
            ks == known_view(known@),
            vs == types::views(parts@),
            infer_parts(ps, ks, sc@, vs, 0, Seq::empty(), fuel as nat) == infer_parts(
                ps,
                ks,
                sc@,
                vs,
                i as int,
                reads@,
                fuel as nat,
            ),
            decreases_to!(*parts => parts@),
        decreases parts@.len() - i,
    {
        assert(decreases_to!(parts@ => parts@[i as int]));
        assert(vs[i as int] == parts@[i as int]@);
        proof {
            ast::lemma_html_part_view(parts@[i as int]);
        }
        match &parts[i] {
            HtmlPart::Text(_) => {},
            HtmlPart::Expr(e) => {
                assert(decreases_to!(parts@[i as int] => e));
                match infer_expr(prog, known, sc, e, fuel) {
                    Err(err) => {
                        return Err(err);
                    },
                    Ok((_, deps)) => {
                        insert_members(&mut reads, &deps);
                    },
                }
            },
        }
        i += 1;
    }
    proof {
        flow::lemma_flow_view(Flow::Html);
    }
    Ok((Flow::Html, reads))
}

fn assigned_type(
    prog: &[Stmt],
    known: &Vec<(Member, Flow)>,
    sc: &Scene,
    x: Symbol,
) -> (res: Option<Type>)
    ensures
        types::opt_view(res) == target_type(types::views(prog@), known_view(known@), sc@, x),
{
    if let Some(f) = find_local(&sc.locals, x) {
        return Some(erase(f));
    }
    if let Some(f) = find_known(known, (sc.svc, x)) {
        return Some(erase(f));
    }
    match find_member(prog, (sc.svc, x)) {
        None => None,
        Some(d) => match type_of_decl(d) {
            Some(t) => Some(t.clone()),
            None => None,
        },
    }
}

fn scene_with(sc: &Scene, locals: Vec<(Symbol, Flow)>) -> (res: Scene)
    ensures
        res@ == (SceneV { locals: bindings_view(locals@), ..sc@ }),
{
    Scene {
        svc: sc.svc,
        locals,
        path: copy_members(&sc.path),
        guarded: copy_members(&sc.guarded),
    }
}

/// Whether computed local names are those that the rules give.
pub open spec fn scoped(
    res: Result<Vec<(Symbol, Flow)>, CheckError>,
    spec: Result<Seq<(Symbol, FlowV)>, CheckErrorV>,
) -> bool {
    match res {
        Ok(locals) => spec == Ok::<Seq<(Symbol, FlowV)>, CheckErrorV>(bindings_view(locals@)),
        Err(err) => spec == Err::<Seq<(Symbol, FlowV)>, CheckErrorV>(err@),
    }
}

/// The local names behind a block.
fn check_stmts(
    prog: &[Stmt],
    known: &Vec<(Member, Flow)>,
    sc: &Scene,
    stmts: &Vec<ActionStmt>,
    fuel: usize,
) -> (res: Result<Vec<(Symbol, Flow)>, CheckError>)
    ensures
        scoped(
            res,
            check_block(
                types::views(prog@),
                known_view(known@),
                sc@,
                types::views(stmts@),
                0,
                fuel as nat,
            ),
        ),
    decreases fuel, *stmts, 1int,
{
    let ghost ps = types::views(prog@);
    let ghost ks = known_view(known@);
    let ghost ss = types::views(stmts@);
    let mut inner = scene_with(sc, copy_bindings(&sc.locals));
    let mut i: usize = 0;
    while i < stmts.len()
        invariant
            i <= stmts@.len(),
            ps == types::views(prog@),
            ks == known_view(known@),
            ss == types::views(stmts@),
            check_block(ps, ks, sc@, ss, 0, fuel as nat) == check_block(
                ps,
                ks,
                inner@,
                ss,
                i as int,
                fuel as nat,
            ),
            decreases_to!(*stmts => stmts@),
        decreases stmts@.len() - i,
    {
        assert(decreases_to!(stmts@ => stmts@[i as int]));
        assert(ss[i as int] == stmts@[i as int]@);
        match check_action_stmt(prog, known, &inner, &stmts[i], fuel) {
            Err(err) => {
                return Err(err);
            },
            Ok(locals) => {
                inner = scene_with(&inner, locals);
            },
        }
        i += 1;
    }
    Ok(inner.locals)
}

/// The local names behind a statement.
#[verifier::rlimit(40)]
fn check_action_stmt(
    prog: &[Stmt],
    known: &Vec<(Member, Flow)>,
    sc: &Scene,
    stmt: &ActionStmt,
    fuel: usize,
) -> (res: Result<Vec<(Symbol, Flow)>, CheckError>)
    ensures
        scoped(
            res,
            check_stmt(types::views(prog@), known_view(known@), sc@, stmt@, fuel as nat),
        ),
    decreases fuel, *stmt, 1int,
{
    proof {
        ast::lemma_action_stmt_view(*stmt);
    }
    let r = match stmt {
        ActionStmt::Let { name, ty, expr } => {
            let r = infer_expr(prog, known, sc, expr, fuel);
            return match conforming(ty.as_ref(), r) {
                Err(err) => Err(err),
                Ok((f, _)) => {
                    let mut locals = copy_bindings(&sc.locals);
                    let ghost before = locals@;
                    locals.push((*name, f));
                    assert(bindings_view(locals@) =~= bindings_view(before).push((*name, f@)));
                    Ok(locals)
                },
            };
        },
        ActionStmt::For { var, iterable, body } => {
            match infer_expr(prog, known, sc, iterable, fuel) {
                Err(err) => Err(err),
                Ok((f, deps)) => {
                    proof {
                        flow::lemma_flow_view(f);
                    }
                    match f {
                        Flow::List(item) => {
                            let mut locals = copy_bindings(&sc.locals);
                            let ghost before = locals@;
                            let ghost it = item@;
                            locals.push((*var, *item));
                            assert(bindings_view(locals@) =~= bindings_view(before).push(
                                (*var, it),
                            ));
                            let inner = scene_with(sc, locals);
                            match check_stmts(prog, known, &inner, body, fuel) {
                                Err(err) => Err(err),
                                Ok(_) => Ok((Flow::Unit, deps)),
                            }
                        },
                        _ => Err(CheckError::CannotInferType),
                    }
                },
            }
        },
        ActionStmt::Assign { name, expr } => {
            let r = infer_expr(prog, known, sc, expr, fuel);
            let wanted = assigned_type(prog, known, sc, *name);
            conforming(wanted.as_ref(), r)
        },
        ActionStmt::Do(expr) => {
            let r = infer_expr(prog, known, sc, expr, fuel);
            conforming(Some(&Type::Action), r)
        },
        ActionStmt::Assert(expr, _) => {
            let r = infer_expr(prog, known, sc, expr, fuel);
            conforming(Some(&Type::Bool), r)
        },
        ActionStmt::Expr(expr) => infer_expr(prog, known, sc, expr, fuel),
        ActionStmt::Insert { row, .. } => infer_expr(prog, known, sc, row, fuel),
    };
    match r {
        Err(err) => Err(err),
        Ok(_) => Ok(copy_bindings(&sc.locals)),
    }
}

/// Checks the declarations of services one by one. After an error nothing more is checked.
pub struct TypecheckEnv<'a> {
    program: &'a [Stmt],
    service: Symbol,
    known: Vec<(Member, Flow)>,
    error: Option<CheckError>,
}

impl<'a> TypecheckEnv<'a> {
    /// The program whose services are checked.
    pub closed spec fn prog(self) -> Seq<StmtV> {
        types::views(self.program@)
    }

    /// The service whose declarations come next.
    pub closed spec fn svc(self) -> Symbol {
        self.service
    }

    /// What is known so far, or the first error.
    pub closed spec fn outcome(self) -> Result<Known, CheckErrorV> {
        match self.error {
            Some(e) => Err(e@),
            None => Ok(known_view(self.known@)),
        }
    }

    /// Nothing is checked yet.
    pub fn new(program: &'a [Stmt], service: Symbol) -> (res: TypecheckEnv<'a>)
        ensures
            res.prog() == types::views(program@),
            res.svc() == service,
            res.outcome() == Ok::<Known, CheckErrorV>(Seq::empty()),
    {
        let known: Vec<(Member, Flow)> = Vec::new();
        assert(known_view(known@) =~= Seq::<(Member, FlowV)>::empty());
        TypecheckEnv { program, service, known, error: None }
    }

    /// Go on with the declarations of another service.
    pub fn enter_service(&mut self, service: Symbol)
        ensures
            final(self).prog() == old(self).prog(),
            final(self).outcome() == old(self).outcome(),
            final(self).svc() == service,
    {
        self.service = service;
    }

    /// Check a declaration of the service.
    pub fn typecheck_decl(&mut self, decl: &Decl)
        ensures
            final(self).prog() == old(self).prog(),
            final(self).svc() == old(self).svc(),
            final(self).outcome() == match old(self).outcome() {
                Err(e) => Err::<Known, CheckErrorV>(e),
                Ok(known) => check_decl(old(self).prog(), known, old(self).svc(), decl@),
            },
    {
        if self.error.is_some() {
            return ;
        }
        let m = (self.service, name_of_decl(decl));
        let ghost before = self.known@;
        match decl {
            Decl::TableDecl { fields, .. } => {
                let f = table_type(fields);
                self.known.push((m, f));
                assert(known_view(self.known@) =~= known_view(before).push((m, f@)));
            },
            Decl::VarDecl { val, .. } | Decl::DefDecl { val, .. } => {
                let mut path: Vec<Member> = Vec::new();
                path.push(m);
                let locals: Vec<(Symbol, Flow)> = Vec::new();
                let sc = Scene { svc: self.service, locals, path, guarded: Vec::new() };
                assert(sc@.locals =~= Seq::<(Symbol, FlowV)>::empty());
                assert(sc@.path =~= seq![m]);
                assert(sc@.guarded =~= Seq::<Member>::empty());
                let r = infer_expr(self.program, &self.known, &sc, val, MAX_SCOPE_DEPTH);
                match conforming(type_of_decl(decl), r) {
                    Err(e) => {
                        self.error = Some(e);
                    },
                    Ok((f, deps)) => match unchecked(&self.known, &deps) {
                        Some(x) => {
                            self.error = Some(
                                CheckError::IllegalDependency { service: x.0, member: x.1 },
                            );
                        },
                        None => {
                            self.known.push((m, f));
                            assert(known_view(self.known@) =~= known_view(before).push((m, f@)));
                        },
                    },
                }
            },
        }
    }

    /// Check the declarations of the service in order.
    pub fn typecheck_service(&mut self, decls: &Vec<Decl>)
        ensures
            final(self).prog() == old(self).prog(),
            final(self).svc() == old(self).svc(),
            final(self).outcome() == match old(self).outcome() {
                Err(e) => Err::<Known, CheckErrorV>(e),
                Ok(known) => check_decls(
                    old(self).prog(),
                    known,
                    old(self).svc(),
                    types::views(decls@),
                    0,
                ),
            },
    {
        let ghost ds = types::views(decls@);
        let ghost start = match self.outcome() {
            Err(e) => Err::<Known, CheckErrorV>(e),
            Ok(known) => check_decls(self.prog(), known, self.svc(), ds, 0),
        };
        let mut i: usize = 0;
        while i < decls.len()
            invariant
                i <= decls@.len(),
                ds == types::views(decls@),
                self.prog() == old(self).prog(),
                self.svc() == old(self).svc(),
                start == match self.outcome() {
                    Err(e) => Err::<Known, CheckErrorV>(e),
                    Ok(known) => check_decls(self.prog(), known, self.svc(), ds, i as int),
                },
            decreases decls@.len() - i,
        {
            assert(ds[i as int] == decls@[i as int]@);
            self.typecheck_decl(&decls[i]);
            i += 1;
        }
    }

    /// What is known, or the first error.
    pub fn finish(self) -> (res: Result<Vec<(Member, Flow)>, CheckError>)
        ensures
            match res {
                Ok(known) => self.outcome() == Ok::<Known, CheckErrorV>(known_view(known@)),
                Err(e) => self.outcome() == Err::<Known, CheckErrorV>(e@),
            },
    {
        match self.error {
            Some(e) => Err(e),
            None => Ok(self.known),
        }
    }
}

fn unchecked(known: &Vec<(Member, Flow)>, deps: &Vec<Member>) -> (res: Option<Member>)
    ensures
        res == first_unchecked(known_view(known@), deps@, 0),
{
    let mut i: usize = 0;
    while i < deps.len()
        invariant
            i <= deps@.len(),
            first_unchecked(known_view(known@), deps@, 0) == first_unchecked(
                known_view(known@),
                deps@,
                i as int,
            ),
        decreases deps@.len() - i,
    {
        if find_known(known, deps[i]).is_none() {
            return Some(deps[i]);
        }
        i += 1;
    }
    None
}

/// Check the services of a program in order: the types of all members, or why it is rejected.
pub fn check(program: &[Stmt]) -> (res: Result<Vec<(Member, Flow)>, CheckError>)
    ensures
        match res {
            Ok(known) => checked(types::views(program@)) == Ok::<Known, CheckErrorV>(
                known_view(known@),
            ),
            Err(e) => checked(types::views(program@)) == Err::<Known, CheckErrorV>(e@),
        },
{
    let ghost ps = types::views(program@);
    let mut env = TypecheckEnv::new(program, 0);
    let mut i: usize = 0;
    while i < program.len()
        invariant
            i <= program@.len(),
            ps == types::views(program@),
            env.prog() == ps,
            checked(ps) == match env.outcome() {
                Err(e) => Err::<Known, CheckErrorV>(e),
                Ok(known) => check_from(ps, known, i as int),
            },
        decreases program@.len() - i,
    {
        assert(ps[i as int] == program@[i as int]@);
        proof {
            ast::lemma_stmt_view(program@[i as int]);
        }
        if let Stmt::Service { name, decls } = &program[i] {
            env.enter_service(*name);
            env.typecheck_service(decls);
        }
        i += 1;
    }
    env.finish()
}

} // verus!
