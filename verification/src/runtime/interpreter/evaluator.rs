//! The evaluator.
//!
//! A name is looked up in the local environment, then among the members of the service. What
//! lives on another node is not waited for: evaluation stops and names the member that it needs;
//! once its value was fetched, evaluation starts again.

use std::collections::{HashMap, HashSet};
use vstd::prelude::*;

use crate::runtime::ast;
use crate::runtime::ast::{
    clone_action_stmts, BinOp, Expr, ExprV, Html, HtmlPart, HtmlPartV, HtmlV, UnOp, Value, ValueV,
};
use crate::runtime::graphs::free_var;
use crate::runtime::interner::Symbol;
use crate::runtime::manager;
use crate::runtime::manager::{ServiceState, ServiceV};
use crate::runtime::text;
use crate::runtime::text::{int_to_string, join};
use crate::runtime::tt::types;
use crate::runtime::tt::types::{clone_params, Member, Param, ParamV};

verus! {

broadcast use {
    vstd::std_specs::hash::group_hash_axioms,
    types::views_push,
    ast::group_ast_views,
};

/// Why an expression has no value.
#[derive(Debug, PartialEq, Eq)]
pub enum EvalError {
    /// Evaluation failed.
    RuntimeError(String),
    /// The construct cannot be evaluated.
    NotImplemented,
    /// The value of a member on another node is needed first.
    NeedLookup(Member),
}

/// What an `EvalError` stands for.
pub enum EvalErrorV {
    RuntimeError(Seq<char>),
    NotImplemented,
    NeedLookup(Member),
}

impl View for EvalError {
    type V = EvalErrorV;

    open spec fn view(&self) -> EvalErrorV {
        match *self {
            EvalError::RuntimeError(s) => EvalErrorV::RuntimeError(s@),
            EvalError::NotImplemented => EvalErrorV::NotImplemented,
            EvalError::NeedLookup(m) => EvalErrorV::NeedLookup(m),
        }
    }
}

/// What an expression is evaluated in: the running services, the service that it belongs to and
/// the name of that service on the network, and the values fetched from other nodes.
pub struct EvalContext<'a> {
    pub services: &'a HashMap<Symbol, ServiceState>,
    pub service_name: Symbol,
    pub service_net_id: &'a str,
    pub fetched: &'a Vec<(Member, Value)>,
}

/// What an `EvalContext` stands for.
pub struct ContextV {
    pub services: Map<Symbol, ServiceV>,
    pub svc: Symbol,
    pub net_id: Seq<char>,
    pub fetched: Seq<(Member, ValueV)>,
}

pub open spec fn fetched_view(fs: Seq<(Member, Value)>) -> Seq<(Member, ValueV)> {
    fs.map_values(|f: (Member, Value)| (f.0, f.1@))
}

impl<'a> View for EvalContext<'a> {
    type V = ContextV;

    open spec fn view(&self) -> ContextV {
        ContextV {
            services: manager::services_view(self.services@),
            svc: self.service_name,
            net_id: self.service_net_id@,
            fetched: fetched_view(self.fetched@),
        }
    }
}

/// The value of an expression, or why it has none.
pub type Evaluated = Result<ValueV, EvalErrorV>;

/// The value of a local name: its innermost binding.
pub open spec fn env_value(env: Seq<(Symbol, ValueV)>, x: Symbol) -> Option<ValueV>
    decreases env.len(),
{
    if env.len() == 0 {
        None
    } else if env.last().0 == x {
        Some(env.last().1)
    } else {
        env_value(env.drop_last(), x)
    }
}

/// The value of a member that was fetched from another node: the latest one.
pub open spec fn fetched_value(fs: Seq<(Member, ValueV)>, m: Member) -> Option<ValueV>
    decreases fs.len(),
{
    if fs.len() == 0 {
        None
    } else if fs.last().0 == m {
        Some(fs.last().1)
    } else {
        fetched_value(fs.drop_last(), m)
    }
}

/// What is known here of a member.
pub enum Found {
    /// It has this value.
    Is(ValueV),
    /// It is defined by this expression.
    By(ExprV),
    /// It does not live here, and its value was not fetched.
    Nowhere,
}

/// What is known here of a member.
pub open spec fn found(cx: ContextV, m: Member) -> Found {
    if cx.services.dom().contains(m.0) && cx.services[m.0].vars.dom().contains(m.1) {
        Found::Is(cx.services[m.0].vars[m.1].value)
    } else if cx.services.dom().contains(m.0) && cx.services[m.0].defs.dom().contains(m.1) {
        Found::By(cx.services[m.0].defs[m.1])
    } else {
        match fetched_value(cx.fetched, m) {
            Some(v) => Found::Is(v),
            None => Found::Nowhere,
        }
    }
}

/// The quotient of two integers, rounded towards zero.
pub open spec fn quotient(a: int, b: int) -> int {
    if (a < 0) == (b < 0) {
        abs(a) / abs(b)
    } else {
        -(abs(a) / abs(b))
    }
}

/// The distance of an integer from zero.
pub open spec fn abs(a: int) -> int {
    if a < 0 {
        -a
    } else {
        a
    }
}

/// An integer as a value, if it fits.
pub open spec fn int_value(i: int) -> Evaluated {
    if i32::MIN <= i <= i32::MAX {
        Ok(ValueV::Int { val: i })
    } else {
        Err(EvalErrorV::RuntimeError("integer overflow"@))
    }
}

/// The value of an operation.
pub open spec fn operate(op: BinOp, a: ValueV, b: ValueV) -> Evaluated {
    match (a, b) {
        (ValueV::Int { val: x }, ValueV::Int { val: y }) => match op {
            BinOp::Add => int_value(x + y),
            BinOp::Sub => int_value(x - y),
            BinOp::Mul => int_value(x * y),
            BinOp::Div => if y == 0 {
                Err(EvalErrorV::RuntimeError("division by zero"@))
            } else {
                int_value(quotient(x, y))
            },
            BinOp::Eq => Ok(ValueV::Bool { val: x == y }),
            BinOp::Lt => Ok(ValueV::Bool { val: x < y }),
            BinOp::Gt => Ok(ValueV::Bool { val: x > y }),
            _ => Err(EvalErrorV::RuntimeError("Type error in binary operation"@)),
        },
        (ValueV::Bool { val: x }, ValueV::Bool { val: y }) => match op {
            BinOp::And => Ok(ValueV::Bool { val: x && y }),
            BinOp::Or => Ok(ValueV::Bool { val: x || y }),
            BinOp::Eq => Ok(ValueV::Bool { val: x == y }),
            _ => Err(EvalErrorV::RuntimeError("Type error in binary operation"@)),
        },
        (ValueV::String { val: x }, ValueV::String { val: y }) => match op {
            BinOp::Eq => Ok(ValueV::Bool { val: x == y }),
            _ => Err(EvalErrorV::RuntimeError("Type error in binary operation"@)),
        },
        _ => Err(EvalErrorV::RuntimeError("Type error in binary operation"@)),
    }
}

/// The value of a sign before a value.
pub open spec fn operate_one(op: UnOp, a: ValueV) -> Evaluated {
    match (op, a) {
        (UnOp::Neg, ValueV::Int { val }) => int_value(-val),
        (UnOp::Not, ValueV::Bool { val }) => Ok(ValueV::Bool { val: !val }),
        _ => Err(EvalErrorV::RuntimeError("Type error in unary operation"@)),
    }
}

/// The part of an environment that an expression needs: the names that occur free in it.
pub open spec fn captured(env: Seq<(Symbol, ValueV)>, e: ExprV) -> Seq<(Symbol, ValueV)> {
    env.filter(|p: (Symbol, ValueV)| free_var::occurs_free(e, p.0))
}

/// An environment with parameters bound to arguments, as far as both go.
pub open spec fn bound(
    env: Seq<(Symbol, ValueV)>,
    params: Seq<ParamV>,
    args: Seq<ValueV>,
) -> Seq<(Symbol, ValueV)> {
    env + Seq::new(
        if params.len() < args.len() {
            params.len()
        } else {
            args.len()
        },
        |i: int| (params[i].name, args[i]),
    )
}

/// What is shown of a value in a page.
pub open spec fn shown(v: ValueV) -> Seq<char>
    decreases v,
{
    match v {
        ValueV::Int { val } => text::int_text(val),
        ValueV::Bool { val } => if val {
            "true"@
        } else {
            "false"@
        },
        ValueV::String { val } => val,
        ValueV::Html(h) => h.text,
        ValueV::Closure { .. } => "<closure>"@,
        ValueV::ActionClosure { .. } => "<action>"@,
        ValueV::List { vals } => "["@ + text::joined(shown_all(vals), ", "@) + "]"@,
        ValueV::Range { start, end } => text::int_text(start) + ".."@ + text::int_text(end),
    }
}

/// What is shown of values in a page.
pub open spec fn shown_all(vs: Seq<ValueV>) -> Seq<Seq<char>>
    decreases vs,
{
    if vs.len() == 0 {
        Seq::empty()
    } else {
        shown_all(vs.drop_last()).push(shown(vs.last()))
    }
}

/// What is reported where evaluation nests too deep.
pub open spec fn too_deep() -> EvalErrorV {
    EvalErrorV::RuntimeError("evaluation depth limit exceeded"@)
}

/// The depth of evaluation where nothing bounds it but the machine.
pub open spec fn unbounded() -> nat {
    usize::MAX as nat
}

/// What the definitions of a service are evaluated in. Actions made there belong to it.
pub open spec fn entered(cx: ContextV, svc: Symbol) -> ContextV {
    ContextV {
        svc,
        net_id: if cx.services.dom().contains(svc) {
            cx.services[svc].net_id
        } else {
            cx.net_id
        },
        ..cx
    }
}

/// What the body of a called function is evaluated in: a function that is called as the member of a
/// service knows the members of that service.
pub open spec fn callee_context(cx: ContextV, func: ExprV) -> ContextV {
    match func {
        ExprV::MemberAccess { service_name, .. } => entered(cx, service_name),
        _ => cx,
    }
}

/// The value of an expression. `fuel` bounds the number of function bodies and definitions entered
/// one inside the other.
pub open spec fn evaluated(
    cx: ContextV,
    env: Seq<(Symbol, ValueV)>,
    e: ExprV,
    fuel: nat,
) -> Evaluated
    decreases fuel, e, 0int,
{
    match e {
        ExprV::Literal { val } => Ok(val),
        ExprV::Variable { name } => match env_value(env, name) {
            Some(v) => Ok(v),
            None => match found(cx, (cx.svc, name)) {
                Found::Is(v) => Ok(v),
                Found::By(d) => if fuel == 0 {
                    Err(too_deep())
                } else {
                    evaluated(cx, Seq::empty(), d, (fuel - 1) as nat)
                },
                Found::Nowhere => Err(EvalErrorV::NeedLookup((cx.svc, name))),
            },
        },
        ExprV::MemberAccess { service_name, member_name } => match found(
            cx,
            (service_name, member_name),
        ) {
            Found::Is(v) => Ok(v),
            Found::By(d) => if fuel == 0 {
                Err(too_deep())
            } else {
                evaluated(
                    entered(cx, service_name),
                    Seq::empty(),
                    d,
                    (fuel - 1) as nat,
                )
            },
            Found::Nowhere => Err(EvalErrorV::NeedLookup((service_name, member_name))),
        },
        ExprV::Unop { op, expr } => match evaluated(cx, env, *expr, fuel) {
            Err(e) => Err(e),
            Ok(v) => operate_one(op, v),
        },
        ExprV::Binop { op, expr1, expr2 } => match evaluated(cx, env, *expr1, fuel) {
            Err(e) => Err(e),
            Ok(a) => match evaluated(cx, env, *expr2, fuel) {
                Err(e) => Err(e),
                Ok(b) => operate(op, a, b),
            },
        },
        ExprV::If { cond, expr1, expr2 } => match evaluated(cx, env, *cond, fuel) {
            Err(e) => Err(e),
            Ok(ValueV::Bool { val }) => if val {
                evaluated(cx, env, *expr1, fuel)
            } else {
                evaluated(cx, env, *expr2, fuel)
            },
            Ok(_) => Err(EvalErrorV::RuntimeError("Condition must be boolean"@)),
        },
        ExprV::Func { params, body, .. } => Ok(
            ValueV::Closure { params, body, env: captured(env, e) },
        ),
        ExprV::Action(stmts) => Ok(
            ValueV::ActionClosure { stmts, env: captured(env, e), service_net_id: cx.net_id },
        ),
        ExprV::Call { func, args } => match evaluated(cx, env, *func, fuel) {
            Err(e) => Err(e),
            Ok(f) => match evaluated_all(cx, env, args, 0, Seq::empty(), fuel) {
                Err(e) => Err(e),
                Ok(vs) => match f {
                    ValueV::Closure { params, body, env: closed } => if fuel == 0 {
                        Err(too_deep())
                    } else {
                        evaluated(
                            callee_context(cx, *func),
                            bound(closed, params, vs),
                            *body,
                            (fuel - 1) as nat,
                        )
                    },
                    _ => Err(
                        EvalErrorV::RuntimeError("Attempting to call a non-function value"@),
                    ),
                },
            },
        },
        ExprV::List(val) => match evaluated_all(cx, env, val, 0, Seq::empty(), fuel) {
            Err(e) => Err(e),
            Ok(vals) => Ok(ValueV::List { vals }),
        },
        ExprV::Range { start, end } => match evaluated(cx, env, *start, fuel) {
            Err(e) => Err(e),
            Ok(a) => match evaluated(cx, env, *end, fuel) {
                Err(e) => Err(e),
                Ok(b) => match (a, b) {
                    (ValueV::Int { val: x }, ValueV::Int { val: y }) => Ok(
                        ValueV::Range { start: x, end: y },
                    ),
                    _ => Err(EvalErrorV::RuntimeError("Range bounds must be integers"@)),
                },
            },
        },
        ExprV::Html(parts) => match rendered(cx, env, parts, 0, empty_page(), fuel) {
            Err(e) => Err(e),
            Ok(page) => Ok(ValueV::Html(page)),
        },
        ExprV::KeyVal { .. } | ExprV::Tuple { .. } | ExprV::Select { .. } | ExprV::Table { .. }
        | ExprV::Fold { .. } => Err(EvalErrorV::NotImplemented),
    }
}

/// The values of expressions from position `i` on, behind those found before.
pub open spec fn evaluated_all(
    cx: ContextV,
    env: Seq<(Symbol, ValueV)>,
    es: Seq<ExprV>,
    i: int,
    vals: Seq<ValueV>,
    fuel: nat,
) -> Result<Seq<ValueV>, EvalErrorV>
    decreases fuel, es, es.len() - i,
{
    if i < 0 || i >= es.len() {
        Ok(vals)
    } else {
        match evaluated(cx, env, es[i], fuel) {
            Err(e) => Err(e),
            Ok(v) => evaluated_all(cx, env, es, i + 1, vals.push(v), fuel),
        }
    }
}

/// A page without text and handlers.
pub open spec fn empty_page() -> HtmlV {
    HtmlV { text: Seq::empty(), handlers: Seq::empty() }
}

/// Where the run of letters before position `p` begins.
pub open spec fn letters_begin(s: Seq<char>, p: int) -> int
    decreases p,
{
    if 0 < p <= s.len() && ('a' <= s[p - 1] <= 'z' || 'A' <= s[p - 1] <= 'Z') {
        letters_begin(s, p - 1)
    } else {
        p
    }
}

/// Where the event attribute begins that a text ends with: a name that starts with `on`, and `=`.
pub open spec fn event_attribute(s: Seq<char>) -> Option<int> {
    let end = s.len() - 1;
    let k = letters_begin(s, end);
    if s.len() > 0 && s[end] == '=' && end - k > 2 && s[k] == 'o' && s[k + 1] == 'n' {
        Some(k)
    } else {
        None
    }
}

/// A page with the value of an expression behind it. An action in an event attribute is not shown:
/// it is kept as the handler of the event, and the attribute is left out of the text.
pub open spec fn with_value(page: HtmlV, v: ValueV) -> HtmlV {
    match event_attribute(page.text) {
        Some(k) if v is ActionClosure || v is Closure => HtmlV {
            text: page.text.subrange(0, k),
            handlers: page.handlers.push((page.text.subrange(k, page.text.len() - 1), v)),
        },
        _ => HtmlV { text: page.text + shown(v), ..page },
    }
}

/// The page of a template from position `i` on, behind what comes before.
pub open spec fn rendered(
    cx: ContextV,
    env: Seq<(Symbol, ValueV)>,
    parts: Seq<HtmlPartV>,
    i: int,
    before: HtmlV,
    fuel: nat,
) -> Result<HtmlV, EvalErrorV>
    decreases fuel, parts, parts.len() - i,
{
    if i < 0 || i >= parts.len() {
        Ok(before)
    } else {
        match parts[i] {
            HtmlPartV::Text(s) => rendered(
                cx,
                env,
                parts,
                i + 1,
                HtmlV { text: before.text + s, ..before },
                fuel,
            ),
            HtmlPartV::Expr(e) => match evaluated(cx, env, e, fuel) {
                Err(e) => Err(e),
                Ok(v) => rendered(cx, env, parts, i + 1, with_value(before, v), fuel),
            },
        }
    }
}

/// Whether a computed value is the value of the expression.
pub open spec fn yields(res: Result<Value, EvalError>, spec: Evaluated) -> bool {
    match res {
        Ok(v) => spec == Ok::<ValueV, EvalErrorV>(v@),
        Err(e) => spec == Err::<ValueV, EvalErrorV>(e@),
    }
}

fn find_in_env(env: &Vec<(Symbol, Value)>, x: Symbol) -> (res: Option<&Value>)
    ensures
        match res {
            Some(v) => env_value(ast::env_view(env@), x) == Some(v@),
            None => env_value(ast::env_view(env@), x) is None,
        },
{
    let ghost es = ast::env_view(env@);
    let mut i: usize = env.len();
    assert(es.take(i as int) =~= es);
    while i > 0
        invariant
            i <= env@.len(),
            es == ast::env_view(env@),
            env_value(es, x) == env_value(es.take(i as int), x),
        decreases i,
    {
        assert(es.take(i as int).last() == es[i - 1]);
        assert(es.take(i as int).drop_last() =~= es.take(i - 1));
        if env[i - 1].0 == x {
            return Some(&env[i - 1].1);
        }
        i -= 1;
    }
    None
}

fn find_fetched(fs: &Vec<(Member, Value)>, m: Member) -> (res: Option<&Value>)
    ensures
        match res {
            Some(v) => fetched_value(fetched_view(fs@), m) == Some(v@),
            None => fetched_value(fetched_view(fs@), m) is None,
        },
{
    let ghost vs = fetched_view(fs@);
    let mut i: usize = fs.len();
    assert(vs.take(i as int) =~= vs);
    while i > 0
        invariant
            i <= fs@.len(),
            vs == fetched_view(fs@),
            fetched_value(vs, m) == fetched_value(vs.take(i as int), m),
        decreases i,
    {
        assert(vs.take(i as int).last() == vs[i - 1]);
        assert(vs.take(i as int).drop_last() =~= vs.take(i - 1));
        let at = fs[i - 1].0;
        if at.0 == m.0 && at.1 == m.1 {
            return Some(&fs[i - 1].1);
        }
        i -= 1;
    }
    None
}

/// What is known here of a member.
enum Lookup<'a> {
    Is(&'a Value),
    By(&'a Expr),
    Nowhere,
}

impl<'a> Lookup<'a> {
    spec fn is(self, f: Found) -> bool {
        match self {
            Lookup::Is(v) => f == Found::Is(v@),
            Lookup::By(e) => f == Found::By(e@),
            Lookup::Nowhere => f == Found::Nowhere,
        }
    }
}

fn look_up<'a>(ctx: &EvalContext<'a>, m: Member) -> (res: Lookup<'a>)
    ensures
        res.is(found(ctx@, m)),
{
    if let Some(service) = ctx.services.get(&m.0) {
        if let Some(var) = service.vars.get(&m.1) {
            return Lookup::Is(&var.value);
        }
        if let Some(def) = service.defs.get(&m.1) {
            return Lookup::By(def);
        }
    }
    match find_fetched(ctx.fetched, m) {
        Some(v) => Lookup::Is(v),
        None => Lookup::Nowhere,
    }
}

fn runtime_error(msg: &str) -> (res: EvalError)
    ensures
        res@ == EvalErrorV::RuntimeError(msg@),
{
    EvalError::RuntimeError(msg.to_owned())
}

fn checked_int(i: i64) -> (res: Result<Value, EvalError>)
    ensures
        yields(res, int_value(i as int)),
{
    if -2147483648 <= i && i <= 2147483647 {
        Ok(Value::Int { val: i as i32 })
    } else {
        Err(runtime_error("integer overflow"))
    }
}

fn divide(a: i32, b: i32) -> (res: i64)
    requires
        b != 0,
    ensures
        res == quotient(a as int, b as int),
{
    let ua: u64 = if a < 0 {
        (-(a as i64)) as u64
    } else {
        a as u64
    };
    let ub: u64 = if b < 0 {
        (-(b as i64)) as u64
    } else {
        b as u64
    };
    let q: u64 = ua / ub;
    assert(q <= ua) by (nonlinear_arith)
        requires
            q == ua / ub,
            ub > 0,
    ;
    if (a < 0) == (b < 0) {
        q as i64
    } else {
        -(q as i64)
    }
}

fn apply_binop(op: BinOp, a: &Value, b: &Value) -> (res: Result<Value, EvalError>)
    ensures
        yields(res, operate(op, a@, b@)),
{
    proof {
        ast::lemma_value_view(*a);
        ast::lemma_value_view(*b);
    }
    match (a, b) {
        (Value::Int { val: x }, Value::Int { val: y }) => match op {
            BinOp::Add => checked_int(*x as i64 + *y as i64),
            BinOp::Sub => checked_int(*x as i64 - *y as i64),
            BinOp::Mul => {
                assert(-4611686018427387904 <= *x * *y <= 4611686018427387904) by (nonlinear_arith)
                    requires
                        -2147483648 <= *x <= 2147483647,
                        -2147483648 <= *y <= 2147483647,
                ;
                checked_int(*x as i64 * *y as i64)
            },
            BinOp::Div => {
                if *y == 0 {
                    Err(runtime_error("division by zero"))
                } else {
                    checked_int(divide(*x, *y))
                }
            },
            BinOp::Eq => Ok(Value::Bool { val: *x == *y }),
            BinOp::Lt => Ok(Value::Bool { val: *x < *y }),
            BinOp::Gt => Ok(Value::Bool { val: *x > *y }),
            _ => Err(runtime_error("Type error in binary operation")),
        },
        (Value::Bool { val: x }, Value::Bool { val: y }) => match op {
            BinOp::And => Ok(Value::Bool { val: *x && *y }),
            BinOp::Or => Ok(Value::Bool { val: *x || *y }),
            BinOp::Eq => Ok(Value::Bool { val: *x == *y }),
            _ => Err(runtime_error("Type error in binary operation")),
        },
        (Value::String { val: x }, Value::String { val: y }) => match op {
            BinOp::Eq => Ok(Value::Bool { val: *x == *y }),
            _ => Err(runtime_error("Type error in binary operation")),
        },
        _ => Err(runtime_error("Type error in binary operation")),
    }
}

fn apply_unop(op: UnOp, a: &Value) -> (res: Result<Value, EvalError>)
    ensures
        yields(res, operate_one(op, a@)),
{
    proof {
        ast::lemma_value_view(*a);
    }
    match (op, a) {
        (UnOp::Neg, Value::Int { val }) => checked_int(-(*val as i64)),
        (UnOp::Not, Value::Bool { val }) => Ok(Value::Bool { val: !*val }),
        _ => Err(runtime_error("Type error in unary operation")),
    }
}

fn capture(env: &Vec<(Symbol, Value)>, e: &Expr) -> (res: Vec<(Symbol, Value)>)
    ensures
        ast::env_view(res@) == captured(ast::env_view(env@), e@),
{
    let ghost es = ast::env_view(env@);
    let ghost keep = |p: (Symbol, ValueV)| free_var::occurs_free(e@, p.0);
    let none: HashSet<Symbol> = HashSet::new();
    let free = free_var::free_var(e, &none);
    let mut res: Vec<(Symbol, Value)> = Vec::new();
    assert(ast::env_view(res@) =~= es.take(0).filter(keep)) by {
        reveal(Seq::filter);
    }
    let mut i: usize = 0;
    while i < env.len()
        invariant
            i <= env@.len(),
            es == ast::env_view(env@),
            keep == (|p: (Symbol, ValueV)| free_var::occurs_free(e@, p.0)),
            free@ == free_var::free_vars(e@, Set::empty()),
            ast::env_view(res@) == es.take(i as int).filter(keep),
        decreases env@.len() - i,
    {
        proof {
            reveal(Seq::filter);
            assert(es.take(i + 1).drop_last() =~= es.take(i as int));
            assert(es.take(i + 1).last() == es[i as int]);
        }
        if free.contains(&env[i].0) {
            let ghost before = res@;
            let v = env[i].1.clone();
            res.push((env[i].0, v));
            assert(ast::env_view(res@) =~= ast::env_view(before).push(es[i as int]));
        }
        i += 1;
    }
    assert(es.take(i as int) =~= es);
    res
}

fn bind(env: Vec<(Symbol, Value)>, params: &Vec<Param>, args: Vec<Value>) -> (res: Vec<
    (Symbol, Value),
>)
    ensures
        ast::env_view(res@) == bound(
            ast::env_view(env@),
            types::views(params@),
            types::views(args@),
        ),
{
    let ghost start = env@;
    let mut res = env;
    let mut i: usize = 0;
    while i < params.len() && i < args.len()
        invariant
            i <= params@.len(),
            i <= args@.len(),
            res@.len() == start.len() + i,
            forall|k: int| 0 <= k < start.len() ==> #[trigger] res@[k] == start[k],
            forall|k: int|
                start.len() <= k < start.len() + i ==> (#[trigger] res@[k]).0 == params@[k
                    - start.len()].name && res@[k].1@ == args@[k - start.len()]@,
        decreases params@.len() - i,
    {
        let v = args[i].clone();
        res.push((params[i].name, v));
        i += 1;
    }
    assert(ast::env_view(res@) =~= bound(
        ast::env_view(start),
        types::views(params@),
        types::views(args@),
    ));
    res
}

/// What is shown of a value in a page.
pub fn show(v: &Value) -> (res: String)
    ensures
        res@ == shown(v@),
    decreases *v,
{
    proof {
        ast::lemma_value_view(*v);
    }
    match v {
        Value::Int { val } => int_to_string(*val),
        Value::Bool { val } => {
            if *val {
                "true".to_owned()
            } else {
                "false".to_owned()
            }
        },
        Value::String { val } => val.clone(),
        Value::Html(h) => {
            proof {
                ast::lemma_html_view(*h);
            }
            h.text.clone()
        },
        Value::Closure { .. } => "<closure>".to_owned(),
        Value::ActionClosure { .. } => "<action>".to_owned(),
        Value::List { vals } => {
            let mut res = "[".to_owned();
            res.append(join(&show_all(vals), ", ").as_str());
            res.append("]");
            res
        },
        Value::Range { start, end } => {
            let mut res = int_to_string(*start);
            res.append("..");
            res.append(int_to_string(*end).as_str());
            res
        },
    }
}

fn show_all(vs: &Vec<Value>) -> (res: Vec<String>)
    ensures
        types::views(res@) == shown_all(types::views(vs@)),
    decreases *vs,
{
    let ghost vals = types::views(vs@);
    let mut res: Vec<String> = Vec::new();
    assert(types::views(res@) =~= shown_all(vals.take(0)));
    let mut i: usize = 0;
    while i < vs.len()
        invariant
            i <= vs@.len(),
            vals == types::views(vs@),
            types::views(res@) == shown_all(vals.take(i as int)),
            decreases_to!(*vs => vs@),
        decreases vs@.len() - i,
    {
        assert(decreases_to!(vs@ => vs@[i as int]));
        assert(vals.take(i + 1).drop_last() =~= vals.take(i as int));
        assert(vals.take(i + 1).last() == vs@[i as int]@);
        res.push(show(&vs[i]));
        i += 1;
    }
    assert(vals.take(i as int) =~= vals);
    res
}

/// The value of an expression in an environment. Nothing bounds how deep evaluation goes but the
/// machine: whatever depth the expression takes, its value is the one that it has there.
pub fn eval(expr: &Expr, env: &Vec<(Symbol, Value)>, ctx: &EvalContext) -> (res: Result<
    Value,
    EvalError,
>)
    ensures
        yields(res, evaluated(ctx@, ast::env_view(env@), expr@, unbounded())),
        forall|depth: nat|
            depth <= unbounded() && #[trigger] evaluated(ctx@, ast::env_view(env@), expr@, depth)
                != Err::<ValueV, EvalErrorV>(too_deep()) ==> yields(
                res,
                evaluated(ctx@, ast::env_view(env@), expr@, depth),
            ),
{
    proof {
        let env = ast::env_view(env@);
        assert forall|depth: nat|
            depth <= unbounded() && #[trigger] evaluated(ctx@, env, expr@, depth) != Err::<
                ValueV,
                EvalErrorV,
            >(too_deep()) implies evaluated(ctx@, env, expr@, unbounded()) == evaluated(
            ctx@,
            env,
            expr@,
            depth,
        ) by {
            depth_does_not_change_values(ctx@, env, expr@, depth, unbounded());
        }
    }
    eval_within(expr, env, ctx, usize::MAX)
}

/// The value of an expression in an environment, entering no more than `fuel` function bodies and
/// definitions one inside the other.
#[verifier::rlimit(60)]
pub fn eval_within(
    expr: &Expr,
    env: &Vec<(Symbol, Value)>,
    ctx: &EvalContext,
    fuel: usize,
) -> (res: Result<Value, EvalError>)
    ensures
        yields(res, evaluated(ctx@, ast::env_view(env@), expr@, fuel as nat)),
    decreases fuel, *expr, 1int,
{
    proof {
        ast::lemma_expr_view(*expr);
    }
    match expr {
        Expr::Literal { val } => Ok(val.clone()),
        Expr::Variable { name } => {
            if let Some(v) = find_in_env(env, *name) {
                return Ok(v.clone());
            }
            let m = (ctx.service_name, *name);
            match look_up(ctx, m) {
                Lookup::Is(v) => Ok(v.clone()),
                Lookup::By(d) => {
                    if fuel == 0 {
                        return Err(runtime_error("evaluation depth limit exceeded"));
                    }
                    let none: Vec<(Symbol, Value)> = Vec::new();
                    assert(ast::env_view(none@) =~= Seq::<(Symbol, ValueV)>::empty());
                    eval_within(d, &none, ctx, fuel - 1)
                },
                Lookup::Nowhere => Err(EvalError::NeedLookup(m)),
            }
        },
        Expr::MemberAccess { service_name, member_name } => {
            let m = (*service_name, *member_name);
            match look_up(ctx, m) {
                Lookup::Is(v) => Ok(v.clone()),
                Lookup::By(d) => {
                    if fuel == 0 {
                        return Err(runtime_error("evaluation depth limit exceeded"));
                    }
                    let none: Vec<(Symbol, Value)> = Vec::new();
                    assert(ast::env_view(none@) =~= Seq::<(Symbol, ValueV)>::empty());
                    let there = enter(ctx, *service_name);
                    eval_within(d, &none, &there, fuel - 1)
                },
                Lookup::Nowhere => Err(EvalError::NeedLookup(m)),
            }
        },
        Expr::Unop { op, expr } => match eval_within(expr, env, ctx, fuel) {
            Err(e) => Err(e),
            Ok(v) => apply_unop(*op, &v),
        },
        Expr::Binop { op, expr1, expr2 } => match eval_within(expr1, env, ctx, fuel) {
            Err(e) => Err(e),
            Ok(a) => match eval_within(expr2, env, ctx, fuel) {
                Err(e) => Err(e),
                Ok(b) => apply_binop(*op, &a, &b),
            },
        },
        Expr::If { cond, expr1, expr2 } => match eval_within(cond, env, ctx, fuel) {
            Err(e) => Err(e),
            Ok(v) => {
                proof {
                    ast::lemma_value_view(v);
                }
                match v {
                    Value::Bool { val } => {
                        if val {
                            eval_within(expr1, env, ctx, fuel)
                        } else {
                            eval_within(expr2, env, ctx, fuel)
                        }
                    },
                    _ => Err(runtime_error("Condition must be boolean")),
                }
            },
        },
        Expr::Func { params, body, .. } => {
            let closed = capture(env, expr);
            let copy: Expr = (**body).clone();
            Ok(Value::Closure { params: clone_params(params), body: Box::new(copy), env: closed })
        },
        Expr::Action(stmts) => {
            let closed = capture(env, expr);
            Ok(
                Value::ActionClosure {
                    stmts: clone_action_stmts(stmts),
                    env: closed,
                    service_net_id: ctx.service_net_id.to_owned(),
                },
            )
        },
        Expr::Call { func, args } => match eval_within(func, env, ctx, fuel) {
            Err(e) => Err(e),
            Ok(f) => match eval_all(args, env, ctx, fuel) {
                Err(e) => Err(e),
                Ok(vs) => {
                    proof {
                        ast::lemma_value_view(f);
                    }
                    match f {
                        Value::Closure { params, body, env: closed } => {
                            if fuel == 0 {
                                return Err(runtime_error("evaluation depth limit exceeded"));
                            }
                            let inner = bind(closed, &params, vs);
                            match &**func {
                                Expr::MemberAccess { service_name, .. } => {
                                    proof {
                                        ast::lemma_expr_view(**func);
                                    }
                                    let there = enter(ctx, *service_name);
                                    eval_within(&body, &inner, &there, fuel - 1)
                                },
                                _ => {
                                    proof {
                                        ast::lemma_expr_view(**func);
                                    }
                                    eval_within(&body, &inner, ctx, fuel - 1)
                                },
                            }
                        },
                        _ => Err(runtime_error("Attempting to call a non-function value")),
                    }
                },
            },
        },
        Expr::List(val) => match eval_all(val, env, ctx, fuel) {
            Err(e) => Err(e),
            Ok(vals) => Ok(Value::List { vals }),
        },
        Expr::Range { start, end } => match eval_within(start, env, ctx, fuel) {
            Err(e) => Err(e),
            Ok(a) => match eval_within(end, env, ctx, fuel) {
                Err(e) => Err(e),
                Ok(b) => {
                    proof {
                        ast::lemma_value_view(a);
                        ast::lemma_value_view(b);
                    }
                    match (a, b) {
                        (Value::Int { val: x }, Value::Int { val: y }) => Ok(
                            Value::Range { start: x, end: y },
                        ),
                        _ => Err(runtime_error("Range bounds must be integers")),
                    }
                },
            },
        },
        Expr::Html(template) => match render(&template.parts, env, ctx, fuel) {
            Err(e) => Err(e),
            Ok(page) => Ok(Value::Html(page)),
        },
        Expr::KeyVal { .. } | Expr::Tuple { .. } | Expr::Select { .. } | Expr::Table { .. }
        | Expr::Fold { .. } => Err(EvalError::NotImplemented),
    }
}

/// The values of several expressions.
fn eval_all(
    exprs: &Vec<Expr>,
    env: &Vec<(Symbol, Value)>,
    ctx: &EvalContext,
    fuel: usize,
) -> (res: Result<Vec<Value>, EvalError>)
    ensures
        match res {
            Ok(vs) => evaluated_all(
                ctx@,
                ast::env_view(env@),
                types::views(exprs@),
                0,
                Seq::empty(),
                fuel as nat,
            ) == Ok::<Seq<ValueV>, EvalErrorV>(types::views(vs@)),
            Err(e) => evaluated_all(
                ctx@,
                ast::env_view(env@),
                types::views(exprs@),
                0,
                Seq::empty(),
                fuel as nat,
            ) == Err::<Seq<ValueV>, EvalErrorV>(e@),
        },
    decreases fuel, *exprs, 1int,
{
    let ghost es = types::views(exprs@);
    let ghost ev = ast::env_view(env@);
    let mut vs: Vec<Value> = Vec::new();
    assert(types::views(vs@) =~= Seq::<ValueV>::empty());
    let mut i: usize = 0;
    while i < exprs.len()
        invariant
            i <= exprs@.len(),
            es == types::views(exprs@),
            ev == ast::env_view(env@),
            evaluated_all(ctx@, ev, es, 0, Seq::empty(), fuel as nat) == evaluated_all(
                ctx@,
                ev,
                es,
                i as int,
                types::views(vs@),
                fuel as nat,
            ),
            decreases_to!(*exprs => exprs@),
        decreases exprs@.len() - i,
    {
        assert(decreases_to!(exprs@ => exprs@[i as int]));
        assert(es[i as int] == exprs@[i as int]@);
        match eval_within(&exprs[i], env, ctx, fuel) {
            Err(e) => {
                return Err(e);
            },
            Ok(v) => {
                vs.push(v);
            },
        }
        i += 1;
    }
    Ok(vs)
}

/// What the definitions of a service are evaluated in.
fn enter<'a>(ctx: &EvalContext<'a>, svc: Symbol) -> (res: EvalContext<'a>)
    ensures
        res@ == entered(ctx@, svc),
{
    let owner = match ctx.services.get(&svc) {
        Some(s) => s.net_id.as_str(),
        None => ctx.service_net_id,
    };
    EvalContext {
        services: ctx.services,
        service_name: svc,
        service_net_id: owner,
        fetched: ctx.fetched,
    }
}

/// Where the event attribute begins that a text ends with.
fn find_event_attribute(s: &str) -> (res: Option<usize>)
    ensures
        match res {
            Some(k) => event_attribute(s@) == Some(k as int),
            None => event_attribute(s@) is None,
        },
{
    let n: usize = s.unicode_len();
    if n == 0 || s.get_char(n - 1) != '=' {
        return None;
    }
    let mut k: usize = n - 1;
    while k > 0 && is_letter(s.get_char(k - 1))
        invariant
            n == s@.len(),
            k < n,
            letters_begin(s@, n - 1) == letters_begin(s@, k as int),
        decreases k,
    {
        k -= 1;
    }
    if n - 1 - k > 2 && s.get_char(k) == 'o' && s.get_char(k + 1) == 'n' {
        Some(k)
    } else {
        None
    }
}

fn is_letter(c: char) -> (res: bool)
    ensures
        res == ('a' <= c <= 'z' || 'A' <= c <= 'Z'),
{
    ('a' <= c && c <= 'z') || ('A' <= c && c <= 'Z')
}

/// Put the value of an expression behind a page.
fn add_value(page: &mut Html, v: Value)
    ensures
        final(page)@ == with_value(old(page)@, v@),
{
    proof {
        ast::lemma_html_view(*page);
        ast::lemma_value_view(v);
    }
    let runs: bool = match &v {
        Value::ActionClosure { .. } => true,
        Value::Closure { .. } => true,
        _ => false,
    };
    let ghost before = page@;
    if runs {
        if let Some(k) = find_event_attribute(page.text.as_str()) {
            proof {
                lemma_letters_begin(page.text@, page.text@.len() - 1);
            }
            let n: usize = page.text.as_str().unicode_len();
            let event = page.text.as_str().substring_char(k, n - 1).to_owned();
            let text = page.text.as_str().substring_char(0, k).to_owned();
            let ghost hs = page.handlers@;
            page.text = text;
            page.handlers.push((event, v));
            proof {
                ast::lemma_html_view(*page);
            }
            assert(ast::handlers_view(page.handlers@) =~= ast::handlers_view(hs).push(
                (event@, v@),
            ));
            return;
        }
    }
    page.text.append(show(&v).as_str());
    proof {
        ast::lemma_html_view(*page);
    }
}

/// A run of letters begins before its end.
proof fn lemma_letters_begin(s: Seq<char>, p: int)
    requires
        0 <= p <= s.len(),
    ensures
        0 <= letters_begin(s, p) <= p,
    decreases p,
{
    if p > 0 && ('a' <= s[p - 1] <= 'z' || 'A' <= s[p - 1] <= 'Z') {
        lemma_letters_begin(s, p - 1);
    }
}

/// The page of a template.
fn render(
    parts: &Vec<HtmlPart>,
    env: &Vec<(Symbol, Value)>,
    ctx: &EvalContext,
    fuel: usize,
) -> (res: Result<Html, EvalError>)
    ensures
        match res {
            Ok(page) => rendered(
                ctx@,
                ast::env_view(env@),
                types::views(parts@),
                0,
                empty_page(),
                fuel as nat,
            ) == Ok::<HtmlV, EvalErrorV>(page@),
            Err(e) => rendered(
                ctx@,
                ast::env_view(env@),
                types::views(parts@),
                0,
                empty_page(),
                fuel as nat,
            ) == Err::<HtmlV, EvalErrorV>(e@),
        },
    decreases fuel, *parts, 1int,
{
    let ghost ps = types::views(parts@);
    let ghost ev = ast::env_view(env@);
    let mut page = Html { text: String::new(), handlers: Vec::new() };
    proof {
        ast::lemma_html_view(page);
    }
    assert(page@.text =~= Seq::<char>::empty());
    assert(page@.handlers =~= Seq::<(Seq<char>, ValueV)>::empty());
    let mut i: usize = 0;
    while i < parts.len()
        invariant
            i <= parts@.len(),
            ps == types::views(parts@),
            ev == ast::env_view(env@),
            rendered(ctx@, ev, ps, 0, empty_page(), fuel as nat) == rendered(
                ctx@,
                ev,
                ps,
                i as int,
                page@,
                fuel as nat,
            ),
            decreases_to!(*parts => parts@),
        decreases parts@.len() - i,
    {
        assert(decreases_to!(parts@ => parts@[i as int]));
        assert(ps[i as int] == parts@[i as int]@);
        proof {
            ast::lemma_html_part_view(parts@[i as int]);
        }
        match &parts[i] {
            HtmlPart::Text(s) => {
                proof {
                    ast::lemma_html_view(page);
                }
                page.text.append(s.as_str());
                proof {
                    ast::lemma_html_view(page);
                }
            },
            HtmlPart::Expr(e) => {
                assert(decreases_to!(parts@[i as int] => e));
                match eval_within(e, env, ctx, fuel) {
                    Err(err) => {
                        return Err(err);
                    },
                    Ok(v) => add_value(&mut page, v),
                }
            },
        }
        i += 1;
    }
    Ok(page)
}

/// Where evaluation does not stop for its depth, one more step of depth changes nothing.
#[verifier::rlimit(60)]
proof fn lemma_one_deeper(cx: ContextV, env: Seq<(Symbol, ValueV)>, e: ExprV, fuel: nat)
    requires
        evaluated(cx, env, e, fuel) != Err::<ValueV, EvalErrorV>(too_deep()),
    ensures
        evaluated(cx, env, e, fuel + 1) == evaluated(cx, env, e, fuel),
    decreases fuel, e, 0int,
{
    match e {
        ExprV::Variable { name } => {
            if env_value(env, name) is None {
                if let Found::By(d) = found(cx, (cx.svc, name)) {
                    lemma_one_deeper(cx, Seq::empty(), d, (fuel - 1) as nat);
                }
            }
        },
        ExprV::MemberAccess { service_name, member_name } => {
            if let Found::By(d) = found(cx, (service_name, member_name)) {
                lemma_one_deeper(
                    entered(cx, service_name),
                    Seq::empty(),
                    d,
                    (fuel - 1) as nat,
                );
            }
        },
        ExprV::Unop { expr, .. } => {
            lemma_one_deeper(cx, env, *expr, fuel);
        },
        ExprV::Binop { expr1, expr2, .. } => {
            lemma_one_deeper(cx, env, *expr1, fuel);
            if evaluated(cx, env, *expr1, fuel) is Ok {
                lemma_one_deeper(cx, env, *expr2, fuel);
            }
        },
        ExprV::If { cond, expr1, expr2 } => {
            lemma_one_deeper(cx, env, *cond, fuel);
            if let Ok(ValueV::Bool { val }) = evaluated(cx, env, *cond, fuel) {
                if val {
                    lemma_one_deeper(cx, env, *expr1, fuel);
                } else {
                    lemma_one_deeper(cx, env, *expr2, fuel);
                }
            }
        },
        ExprV::Call { func, args } => {
            lemma_one_deeper(cx, env, *func, fuel);
            if let Ok(f) = evaluated(cx, env, *func, fuel) {
                lemma_all_deeper(cx, env, args, 0, Seq::empty(), fuel);
                if let Ok(vs) = evaluated_all(cx, env, args, 0, Seq::empty(), fuel) {
                    if let ValueV::Closure { params, body, env: closed } = f {
                        lemma_one_deeper(
                            callee_context(cx, *func),
                            bound(closed, params, vs),
                            *body,
                            (fuel - 1) as nat,
                        );
                    }
                }
            }
        },
        ExprV::List(val) => {
            lemma_all_deeper(cx, env, val, 0, Seq::empty(), fuel);
        },
        ExprV::Range { start, end } => {
            lemma_one_deeper(cx, env, *start, fuel);
            if evaluated(cx, env, *start, fuel) is Ok {
                lemma_one_deeper(cx, env, *end, fuel);
            }
        },
        ExprV::Html(parts) => {
            lemma_rendered_deeper(cx, env, parts, 0, empty_page(), fuel);
        },
        _ => {},
    }
}

/// The same of several expressions.
proof fn lemma_all_deeper(
    cx: ContextV,
    env: Seq<(Symbol, ValueV)>,
    es: Seq<ExprV>,
    i: int,
    vals: Seq<ValueV>,
    fuel: nat,
)
    requires
        evaluated_all(cx, env, es, i, vals, fuel) != Err::<Seq<ValueV>, EvalErrorV>(too_deep()),
    ensures
        evaluated_all(cx, env, es, i, vals, fuel + 1) == evaluated_all(
            cx,
            env,
            es,
            i,
            vals,
            fuel,
        ),
    decreases fuel, es, es.len() - i,
{
    if 0 <= i < es.len() {
        lemma_one_deeper(cx, env, es[i], fuel);
        if let Ok(v) = evaluated(cx, env, es[i], fuel) {
            lemma_all_deeper(cx, env, es, i + 1, vals.push(v), fuel);
        }
    }
}

/// The same of a template.
proof fn lemma_rendered_deeper(
    cx: ContextV,
    env: Seq<(Symbol, ValueV)>,
    parts: Seq<HtmlPartV>,
    i: int,
    before: HtmlV,
    fuel: nat,
)
    requires
        rendered(cx, env, parts, i, before, fuel) != Err::<HtmlV, EvalErrorV>(too_deep()),
    ensures
        rendered(cx, env, parts, i, before, fuel + 1) == rendered(
            cx,
            env,
            parts,
            i,
            before,
            fuel,
        ),
    decreases fuel, parts, parts.len() - i,
{
    if 0 <= i < parts.len() {
        match parts[i] {
            HtmlPartV::Text(s) => {
                let after = HtmlV { text: before.text + s, ..before };
                lemma_rendered_deeper(cx, env, parts, i + 1, after, fuel);
            },
            HtmlPartV::Expr(e) => {
                lemma_one_deeper(cx, env, e, fuel);
                if let Ok(v) = evaluated(cx, env, e, fuel) {
                    lemma_rendered_deeper(cx, env, parts, i + 1, with_value(before, v), fuel);
                }
            },
        }
    }
}

/// The depth that evaluation is allowed only decides whether it stops: where it does not stop
/// for its depth, every greater depth gives the same value, or the same error.
pub proof fn depth_does_not_change_values(
    cx: ContextV,
    env: Seq<(Symbol, ValueV)>,
    e: ExprV,
    fuel: nat,
    more: nat,
)
    requires
        evaluated(cx, env, e, fuel) != Err::<ValueV, EvalErrorV>(too_deep()),
        fuel <= more,
    ensures
        evaluated(cx, env, e, more) == evaluated(cx, env, e, fuel),
    decreases more - fuel,
{
    if fuel < more {
        lemma_one_deeper(cx, env, e, fuel);
        depth_does_not_change_values(cx, env, e, fuel + 1, more);
    }
}

} // verus!
