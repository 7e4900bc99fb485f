//! Syntax trees of programs, and the values they compute.

use vstd::prelude::*;

use crate::runtime::interner::Symbol;
use crate::runtime::tt::types;
use crate::runtime::tt::types::{clone_params, clone_type_opt, Param, ParamV, Type, TypeV};

verus! {

/// A binary operator.
#[derive(Debug, Clone, Copy, PartialEq, Eq, Structural)]
pub enum BinOp {
    Add,
    Sub,
    Mul,
    Div,
    Eq,
    Lt,
    Gt,
    And,
    Or,
}

/// A unary operator.
#[derive(Debug, Clone, Copy, PartialEq, Eq, Structural)]
pub enum UnOp {
    Neg,
    Not,
}

/// A column of a table.
#[derive(Debug, PartialEq, Eq)]
pub struct Field {
    pub name: Symbol,
    pub ty: Type,
}

/// What a `Field` stands for.
pub struct FieldV {
    pub name: Symbol,
    pub ty: TypeV,
}

/// A rendered page, and the actions bound to its events.
#[derive(Debug, PartialEq, Eq)]
pub struct Html {
    pub text: String,
    pub handlers: Vec<(String, Value)>,
}

/// A value.
#[derive(Debug, PartialEq, Eq)]
#[allow(inconsistent_fields)]
pub enum Value {
    Int { val: i32 },
    Bool { val: bool },
    String { val: String },
    Html(Html),
    Closure { params: Vec<Param>, body: Box<Expr>, env: Vec<(Symbol, Value)> },
    ActionClosure { stmts: Vec<ActionStmt>, env: Vec<(Symbol, Value)>, service_net_id: String },
    List { vals: Vec<Value> },
    Range { start: i32, end: i32 },
}

/// A piece of an HTML template.
#[derive(Debug, PartialEq, Eq)]
pub enum HtmlPart {
    Text(String),
    Expr(Expr),
}

/// A page with expressions in it.
#[derive(Debug, PartialEq, Eq)]
pub struct HtmlTemplate {
    pub parts: Vec<HtmlPart>,
}

/// An expression.
#[derive(Debug, PartialEq, Eq)]
#[allow(inconsistent_fields)]
pub enum Expr {
    Literal { val: Value },
    Variable { name: Symbol },
    KeyVal { name: Symbol, value: Box<Expr> },
    Tuple { val: Vec<Expr> },
    List(Vec<Expr>),
    Range { start: Box<Expr>, end: Box<Expr> },
    Unop { op: UnOp, expr: Box<Expr> },
    Binop { op: BinOp, expr1: Box<Expr>, expr2: Box<Expr> },
    If { cond: Box<Expr>, expr1: Box<Expr>, expr2: Box<Expr> },
    Func { params: Vec<Param>, body: Box<Expr>, return_ty: Option<Type> },
    Call { func: Box<Expr>, args: Vec<Expr> },
    Action(Vec<ActionStmt>),
    MemberAccess { service_name: Symbol, member_name: Symbol },
    Select { table_name: Symbol, column_names: Vec<Symbol>, where_clause: Box<Expr> },
    Table { fields: Vec<Field> },
    Fold { table_name: Symbol, column_name: Symbol, operation: Box<Expr>, identity: Box<Expr> },
    Html(HtmlTemplate),
}

/// A statement of an action.
#[derive(Debug, PartialEq, Eq)]
#[allow(inconsistent_fields)]
pub enum ActionStmt {
    Let { name: Symbol, ty: Option<Type>, expr: Expr },
    Assign { name: Symbol, expr: Expr },
    Do(Expr),
    Assert(Expr, String),
    Expr(Expr),
    Insert { table_name: Symbol, row: Expr },
    For { var: Symbol, iterable: Expr, body: Vec<ActionStmt> },
}

/// A declaration of a service.
#[derive(Debug, PartialEq, Eq)]
#[allow(inconsistent_fields)]
pub enum Decl {
    VarDecl { name: Symbol, ty: Option<Type>, val: Expr },
    DefDecl { name: Symbol, ty: Option<Type>, val: Expr, is_pub: bool },
    TableDecl { name: Symbol, fields: Vec<Field> },
}

/// A top-level statement.
#[derive(Debug, PartialEq, Eq)]
#[allow(inconsistent_fields)]
pub enum Stmt {
    Service { name: Symbol, decls: Vec<Decl> },
    Import { path: String, service_name: Symbol },
    Test { service_name: Symbol, stmts: Vec<ActionStmt> },
    ActionStmt(ActionStmt),
    Watch { expr: Expr },
    Update { service_name: Symbol, decls: Vec<Decl> },
    Atomic { updates: Vec<Stmt> },
    Connect { address: String },
}

/// What an `Html` stands for.
pub struct HtmlV {
    pub text: Seq<char>,
    pub handlers: Seq<(Seq<char>, ValueV)>,
}

/// What a `Value` stands for.
#[allow(inconsistent_fields)]
pub enum ValueV {
    Int { val: int },
    Bool { val: bool },
    String { val: Seq<char> },
    Html(HtmlV),
    Closure { params: Seq<ParamV>, body: Box<ExprV>, env: Seq<(Symbol, ValueV)> },
    ActionClosure {
        stmts: Seq<ActionStmtV>,
        env: Seq<(Symbol, ValueV)>,
        service_net_id: Seq<char>,
    },
    List { vals: Seq<ValueV> },
    Range { start: int, end: int },
}

/// What an `HtmlPart` stands for.
pub enum HtmlPartV {
    Text(Seq<char>),
    Expr(ExprV),
}

/// What an `Expr` stands for.
#[allow(inconsistent_fields)]
pub enum ExprV {
    Literal { val: ValueV },
    Variable { name: Symbol },
    KeyVal { name: Symbol, value: Box<ExprV> },
    Tuple { val: Seq<ExprV> },
    List(Seq<ExprV>),
    Range { start: Box<ExprV>, end: Box<ExprV> },
    Unop { op: UnOp, expr: Box<ExprV> },
    Binop { op: BinOp, expr1: Box<ExprV>, expr2: Box<ExprV> },
    If { cond: Box<ExprV>, expr1: Box<ExprV>, expr2: Box<ExprV> },
    Func { params: Seq<ParamV>, body: Box<ExprV>, return_ty: Option<TypeV> },
    Call { func: Box<ExprV>, args: Seq<ExprV> },
    Action(Seq<ActionStmtV>),
    MemberAccess { service_name: Symbol, member_name: Symbol },
    Select { table_name: Symbol, column_names: Seq<Symbol>, where_clause: Box<ExprV> },
    Table { fields: Seq<FieldV> },
    Fold { table_name: Symbol, column_name: Symbol, operation: Box<ExprV>, identity: Box<ExprV> },
    Html(Seq<HtmlPartV>),
}

/// What an `ActionStmt` stands for.
#[allow(inconsistent_fields)]
pub enum ActionStmtV {
    Let { name: Symbol, ty: Option<TypeV>, expr: ExprV },
    Assign { name: Symbol, expr: ExprV },
    Do(ExprV),
    Assert(ExprV, Seq<char>),
    Expr(ExprV),
    Insert { table_name: Symbol, row: ExprV },
    For { var: Symbol, iterable: ExprV, body: Seq<ActionStmtV> },
}

/// What a `Decl` stands for.
#[allow(inconsistent_fields)]
pub enum DeclV {
    VarDecl { name: Symbol, ty: Option<TypeV>, val: ExprV },
    DefDecl { name: Symbol, ty: Option<TypeV>, val: ExprV, is_pub: bool },
    TableDecl { name: Symbol, fields: Seq<FieldV> },
}

/// What a `Stmt` stands for.
#[allow(inconsistent_fields)]
pub enum StmtV {
    Service { name: Symbol, decls: Seq<DeclV> },
    Import { path: Seq<char>, service_name: Symbol },
    Test { service_name: Symbol, stmts: Seq<ActionStmtV> },
    ActionStmt(ActionStmtV),
    Watch { expr: ExprV },
    Update { service_name: Symbol, decls: Seq<DeclV> },
    Atomic { updates: Seq<StmtV> },
    Connect { address: Seq<char> },
}

impl View for Field {
    type V = FieldV;

    open spec fn view(&self) -> FieldV {
        FieldV { name: self.name, ty: self.ty@ }
    }
}

pub closed spec fn html_view(h: Html) -> HtmlV
    decreases h,
{
    HtmlV {
        text: h.text@,
        handlers: Seq::new(
            h.handlers@.len(),
            |i: int|
                if 0 <= i < h.handlers@.len() {
                    (h.handlers@[i].0@, value_view(h.handlers@[i].1))
                } else {
                    arbitrary()
                },
        ),
    }
}

pub closed spec fn value_view(v: Value) -> ValueV
    decreases v,
{
    match v {
        Value::Int { val } => ValueV::Int { val: val as int },
        Value::Bool { val } => ValueV::Bool { val },
        Value::String { val } => ValueV::String { val: val@ },
        Value::Html(h) => ValueV::Html(html_view(h)),
        Value::Closure { params, body, env } => ValueV::Closure {
            params: types::views(params@),
            body: Box::new(expr_view(*body)),
            env: Seq::new(
                env@.len(),
                |i: int|
                    if 0 <= i < env@.len() {
                        (env@[i].0, value_view(env@[i].1))
                    } else {
                        arbitrary()
                    },
            ),
        },
        Value::ActionClosure { stmts, env, service_net_id } => ValueV::ActionClosure {
            stmts: Seq::new(
                stmts@.len(),
                |i: int|
                    if 0 <= i < stmts@.len() {
                        action_stmt_view(stmts@[i])
                    } else {
                        arbitrary()
                    },
            ),
            env: Seq::new(
                env@.len(),
                |i: int|
                    if 0 <= i < env@.len() {
                        (env@[i].0, value_view(env@[i].1))
                    } else {
                        arbitrary()
                    },
            ),
            service_net_id: service_net_id@,
        },
        Value::List { vals } => ValueV::List { vals: Seq::new(
                vals@.len(),
                |i: int|
                    if 0 <= i < vals@.len() {
                        value_view(vals@[i])
                    } else {
                        arbitrary()
                    },
            ) },
        Value::Range { start, end } => ValueV::Range { start: start as int, end: end as int },
    }
}

pub closed spec fn html_part_view(p: HtmlPart) -> HtmlPartV
    decreases p,
{
    match p {
        HtmlPart::Text(s) => HtmlPartV::Text(s@),
        HtmlPart::Expr(e) => HtmlPartV::Expr(expr_view(e)),
    }
}

pub closed spec fn template_view(t: HtmlTemplate) -> Seq<HtmlPartV>
    decreases t,
{
    Seq::new(
        t.parts@.len(),
        |i: int|
            if 0 <= i < t.parts@.len() {
                html_part_view(t.parts@[i])
            } else {
                arbitrary()
            },
    )
}

pub closed spec fn expr_view(e: Expr) -> ExprV
    decreases e,
{
    match e {
        Expr::Literal { val } => ExprV::Literal { val: value_view(val) },
        Expr::Variable { name } => ExprV::Variable { name },
        Expr::KeyVal { name, value } => ExprV::KeyVal { name, value: Box::new(expr_view(*value)) },
        Expr::Tuple { val } => ExprV::Tuple { val: Seq::new(
                val@.len(),
                |i: int|
                    if 0 <= i < val@.len() {
                        expr_view(val@[i])
                    } else {
                        arbitrary()
                    },
            ) },
        Expr::List(val) => ExprV::List(Seq::new(
                val@.len(),
                |i: int|
                    if 0 <= i < val@.len() {
                        expr_view(val@[i])
                    } else {
                        arbitrary()
                    },
            )),
        Expr::Range { start, end } => ExprV::Range {
            start: Box::new(expr_view(*start)),
            end: Box::new(expr_view(*end)),
        },
        Expr::Unop { op, expr } => ExprV::Unop { op, expr: Box::new(expr_view(*expr)) },
        Expr::Binop { op, expr1, expr2 } => ExprV::Binop {
            op,
            expr1: Box::new(expr_view(*expr1)),
            expr2: Box::new(expr_view(*expr2)),
        },
        Expr::If { cond, expr1, expr2 } => ExprV::If {
            cond: Box::new(expr_view(*cond)),
            expr1: Box::new(expr_view(*expr1)),
            expr2: Box::new(expr_view(*expr2)),
        },
        Expr::Func { params, body, return_ty } => ExprV::Func {
            params: types::views(params@),
            body: Box::new(expr_view(*body)),
            return_ty: types::opt_view(return_ty),
        },
        Expr::Call { func, args } => ExprV::Call {
            func: Box::new(expr_view(*func)),
            args: Seq::new(
                args@.len(),
                |i: int|
                    if 0 <= i < args@.len() {
                        expr_view(args@[i])
                    } else {
                        arbitrary()
                    },
            ),
        },
        Expr::Action(stmts) => ExprV::Action(Seq::new(
                stmts@.len(),
                |i: int|
                    if 0 <= i < stmts@.len() {
                        action_stmt_view(stmts@[i])
                    } else {
                        arbitrary()
                    },
            )),
        Expr::MemberAccess { service_name, member_name } => ExprV::MemberAccess {
            service_name,
            member_name,
        },
        Expr::Select { table_name, column_names, where_clause } => ExprV::Select {
            table_name,
            column_names: column_names@,
            where_clause: Box::new(expr_view(*where_clause)),
        },
        Expr::Table { fields } => ExprV::Table { fields: types::views(fields@) },
        Expr::Fold { table_name, column_name, operation, identity } => ExprV::Fold {
            table_name,
            column_name,
            operation: Box::new(expr_view(*operation)),
            identity: Box::new(expr_view(*identity)),
        },
        Expr::Html(t) => ExprV::Html(template_view(t)),
    }
}

pub closed spec fn action_stmt_view(s: ActionStmt) -> ActionStmtV
    decreases s,
{
    match s {
        ActionStmt::Let { name, ty, expr } => ActionStmtV::Let {
            name,
            ty: types::opt_view(ty),
            expr: expr_view(expr),
        },
        ActionStmt::Assign { name, expr } => ActionStmtV::Assign { name, expr: expr_view(expr) },
        ActionStmt::Do(e) => ActionStmtV::Do(expr_view(e)),
        ActionStmt::Assert(e, m) => ActionStmtV::Assert(expr_view(e), m@),
        ActionStmt::Expr(e) => ActionStmtV::Expr(expr_view(e)),
        ActionStmt::Insert { table_name, row } => ActionStmtV::Insert {
            table_name,
            row: expr_view(row),
        },
        ActionStmt::For { var, iterable, body } => ActionStmtV::For {
            var,
            iterable: expr_view(iterable),
            body: Seq::new(
                body@.len(),
                |i: int|
                    if 0 <= i < body@.len() {
                        action_stmt_view(body@[i])
                    } else {
                        arbitrary()
                    },
            ),
        },
    }
}

impl View for Value {
    type V = ValueV;

    open spec fn view(&self) -> ValueV {
        value_view(*self)
    }
}

impl View for Html {
    type V = HtmlV;

    open spec fn view(&self) -> HtmlV {
        html_view(*self)
    }
}

impl View for HtmlPart {
    type V = HtmlPartV;

    open spec fn view(&self) -> HtmlPartV {
        html_part_view(*self)
    }
}

impl View for HtmlTemplate {
    type V = Seq<HtmlPartV>;

    open spec fn view(&self) -> Seq<HtmlPartV> {
        template_view(*self)
    }
}

impl View for Expr {
    type V = ExprV;

    open spec fn view(&self) -> ExprV {
        expr_view(*self)
    }
}

impl View for ActionStmt {
    type V = ActionStmtV;

    open spec fn view(&self) -> ActionStmtV {
        action_stmt_view(*self)
    }
}

impl View for Decl {
    type V = DeclV;

    open spec fn view(&self) -> DeclV {
        match *self {
            Decl::VarDecl { name, ty, val } => DeclV::VarDecl {
                name,
                ty: types::opt_view(ty),
                val: val@,
            },
            Decl::DefDecl { name, ty, val, is_pub } => DeclV::DefDecl {
                name,
                ty: types::opt_view(ty),
                val: val@,
                is_pub,
            },
            Decl::TableDecl { name, fields } => DeclV::TableDecl {
                name,
                fields: types::views(fields@),
            },
        }
    }
}

pub closed spec fn stmt_view(s: Stmt) -> StmtV
    decreases s,
{
    match s {
        Stmt::Service { name, decls } => StmtV::Service { name, decls: types::views(decls@) },
        Stmt::Import { path, service_name } => StmtV::Import { path: path@, service_name },
        Stmt::Test { service_name, stmts } => StmtV::Test {
            service_name,
            stmts: types::views(stmts@),
        },
        Stmt::ActionStmt(a) => StmtV::ActionStmt(a@),
        Stmt::Watch { expr } => StmtV::Watch { expr: expr@ },
        Stmt::Update { service_name, decls } => StmtV::Update {
            service_name,
            decls: types::views(decls@),
        },
        Stmt::Atomic { updates } => StmtV::Atomic { updates: Seq::new(
                updates@.len(),
                |i: int|
                    if 0 <= i < updates@.len() {
                        stmt_view(updates@[i])
                    } else {
                        arbitrary()
                    },
            ) },
        Stmt::Connect { address } => StmtV::Connect { address: address@ },
    }
}

impl View for Stmt {
    type V = StmtV;

    open spec fn view(&self) -> StmtV {
        stmt_view(*self)
    }
}

/// The name that a declaration introduces.
pub open spec fn decl_name(d: DeclV) -> Symbol {
    match d {
        DeclV::VarDecl { name, .. } => name,
        DeclV::DefDecl { name, .. } => name,
        DeclV::TableDecl { name, .. } => name,
    }
}

/// The expression of a variable or a definition.
pub open spec fn decl_val(d: DeclV) -> Option<ExprV> {
    match d {
        DeclV::VarDecl { val, .. } => Some(val),
        DeclV::DefDecl { val, .. } => Some(val),
        DeclV::TableDecl { .. } => None,
    }
}

/// The declared type of a variable or a definition.
pub open spec fn decl_ty(d: DeclV) -> Option<TypeV> {
    match d {
        DeclV::VarDecl { ty, .. } => ty,
        DeclV::DefDecl { ty, .. } => ty,
        DeclV::TableDecl { .. } => None,
    }
}

/// The services of a program, in order: their names and declarations.
pub open spec fn services(program: Seq<StmtV>) -> Seq<(Symbol, Seq<DeclV>)>
    decreases program.len(),
{
    if program.len() == 0 {
        Seq::empty()
    } else {
        let rest = services(program.drop_last());
        match program.last() {
            StmtV::Service { name, decls } => rest.push((name, decls)),
            _ => rest,
        }
    }
}

/// The services of the first statements come first among those of the program.
pub proof fn lemma_services_prefix(program: Seq<StmtV>, i: int)
    requires
        0 <= i <= program.len(),
    ensures
        services(program.take(i)).len() <= services(program).len(),
        forall|k: int|
            0 <= k < services(program.take(i)).len() ==> services(program)[k]
                == #[trigger] services(program.take(i))[k],
    decreases program.len() - i,
{
    if i < program.len() {
        lemma_services_prefix(program, i + 1);
        let next = services(program.take(i + 1));
        assert(program.take(i + 1).drop_last() =~= program.take(i));
        assert forall|k: int| 0 <= k < services(program.take(i)).len() implies services(program)[k]
            == #[trigger] services(program.take(i))[k] by {
            assert(next[k] == services(program.take(i))[k]);
        }
    } else {
        assert(program.take(i) =~= program);
    }
}

/// Pairs whose second parts are values, by their views.
pub open spec fn env_view(env: Seq<(Symbol, Value)>) -> Seq<(Symbol, ValueV)> {
    env.map_values(|p: (Symbol, Value)| (p.0, p.1@))
}

/// Event handlers by their views.
pub open spec fn handlers_view(hs: Seq<(String, Value)>) -> Seq<(Seq<char>, ValueV)> {
    hs.map_values(|p: (String, Value)| (p.0@, p.1@))
}


/// The view of a page, through `handlers_view`.
pub proof fn lemma_html_view(h: Html)
    ensures
        h@ == (HtmlV { text: h.text@, handlers: handlers_view(h.handlers@) }),
{
    assert(h@.handlers =~= handlers_view(h.handlers@));
}

/// The view of a template, through `views`.
pub proof fn lemma_template_view(t: HtmlTemplate)
    ensures
        t@ == types::views(t.parts@),
{
    assert(t@ =~= types::views(t.parts@));
}

/// The view of a piece of a template.
pub proof fn lemma_html_part_view(p: HtmlPart)
    ensures
        match p {
            HtmlPart::Text(a) => p@ == HtmlPartV::Text(a@),
            HtmlPart::Expr(a) => p@ == HtmlPartV::Expr(a@),
        },
{
}

/// The view of a value.
pub proof fn lemma_value_view(v: Value)
    ensures
        match v {
            Value::Int { val } => v@ == (ValueV::Int { val: val as int }),
            Value::Bool { val } => v@ == (ValueV::Bool { val }),
            Value::String { val } => v@ == (ValueV::String { val: val@ }),
            Value::Html(a) => v@ == ValueV::Html(a@),
            Value::Closure { params, body, env } => v@ == (ValueV::Closure {
                params: types::views(params@),
                body: Box::new(body@),
                env: env_view(env@),
            }),
            Value::ActionClosure { stmts, env, service_net_id } => v@ == (ValueV::ActionClosure {
                stmts: types::views(stmts@),
                env: env_view(env@),
                service_net_id: service_net_id@,
            }),
            Value::List { vals } => v@ == (ValueV::List { vals: types::views(vals@) }),
            Value::Range { start, end } => v@ == (ValueV::Range {
                start: start as int,
                end: end as int,
            }),
        },
{
    match v {
        Value::Closure { params, body, env } => {
            assert(v@->Closure_env =~= env_view(env@));
        },
        Value::ActionClosure { stmts, env, service_net_id } => {
            assert(v@->stmts =~= types::views(stmts@));
            assert(v@->ActionClosure_env =~= env_view(env@));
        },
        Value::List { vals } => {
            assert(v@->vals =~= types::views(vals@));
        },
        _ => {},
    }
}

/// The view of an expression.
pub proof fn lemma_expr_view(e: Expr)
    ensures
        match e {
            Expr::Literal { val } => e@ == (ExprV::Literal { val: val@ }),
            Expr::Variable { name } => e@ == (ExprV::Variable { name }),
            Expr::KeyVal { name, value } => e@ == (ExprV::KeyVal { name, value: Box::new(value@) }),
            Expr::Tuple { val } => e@ == (ExprV::Tuple { val: types::views(val@) }),
            Expr::List(a) => e@ == ExprV::List(types::views(a@)),
            Expr::Range { start, end } => e@ == (ExprV::Range {
                start: Box::new(start@),
                end: Box::new(end@),
            }),
            Expr::Unop { op, expr } => e@ == (ExprV::Unop { op, expr: Box::new(expr@) }),
            Expr::Binop { op, expr1, expr2 } => e@ == (ExprV::Binop {
                op,
                expr1: Box::new(expr1@),
                expr2: Box::new(expr2@),
            }),
            Expr::If { cond, expr1, expr2 } => e@ == (ExprV::If {
                cond: Box::new(cond@),
                expr1: Box::new(expr1@),
                expr2: Box::new(expr2@),
            }),
            Expr::Func { params, body, return_ty } => e@ == (ExprV::Func {
                params: types::views(params@),
                body: Box::new(body@),
                return_ty: types::opt_view(return_ty),
            }),
            Expr::Call { func, args } => e@ == (ExprV::Call {
                func: Box::new(func@),
                args: types::views(args@),
            }),
            Expr::Action(a) => e@ == ExprV::Action(types::views(a@)),
            Expr::MemberAccess { service_name, member_name } => e@ == (ExprV::MemberAccess {
                service_name,
                member_name,
            }),
            Expr::Select { table_name, column_names, where_clause } => e@ == (ExprV::Select {
                table_name,
                column_names: column_names@,
                where_clause: Box::new(where_clause@),
            }),
            Expr::Table { fields } => e@ == (ExprV::Table { fields: types::views(fields@) }),
            Expr::Fold { table_name, column_name, operation, identity } => e@ == (ExprV::Fold {
                table_name,
                column_name,
                operation: Box::new(operation@),
                identity: Box::new(identity@),
            }),
            Expr::Html(a) => e@ == ExprV::Html(types::views(a.parts@)),
        },
{
    match e {
        Expr::Tuple { val } => {
            assert(e@->Tuple_val =~= types::views(val@));
        },
        Expr::List(val) => {
            assert(e@->List_0 =~= types::views(val@));
        },
        Expr::Call { func, args } => {
            assert(e@->args =~= types::views(args@));
        },
        Expr::Action(stmts) => {
            assert(e@->Action_0 =~= types::views(stmts@));
        },
        Expr::Html(t) => {
            lemma_template_view(t);
        },
        _ => {},
    }
}

/// The view of a statement.
pub proof fn lemma_action_stmt_view(s: ActionStmt)
    ensures
        match s {
            ActionStmt::Let { name, ty, expr } => s@ == (ActionStmtV::Let {
                name,
                ty: types::opt_view(ty),
                expr: expr@,
            }),
            ActionStmt::Assign { name, expr } => s@ == (ActionStmtV::Assign { name, expr: expr@ }),
            ActionStmt::Do(a) => s@ == ActionStmtV::Do(a@),
            ActionStmt::Assert(a, b) => s@ == ActionStmtV::Assert(a@, b@),
            ActionStmt::Expr(a) => s@ == ActionStmtV::Expr(a@),
            ActionStmt::Insert { table_name, row } => s@ == (ActionStmtV::Insert {
                table_name,
                row: row@,
            }),
            ActionStmt::For { var, iterable, body } => s@ == (ActionStmtV::For {
                var,
                iterable: iterable@,
                body: types::views(body@),
            }),
        },
{
    if let ActionStmt::For { var, iterable, body } = s {
        assert(s@->body =~= types::views(body@));
    }
}

/// The view of a top-level statement.
pub proof fn lemma_stmt_view(s: Stmt)
    ensures
        match s {
            Stmt::Service { name, decls } => s@ == (StmtV::Service {
                name,
                decls: types::views(decls@),
            }),
            Stmt::Import { path, service_name } => s@ == (StmtV::Import {
                path: path@,
                service_name,
            }),
            Stmt::Test { service_name, stmts } => s@ == (StmtV::Test {
                service_name,
                stmts: types::views(stmts@),
            }),
            Stmt::ActionStmt(a) => s@ == StmtV::ActionStmt(a@),
            Stmt::Watch { expr } => s@ == (StmtV::Watch { expr: expr@ }),
            Stmt::Update { service_name, decls } => s@ == (StmtV::Update {
                service_name,
                decls: types::views(decls@),
            }),
            Stmt::Atomic { updates } => s@ == (StmtV::Atomic { updates: types::views(updates@) }),
            Stmt::Connect { address } => s@ == (StmtV::Connect { address: address@ }),
        },
{
    if let Stmt::Atomic { updates } = s {
        assert(s@->updates =~= types::views(updates@));
    }
}

/// The view of `Value::Int`.
pub broadcast proof fn view_value_int(val: i32)
    ensures
        #[trigger] value_view(Value::Int { val }) == (ValueV::Int { val: val as int }),
{
}

/// The view of `Value::Bool`.
pub broadcast proof fn view_value_bool(val: bool)
    ensures
        #[trigger] value_view(Value::Bool { val }) == (ValueV::Bool { val }),
{
}

/// The view of `Value::String`.
pub broadcast proof fn view_value_string(val: String)
    ensures
        #[trigger] value_view(Value::String { val }) == (ValueV::String { val: val@ }),
{
}

/// The view of `Value::Html`.
pub broadcast proof fn view_value_html(a: Html)
    ensures
        #[trigger] value_view(Value::Html(a)) == ValueV::Html(a@),
{
}

/// The view of `Value::Closure`.
pub broadcast proof fn view_value_closure(
    params: Vec<Param>,
    body: Box<Expr>,
    env: Vec<(Symbol, Value)>,
)
    ensures
        #[trigger] value_view(Value::Closure { params, body, env }) == (ValueV::Closure {
            params: types::views(params@),
            body: Box::new(body@),
            env: env_view(env@),
        }),
{
    lemma_value_view(Value::Closure { params, body, env });
}

/// The view of `Value::ActionClosure`.
pub broadcast proof fn view_value_action_closure(
    stmts: Vec<ActionStmt>,
    env: Vec<(Symbol, Value)>,
    service_net_id: String,
)
    ensures
        #[trigger] value_view(
            Value::ActionClosure { stmts, env, service_net_id },
        ) == (ValueV::ActionClosure {
            stmts: types::views(stmts@),
            env: env_view(env@),
            service_net_id: service_net_id@,
        }),
{
    lemma_value_view(Value::ActionClosure { stmts, env, service_net_id });
}

/// The view of `Value::List`.
pub broadcast proof fn view_value_list(vals: Vec<Value>)
    ensures
        #[trigger] value_view(Value::List { vals }) == (ValueV::List { vals: types::views(vals@) }),
{
    lemma_value_view(Value::List { vals });
}

/// The view of `Value::Range`.
pub broadcast proof fn view_value_range(start: i32, end: i32)
    ensures
        #[trigger] value_view(Value::Range { start, end }) == (ValueV::Range {
            start: start as int,
            end: end as int,
        }),
{
}

/// The view of `HtmlPart::Text`.
pub broadcast proof fn view_html_part_text(a: String)
    ensures
        #[trigger] html_part_view(HtmlPart::Text(a)) == HtmlPartV::Text(a@),
{
}

/// The view of `HtmlPart::Expr`.
pub broadcast proof fn view_html_part_expr(a: Expr)
    ensures
        #[trigger] html_part_view(HtmlPart::Expr(a)) == HtmlPartV::Expr(a@),
{
}

/// The view of `Expr::Literal`.
pub broadcast proof fn view_expr_literal(val: Value)
    ensures
        #[trigger] expr_view(Expr::Literal { val }) == (ExprV::Literal { val: val@ }),
{
}

/// The view of `Expr::Variable`.
pub broadcast proof fn view_expr_variable(name: Symbol)
    ensures
        #[trigger] expr_view(Expr::Variable { name }) == (ExprV::Variable { name }),
{
}

/// The view of `Expr::KeyVal`.
pub broadcast proof fn view_expr_key_val(name: Symbol, value: Box<Expr>)
    ensures
        #[trigger] expr_view(Expr::KeyVal { name, value }) == (ExprV::KeyVal {
            name,
            value: Box::new(value@),
        }),
{
}

/// The view of `Expr::Tuple`.
pub broadcast proof fn view_expr_tuple(val: Vec<Expr>)
    ensures
        #[trigger] expr_view(Expr::Tuple { val }) == (ExprV::Tuple { val: types::views(val@) }),
{
    lemma_expr_view(Expr::Tuple { val });
}

/// The view of `Expr::List`.
pub broadcast proof fn view_expr_list(a: Vec<Expr>)
    ensures
        #[trigger] expr_view(Expr::List(a)) == ExprV::List(types::views(a@)),
{
    lemma_expr_view(Expr::List(a));
}

/// The view of `Expr::Range`.
pub broadcast proof fn view_expr_range(start: Box<Expr>, end: Box<Expr>)
    ensures
        #[trigger] expr_view(Expr::Range { start, end }) == (ExprV::Range {
            start: Box::new(start@),
            end: Box::new(end@),
        }),
{
}

/// The view of `Expr::Unop`.
pub broadcast proof fn view_expr_unop(op: UnOp, expr: Box<Expr>)
    ensures
        #[trigger] expr_view(Expr::Unop { op, expr }) == (ExprV::Unop {
            op,
            expr: Box::new(expr@),
        }),
{
}

/// The view of `Expr::Binop`.
pub broadcast proof fn view_expr_binop(op: BinOp, expr1: Box<Expr>, expr2: Box<Expr>)
    ensures
        #[trigger] expr_view(Expr::Binop { op, expr1, expr2 }) == (ExprV::Binop {
            op,
            expr1: Box::new(expr1@),
            expr2: Box::new(expr2@),
        }),
{
}

/// The view of `Expr::If`.
pub broadcast proof fn view_expr_if(cond: Box<Expr>, expr1: Box<Expr>, expr2: Box<Expr>)
    ensures
        #[trigger] expr_view(Expr::If { cond, expr1, expr2 }) == (ExprV::If {
            cond: Box::new(cond@),
            expr1: Box::new(expr1@),
            expr2: Box::new(expr2@),
        }),
{
}

/// The view of `Expr::Func`.
pub broadcast proof fn view_expr_func(params: Vec<Param>, body: Box<Expr>, return_ty: Option<Type>)
    ensures
        #[trigger] expr_view(Expr::Func { params, body, return_ty }) == (ExprV::Func {
            params: types::views(params@),
            body: Box::new(body@),
            return_ty: types::opt_view(return_ty),
        }),
{
    lemma_expr_view(Expr::Func { params, body, return_ty });
}

/// The view of `Expr::Call`.
pub broadcast proof fn view_expr_call(func: Box<Expr>, args: Vec<Expr>)
    ensures
        #[trigger] expr_view(Expr::Call { func, args }) == (ExprV::Call {
            func: Box::new(func@),
            args: types::views(args@),
        }),
{
    lemma_expr_view(Expr::Call { func, args });
}

/// The view of `Expr::Action`.
pub broadcast proof fn view_expr_action(a: Vec<ActionStmt>)
    ensures
        #[trigger] expr_view(Expr::Action(a)) == ExprV::Action(types::views(a@)),
{
    lemma_expr_view(Expr::Action(a));
}

/// The view of `Expr::MemberAccess`.
pub broadcast proof fn view_expr_member_access(service_name: Symbol, member_name: Symbol)
    ensures
        #[trigger] expr_view(
            Expr::MemberAccess { service_name, member_name },
        ) == (ExprV::MemberAccess {
            service_name,
            member_name,
        }),
{
}

/// The view of `Expr::Select`.
pub broadcast proof fn view_expr_select(
    table_name: Symbol,
    column_names: Vec<Symbol>,
    where_clause: Box<Expr>,
)
    ensures
        #[trigger] expr_view(
            Expr::Select { table_name, column_names, where_clause },
        ) == (ExprV::Select {
            table_name,
            column_names: column_names@,
            where_clause: Box::new(where_clause@),
        }),
{
}

/// The view of `Expr::Table`.
pub broadcast proof fn view_expr_table(fields: Vec<Field>)
    ensures
        #[trigger] expr_view(Expr::Table { fields }) == (ExprV::Table {
            fields: types::views(fields@),
        }),
{
    lemma_expr_view(Expr::Table { fields });
}

/// The view of `Expr::Fold`.
pub broadcast proof fn view_expr_fold(
    table_name: Symbol,
    column_name: Symbol,
    operation: Box<Expr>,
    identity: Box<Expr>,
)
    ensures
        #[trigger] expr_view(
            Expr::Fold { table_name, column_name, operation, identity },
        ) == (ExprV::Fold {
            table_name,
            column_name,
            operation: Box::new(operation@),
            identity: Box::new(identity@),
        }),
{
}

/// The view of `Expr::Html`.
pub broadcast proof fn view_expr_html(a: HtmlTemplate)
    ensures
        #[trigger] expr_view(Expr::Html(a)) == ExprV::Html(types::views(a.parts@)),
{
    lemma_expr_view(Expr::Html(a));
}

/// The view of `ActionStmt::Let`.
pub broadcast proof fn view_action_stmt_let(name: Symbol, ty: Option<Type>, expr: Expr)
    ensures
        #[trigger] action_stmt_view(ActionStmt::Let { name, ty, expr }) == (ActionStmtV::Let {
            name,
            ty: types::opt_view(ty),
            expr: expr@,
        }),
{
}

/// The view of `ActionStmt::Assign`.
pub broadcast proof fn view_action_stmt_assign(name: Symbol, expr: Expr)
    ensures
        #[trigger] action_stmt_view(ActionStmt::Assign { name, expr }) == (ActionStmtV::Assign {
            name,
            expr: expr@,
        }),
{
}

/// The view of `ActionStmt::Do`.
pub broadcast proof fn view_action_stmt_do(a: Expr)
    ensures
        #[trigger] action_stmt_view(ActionStmt::Do(a)) == ActionStmtV::Do(a@),
{
}

/// The view of `ActionStmt::Assert`.
pub broadcast proof fn view_action_stmt_assert(a: Expr, b: String)
    ensures
        #[trigger] action_stmt_view(ActionStmt::Assert(a, b)) == ActionStmtV::Assert(a@, b@),
{
}

/// The view of `ActionStmt::Expr`.
pub broadcast proof fn view_action_stmt_expr(a: Expr)
    ensures
        #[trigger] action_stmt_view(ActionStmt::Expr(a)) == ActionStmtV::Expr(a@),
{
}

/// The view of `ActionStmt::Insert`.
pub broadcast proof fn view_action_stmt_insert(table_name: Symbol, row: Expr)
    ensures
        #[trigger] action_stmt_view(
            ActionStmt::Insert { table_name, row },
        ) == (ActionStmtV::Insert {
            table_name,
            row: row@,
        }),
{
}

/// The view of `ActionStmt::For`.
pub broadcast proof fn view_action_stmt_for(var: Symbol, iterable: Expr, body: Vec<ActionStmt>)
    ensures
        #[trigger] action_stmt_view(ActionStmt::For { var, iterable, body }) == (ActionStmtV::For {
            var,
            iterable: iterable@,
            body: types::views(body@),
        }),
{
    lemma_action_stmt_view(ActionStmt::For { var, iterable, body });
}

/// The view of `Stmt::Service`.
pub broadcast proof fn view_stmt_service(name: Symbol, decls: Vec<Decl>)
    ensures
        #[trigger] stmt_view(Stmt::Service { name, decls }) == (StmtV::Service {
            name,
            decls: types::views(decls@),
        }),
{
    lemma_stmt_view(Stmt::Service { name, decls });
}

/// The view of `Stmt::Import`.
pub broadcast proof fn view_stmt_import(path: String, service_name: Symbol)
    ensures
        #[trigger] stmt_view(Stmt::Import { path, service_name }) == (StmtV::Import {
            path: path@,
            service_name,
        }),
{
}

/// The view of `Stmt::Test`.
pub broadcast proof fn view_stmt_test(service_name: Symbol, stmts: Vec<ActionStmt>)
    ensures
        #[trigger] stmt_view(Stmt::Test { service_name, stmts }) == (StmtV::Test {
            service_name,
            stmts: types::views(stmts@),
        }),
{
    lemma_stmt_view(Stmt::Test { service_name, stmts });
}

/// The view of `Stmt::ActionStmt`.
pub broadcast proof fn view_stmt_action_stmt(a: ActionStmt)
    ensures
        #[trigger] stmt_view(Stmt::ActionStmt(a)) == StmtV::ActionStmt(a@),
{
}

/// The view of `Stmt::Watch`.
pub broadcast proof fn view_stmt_watch(expr: Expr)
    ensures
        #[trigger] stmt_view(Stmt::Watch { expr }) == (StmtV::Watch { expr: expr@ }),
{
}

/// The view of `Stmt::Update`.
pub broadcast proof fn view_stmt_update(service_name: Symbol, decls: Vec<Decl>)
    ensures
        #[trigger] stmt_view(Stmt::Update { service_name, decls }) == (StmtV::Update {
            service_name,
            decls: types::views(decls@),
        }),
{
    lemma_stmt_view(Stmt::Update { service_name, decls });
}

/// The view of `Stmt::Atomic`.
pub broadcast proof fn view_stmt_atomic(updates: Vec<Stmt>)
    ensures
        #[trigger] stmt_view(Stmt::Atomic { updates }) == (StmtV::Atomic {
            updates: types::views(updates@),
        }),
{
    lemma_stmt_view(Stmt::Atomic { updates });
}

/// The view of `Stmt::Connect`.
pub broadcast proof fn view_stmt_connect(address: String)
    ensures
        #[trigger] stmt_view(Stmt::Connect { address }) == (StmtV::Connect { address: address@ }),
{
}

/// The view of a template.
pub broadcast proof fn view_html_template(parts: Vec<HtmlPart>)
    ensures
        #[trigger] template_view(HtmlTemplate { parts }) == types::views(parts@),
{
    lemma_template_view(HtmlTemplate { parts });
}

/// The view of a page.
pub broadcast proof fn view_html(text: String, handlers: Vec<(String, Value)>)
    ensures
        #[trigger] html_view(Html { text, handlers }) == (HtmlV {
            text: text@,
            handlers: handlers_view(handlers@),
        }),
{
    lemma_html_view(Html { text, handlers });
}

/// The views of syntax trees, constructor by constructor.
pub broadcast group group_ast_views {
    view_value_int,
    view_value_bool,
    view_value_string,
    view_value_html,
    view_value_closure,
    view_value_action_closure,
    view_value_list,
    view_value_range,
    view_html_part_text,
    view_html_part_expr,
    view_expr_literal,
    view_expr_variable,
    view_expr_key_val,
    view_expr_tuple,
    view_expr_list,
    view_expr_range,
    view_expr_unop,
    view_expr_binop,
    view_expr_if,
    view_expr_func,
    view_expr_call,
    view_expr_action,
    view_expr_member_access,
    view_expr_select,
    view_expr_table,
    view_expr_fold,
    view_expr_html,
    view_action_stmt_let,
    view_action_stmt_assign,
    view_action_stmt_do,
    view_action_stmt_assert,
    view_action_stmt_expr,
    view_action_stmt_insert,
    view_action_stmt_for,
    view_stmt_service,
    view_stmt_import,
    view_stmt_test,
    view_stmt_action_stmt,
    view_stmt_watch,
    view_stmt_update,
    view_stmt_atomic,
    view_stmt_connect,
    view_html_template,
    view_html,
}

/// A copy of an environment.
pub fn clone_env(env: &Vec<(Symbol, Value)>) -> (res: Vec<(Symbol, Value)>)
    ensures
        env_view(res@) == env_view(env@),
    decreases *env,
{
    let mut res: Vec<(Symbol, Value)> = Vec::new();
    let mut i: usize = 0;
    while i < env.len()
        invariant
            i <= env@.len(),
            res@.len() == i,
            forall|k: int|
                0 <= k < i ==> (#[trigger] res@[k]).0 == env@[k].0 && res@[k].1@ == env@[k].1@,
            decreases_to!(*env => env@),
        decreases env@.len() - i,
    {
        assert(decreases_to!(env@ => env@[i as int]));
        assert(decreases_to!(env@[i as int] => env@[i as int].1));
        res.push((env[i].0, clone_value(&env[i].1)));
        i += 1;
    }
    assert(env_view(res@) =~= env_view(env@));
    res
}

/// A copy of a list of handlers.
pub fn clone_handlers(hs: &Vec<(String, Value)>) -> (res: Vec<(String, Value)>)
    ensures
        handlers_view(res@) == handlers_view(hs@),
    decreases *hs,
{
    let mut res: Vec<(String, Value)> = Vec::new();
    let mut i: usize = 0;
    while i < hs.len()
        invariant
            i <= hs@.len(),
            res@.len() == i,
            forall|k: int|
                0 <= k < i ==> (#[trigger] res@[k]).0@ == hs@[k].0@ && res@[k].1@ == hs@[k].1@,
            decreases_to!(*hs => hs@),
        decreases hs@.len() - i,
    {
        assert(decreases_to!(hs@ => hs@[i as int]));
        assert(decreases_to!(hs@[i as int] => hs@[i as int].1));
        res.push((hs[i].0.clone(), clone_value(&hs[i].1)));
        i += 1;
    }
    assert(handlers_view(res@) =~= handlers_view(hs@));
    res
}

fn clone_html(h: &Html) -> (res: Html)
    ensures
        res@ == h@,
    decreases *h,
{
    let res = Html { text: h.text.clone(), handlers: clone_handlers(&h.handlers) };
    proof {
        lemma_html_view(*h);
        lemma_html_view(res);
    }
    res
}

fn clone_value(v: &Value) -> (res: Value)
    ensures
        res@ == v@,
    decreases *v,
{
    let res = match v {
        Value::Int { val } => Value::Int { val: *val },
        Value::Bool { val } => Value::Bool { val: *val },
        Value::String { val } => Value::String { val: val.clone() },
        Value::Html(h) => Value::Html(clone_html(h)),
        Value::Closure { params, body, env } => Value::Closure {
            params: clone_params(params),
            body: Box::new(clone_expr(body)),
            env: clone_env(env),
        },
        Value::ActionClosure { stmts, env, service_net_id } => Value::ActionClosure {
            stmts: clone_action_stmts(stmts),
            env: clone_env(env),
            service_net_id: service_net_id.clone(),
        },
        Value::List { vals } => Value::List { vals: clone_values(vals) },
        Value::Range { start, end } => Value::Range { start: *start, end: *end },
    };
    proof {
        lemma_value_view(*v);
        lemma_value_view(res);
    }
    res
}

/// A copy of a list of values.
pub fn clone_values(xs: &Vec<Value>) -> (res: Vec<Value>)
    ensures
        types::views(res@) == types::views(xs@),
    decreases *xs,
{
    let mut res: Vec<Value> = Vec::new();
    let mut i: usize = 0;
    while i < xs.len()
        invariant
            i <= xs@.len(),
            res@.len() == i,
            forall|k: int| 0 <= k < i ==> (#[trigger] res@[k])@ == xs@[k]@,
            decreases_to!(*xs => xs@),
        decreases xs@.len() - i,
    {
        assert(decreases_to!(xs@ => xs@[i as int]));
        res.push(clone_value(&xs[i]));
        i += 1;
    }
    assert(types::views(res@) =~= types::views(xs@));
    res
}

fn clone_html_part(p: &HtmlPart) -> (res: HtmlPart)
    ensures
        res@ == p@,
    decreases *p,
{
    match p {
        HtmlPart::Text(s) => HtmlPart::Text(s.clone()),
        HtmlPart::Expr(e) => HtmlPart::Expr(clone_expr(e)),
    }
}

/// A copy of the pieces of a template.
pub fn clone_html_parts(xs: &Vec<HtmlPart>) -> (res: Vec<HtmlPart>)
    ensures
        types::views(res@) == types::views(xs@),
    decreases *xs,
{
    let mut res: Vec<HtmlPart> = Vec::new();
    let mut i: usize = 0;
    while i < xs.len()
        invariant
            i <= xs@.len(),
            res@.len() == i,
            forall|k: int| 0 <= k < i ==> (#[trigger] res@[k])@ == xs@[k]@,
            decreases_to!(*xs => xs@),
        decreases xs@.len() - i,
    {
        assert(decreases_to!(xs@ => xs@[i as int]));
        res.push(clone_html_part(&xs[i]));
        i += 1;
    }
    assert(types::views(res@) =~= types::views(xs@));
    res
}

fn clone_template(t: &HtmlTemplate) -> (res: HtmlTemplate)
    ensures
        res@ == t@,
    decreases *t,
{
    let res = HtmlTemplate { parts: clone_html_parts(&t.parts) };
    proof {
        lemma_template_view(*t);
        lemma_template_view(res);
    }
    res
}

fn clone_expr(e: &Expr) -> (res: Expr)
    ensures
        res@ == e@,
    decreases *e,
{
    let res = match e {
        Expr::Literal { val } => Expr::Literal { val: clone_value(val) },
        Expr::Variable { name } => Expr::Variable { name: *name },
        Expr::KeyVal { name, value } => Expr::KeyVal {
            name: *name,
            value: Box::new(clone_expr(value)),
        },
        Expr::Tuple { val } => Expr::Tuple { val: clone_exprs(val) },
        Expr::List(val) => Expr::List(clone_exprs(val)),
        Expr::Range { start, end } => Expr::Range {
            start: Box::new(clone_expr(start)),
            end: Box::new(clone_expr(end)),
        },
        Expr::Unop { op, expr } => Expr::Unop { op: *op, expr: Box::new(clone_expr(expr)) },
        Expr::Binop { op, expr1, expr2 } => Expr::Binop {
            op: *op,
            expr1: Box::new(clone_expr(expr1)),
            expr2: Box::new(clone_expr(expr2)),
        },
        Expr::If { cond, expr1, expr2 } => Expr::If {
            cond: Box::new(clone_expr(cond)),
            expr1: Box::new(clone_expr(expr1)),
            expr2: Box::new(clone_expr(expr2)),
        },
        Expr::Func { params, body, return_ty } => Expr::Func {
            params: clone_params(params),
            body: Box::new(clone_expr(body)),
            return_ty: clone_type_opt(return_ty),
        },
        Expr::Call { func, args } => Expr::Call {
            func: Box::new(clone_expr(func)),
            args: clone_exprs(args),
        },
        Expr::Action(stmts) => Expr::Action(clone_action_stmts(stmts)),
        Expr::MemberAccess { service_name, member_name } => Expr::MemberAccess {
            service_name: *service_name,
            member_name: *member_name,
        },
        Expr::Select { table_name, column_names, where_clause } => Expr::Select {
            table_name: *table_name,
            column_names: clone_symbols(column_names),
            where_clause: Box::new(clone_expr(where_clause)),
        },
        Expr::Table { fields } => Expr::Table { fields: clone_fields(fields) },
        Expr::Fold { table_name, column_name, operation, identity } => Expr::Fold {
            table_name: *table_name,
            column_name: *column_name,
            operation: Box::new(clone_expr(operation)),
            identity: Box::new(clone_expr(identity)),
        },
        Expr::Html(t) => Expr::Html(clone_template(t)),
    };
    proof {
        lemma_expr_view(*e);
        lemma_expr_view(res);
    }
    res
}

/// A copy of a list of expressions.
pub fn clone_exprs(xs: &Vec<Expr>) -> (res: Vec<Expr>)
    ensures
        types::views(res@) == types::views(xs@),
    decreases *xs,
{
    let mut res: Vec<Expr> = Vec::new();
    let mut i: usize = 0;
    while i < xs.len()
        invariant
            i <= xs@.len(),
            res@.len() == i,
            forall|k: int| 0 <= k < i ==> (#[trigger] res@[k])@ == xs@[k]@,
            decreases_to!(*xs => xs@),
        decreases xs@.len() - i,
    {
        assert(decreases_to!(xs@ => xs@[i as int]));
        res.push(clone_expr(&xs[i]));
        i += 1;
    }
    assert(types::views(res@) =~= types::views(xs@));
    res
}

fn clone_action_stmt(s: &ActionStmt) -> (res: ActionStmt)
    ensures
        res@ == s@,
    decreases *s,
{
    let res = match s {
        ActionStmt::Let { name, ty, expr } => ActionStmt::Let {
            name: *name,
            ty: clone_type_opt(ty),
            expr: clone_expr(expr),
        },
        ActionStmt::Assign { name, expr } => ActionStmt::Assign {
            name: *name,
            expr: clone_expr(expr),
        },
        ActionStmt::Do(e) => ActionStmt::Do(clone_expr(e)),
        ActionStmt::Assert(e, m) => ActionStmt::Assert(clone_expr(e), m.clone()),
        ActionStmt::Expr(e) => ActionStmt::Expr(clone_expr(e)),
        ActionStmt::Insert { table_name, row } => ActionStmt::Insert {
            table_name: *table_name,
            row: clone_expr(row),
        },
        ActionStmt::For { var, iterable, body } => ActionStmt::For {
            var: *var,
            iterable: clone_expr(iterable),
            body: clone_action_stmts(body),
        },
    };
    proof {
        lemma_action_stmt_view(*s);
        lemma_action_stmt_view(res);
    }
    res
}

/// A copy of a list of statements.
pub fn clone_action_stmts(xs: &Vec<ActionStmt>) -> (res: Vec<ActionStmt>)
    ensures
        types::views(res@) == types::views(xs@),
    decreases *xs,
{
    let mut res: Vec<ActionStmt> = Vec::new();
    let mut i: usize = 0;
    while i < xs.len()
        invariant
            i <= xs@.len(),
            res@.len() == i,
            forall|k: int| 0 <= k < i ==> (#[trigger] res@[k])@ == xs@[k]@,
            decreases_to!(*xs => xs@),
        decreases xs@.len() - i,
    {
        assert(decreases_to!(xs@ => xs@[i as int]));
        res.push(clone_action_stmt(&xs[i]));
        i += 1;
    }
    assert(types::views(res@) =~= types::views(xs@));
    res
}

/// A copy of a list of symbols.
pub fn clone_symbols(xs: &Vec<Symbol>) -> (res: Vec<Symbol>)
    ensures
        res@ == xs@,
{
    let mut res: Vec<Symbol> = Vec::new();
    let mut i: usize = 0;
    while i < xs.len()
        invariant
            i <= xs@.len(),
            res@ == xs@.take(i as int),
        decreases xs@.len() - i,
    {
        res.push(xs[i]);
        i += 1;
        assert(xs@.take(i as int) =~= xs@.take(i - 1).push(xs@[i - 1]));
    }
    assert(xs@.take(i as int) =~= xs@);
    res
}

impl Clone for Field {
    fn clone(&self) -> (res: Field)
        ensures
            res@ == self@,
    {
        Field { name: self.name, ty: self.ty.clone() }
    }
}

/// A copy of a list of columns.
pub fn clone_fields(xs: &Vec<Field>) -> (res: Vec<Field>)
    ensures
        types::views(res@) == types::views(xs@),
{
    let mut res: Vec<Field> = Vec::new();
    let mut i: usize = 0;
    while i < xs.len()
        invariant
            i <= xs@.len(),
            res@.len() == i,
            forall|k: int| 0 <= k < i ==> (#[trigger] res@[k])@ == xs@[k]@,
        decreases xs@.len() - i,
    {
        res.push(xs[i].clone());
        i += 1;
    }
    assert(types::views(res@) =~= types::views(xs@));
    res
}

impl Clone for Html {
    fn clone(&self) -> (res: Html)
        ensures
            res@ == self@,
    {
        clone_html(self)
    }
}

impl Clone for Value {
    fn clone(&self) -> (res: Value)
        ensures
            res@ == self@,
    {
        clone_value(self)
    }
}

impl Clone for HtmlPart {
    fn clone(&self) -> (res: HtmlPart)
        ensures
            res@ == self@,
    {
        clone_html_part(self)
    }
}

impl Clone for HtmlTemplate {
    fn clone(&self) -> (res: HtmlTemplate)
        ensures
            res@ == self@,
    {
        clone_template(self)
    }
}

impl Clone for Expr {
    fn clone(&self) -> (res: Expr)
        ensures
            res@ == self@,
    {
        clone_expr(self)
    }
}

impl Clone for ActionStmt {
    fn clone(&self) -> (res: ActionStmt)
        ensures
            res@ == self@,
    {
        clone_action_stmt(self)
    }
}

impl Clone for Stmt {
    fn clone(&self) -> (res: Stmt)
        ensures
            res@ == self@,
    {
        clone_stmt(self)
    }
}

impl Clone for Decl {
    fn clone(&self) -> (res: Decl)
        ensures
            res@ == self@,
    {
        match self {
            Decl::VarDecl { name, ty, val } => Decl::VarDecl {
                name: *name,
                ty: clone_type_opt(ty),
                val: val.clone(),
            },
            Decl::DefDecl { name, ty, val, is_pub } => Decl::DefDecl {
                name: *name,
                ty: clone_type_opt(ty),
                val: val.clone(),
                is_pub: *is_pub,
            },
            Decl::TableDecl { name, fields } => Decl::TableDecl {
                name: *name,
                fields: clone_fields(fields),
            },
        }
    }
}

/// A copy of a list of declarations.
pub fn clone_decls(xs: &Vec<Decl>) -> (res: Vec<Decl>)
    ensures
        types::views(res@) == types::views(xs@),
{
    let mut res: Vec<Decl> = Vec::new();
    let mut i: usize = 0;
    while i < xs.len()
        invariant
            i <= xs@.len(),
            res@.len() == i,
            forall|k: int| 0 <= k < i ==> (#[trigger] res@[k])@ == xs@[k]@,
        decreases xs@.len() - i,
    {
        res.push(xs[i].clone());
        i += 1;
    }
    assert(types::views(res@) =~= types::views(xs@));
    res
}

fn clone_stmt(s: &Stmt) -> (res: Stmt)
    ensures
        res@ == s@,
    decreases *s,
{
    let res = match s {
        Stmt::Service { name, decls } => Stmt::Service { name: *name, decls: clone_decls(decls) },
        Stmt::Import { path, service_name } => Stmt::Import {
            path: path.clone(),
            service_name: *service_name,
        },
        Stmt::Test { service_name, stmts } => Stmt::Test {
            service_name: *service_name,
            stmts: clone_action_stmts(stmts),
        },
        Stmt::ActionStmt(a) => Stmt::ActionStmt(a.clone()),
        Stmt::Watch { expr } => Stmt::Watch { expr: expr.clone() },
        Stmt::Update { service_name, decls } => Stmt::Update {
            service_name: *service_name,
            decls: clone_decls(decls),
        },
        Stmt::Atomic { updates } => Stmt::Atomic { updates: clone_stmts(updates) },
        Stmt::Connect { address } => Stmt::Connect { address: address.clone() },
    };
    proof {
        lemma_stmt_view(*s);
        lemma_stmt_view(res);
    }
    res
}

/// A copy of a program.
pub fn clone_stmts(xs: &Vec<Stmt>) -> (res: Vec<Stmt>)
    ensures
        types::views(res@) == types::views(xs@),
    decreases *xs,
{
    let mut res: Vec<Stmt> = Vec::new();
    let mut i: usize = 0;
    while i < xs.len()
        invariant
            i <= xs@.len(),
            res@.len() == i,
            forall|k: int| 0 <= k < i ==> (#[trigger] res@[k])@ == xs@[k]@,
            decreases_to!(*xs => xs@),
        decreases xs@.len() - i,
    {
        assert(decreases_to!(xs@ => xs@[i as int]));
        res.push(clone_stmt(&xs[i]));
        i += 1;
    }
    assert(types::views(res@) =~= types::views(xs@));
    res
}

} // verus!
