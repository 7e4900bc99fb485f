//! Name resolution: every name that a program uses is declared where it is used.

use vstd::prelude::*;

use crate::runtime::ast;
use crate::runtime::ast::{
    ActionStmt, ActionStmtV, Decl, DeclV, Expr, ExprV, Field, FieldV, HtmlPart, HtmlPartV, Stmt,
    StmtV,
};
use crate::runtime::ast::clone_symbols;
use crate::runtime::graphs::analysis;
use crate::runtime::graphs::free_var;
use crate::runtime::interner::Symbol;
use crate::runtime::limits::MAX_SCOPE_DEPTH;
use crate::runtime::tt::check::name_of_decl;
use crate::runtime::tt::types;
use crate::runtime::tt::types::{Member, Param, ParamV};

verus! {

broadcast use types::views_push;

/// What a name should have been.
#[derive(Debug, Clone, Copy, PartialEq, Eq, Structural)]
pub enum Expected {
    Variable,
    Service,
    Member,
    Table,
}

/// Why a name does not resolve.
#[derive(Debug, Clone, Copy, PartialEq, Eq, Structural)]
pub enum NameError {
    UnknownIdentifier { name: Symbol, expected: Expected, context_name: Option<Symbol> },
    ForwardReference(Symbol),
    DepthLimit,
}

impl Expected {
    /// The word for what a name should have been.
    pub open spec fn word(self) -> Seq<char> {
        match self {
            Expected::Variable => "variable"@,
            Expected::Service => "service"@,
            Expected::Member => "member"@,
            Expected::Table => "table"@,
        }
    }

    /// The word for what a name should have been.
    pub fn text(self) -> (res: &'static str)
        ensures
            res@ == self.word(),
    {
        match self {
            Expected::Variable => "variable",
            Expected::Service => "service",
            Expected::Member => "member",
            Expected::Table => "table",
        }
    }
}

/// Where a name is used: the service and its declarations, the local names around it, the names
/// that enclosing blocks introduce only later, and how many more scopes may open.
pub struct ScopeV {
    pub svc: Option<Symbol>,
    pub decls: Seq<DeclV>,
    pub locals: Seq<Symbol>,
    pub later: Seq<Symbol>,
    pub depth: nat,
}

/// The declarations of the first service of a name from statement `i` on.
pub open spec fn service_from(prog: Seq<StmtV>, i: int, s: Symbol) -> Option<Seq<DeclV>>
    decreases prog.len() - i,
{
    if i < 0 || i >= prog.len() {
        None
    } else {
        match prog[i] {
            StmtV::Service { name, decls } => if name == s {
                Some(decls)
            } else {
                service_from(prog, i + 1, s)
            },
            _ => service_from(prog, i + 1, s),
        }
    }
}

/// Whether a program imports a service.
pub open spec fn imports_service(prog: Seq<StmtV>, s: Symbol) -> bool {
    exists|i: int|
        0 <= i < prog.len() && ((#[trigger] prog[i]) matches StmtV::Import { service_name, .. }
            && service_name == s)
}

/// The columns of the first table of a name from declaration `i` on.
pub open spec fn columns_from(decls: Seq<DeclV>, i: int, t: Symbol) -> Option<Seq<FieldV>>
    decreases decls.len() - i,
{
    if i < 0 || i >= decls.len() {
        None
    } else {
        match decls[i] {
            DeclV::TableDecl { name, fields } => if name == t {
                Some(fields)
            } else {
                columns_from(decls, i + 1, t)
            },
            _ => columns_from(decls, i + 1, t),
        }
    }
}

/// The names of columns.
pub open spec fn field_names(fields: Seq<FieldV>) -> Seq<Symbol> {
    fields.map_values(|f: FieldV| f.name)
}

/// The names of parameters.
pub open spec fn param_names(params: Seq<ParamV>) -> Seq<Symbol> {
    params.map_values(|p: ParamV| p.name)
}

/// The names that the statements from position `i` on introduce.
pub open spec fn lets_from(stmts: Seq<ActionStmtV>, i: int) -> Seq<Symbol>
    decreases stmts.len() - i,
{
    if i < 0 || i >= stmts.len() {
        Seq::empty()
    } else {
        match stmts[i] {
            ActionStmtV::Let { name, .. } => seq![name] + lets_from(stmts, i + 1),
            _ => lets_from(stmts, i + 1),
        }
    }
}

/// What is wrong with a use of a name as a variable.
pub open spec fn bad_variable(sc: ScopeV, x: Symbol) -> Option<NameError> {
    if sc.locals.contains(x) || analysis::declares(sc.decls, x) {
        None
    } else if sc.later.contains(x) {
        Some(NameError::ForwardReference(x))
    } else {
        Some(
            NameError::UnknownIdentifier {
                name: x,
                expected: Expected::Variable,
                context_name: sc.svc,
            },
        )
    }
}

/// What is wrong with a use of a member of a service.
pub open spec fn bad_member(prog: Seq<StmtV>, sc: ScopeV, s: Symbol, m: Symbol) -> Option<
    NameError,
> {
    match service_from(prog, 0, s) {
        Some(decls) => if analysis::declares(decls, m) {
            None
        } else {
            Some(
                NameError::UnknownIdentifier {
                    name: m,
                    expected: Expected::Member,
                    context_name: Some(s),
                },
            )
        },
        None => if imports_service(prog, s) {
            None
        } else {
            Some(
                NameError::UnknownIdentifier {
                    name: s,
                    expected: Expected::Service,
                    context_name: sc.svc,
                },
            )
        },
    }
}

/// The first of two errors.
pub open spec fn first_of(a: Option<NameError>, b: Option<NameError>) -> Option<NameError> {
    if a is Some {
        a
    } else {
        b
    }
}

/// The scope inside a function or a block that binds more names.
pub open spec fn inner_scope(sc: ScopeV, more: Seq<Symbol>) -> ScopeV {
    ScopeV { locals: sc.locals + more, depth: (sc.depth - 1) as nat, ..sc }
}

/// The first thing wrong with the names of an expression.
pub open spec fn bad_expr(prog: Seq<StmtV>, sc: ScopeV, e: ExprV) -> Option<NameError>
    decreases e, 0int,
{
    match e {
        ExprV::Literal { .. } | ExprV::Table { .. } => None,
        ExprV::Variable { name } => bad_variable(sc, name),
        ExprV::MemberAccess { service_name, member_name } => bad_member(
            prog,
            sc,
            service_name,
            member_name,
        ),
        ExprV::KeyVal { value, .. } => bad_expr(prog, sc, *value),
        ExprV::Tuple { val } => bad_exprs(prog, sc, val, 0),
        ExprV::List(val) => bad_exprs(prog, sc, val, 0),
        ExprV::Range { start, end } => first_of(
            bad_expr(prog, sc, *start),
            bad_expr(prog, sc, *end),
        ),
        ExprV::Unop { expr, .. } => bad_expr(prog, sc, *expr),
        ExprV::Binop { expr1, expr2, .. } => first_of(
            bad_expr(prog, sc, *expr1),
            bad_expr(prog, sc, *expr2),
        ),
        ExprV::If { cond, expr1, expr2 } => first_of(
            bad_expr(prog, sc, *cond),
            first_of(bad_expr(prog, sc, *expr1), bad_expr(prog, sc, *expr2)),
        ),
        ExprV::Func { params, body, .. } => if sc.depth == 0 {
            Some(NameError::DepthLimit)
        } else {
            bad_expr(prog, inner_scope(sc, param_names(params)), *body)
        },
        ExprV::Call { func, args } => first_of(
            bad_expr(prog, sc, *func),
            bad_exprs(prog, sc, args, 0),
        ),
        ExprV::Action(stmts) => if sc.depth == 0 {
            Some(NameError::DepthLimit)
        } else {
            bad_block(prog, inner_scope(sc, Seq::empty()), stmts, 0)
        },
        ExprV::Select { table_name, where_clause, .. } => match columns_from(
            sc.decls,
            0,
            table_name,
        ) {
            None => Some(
                NameError::UnknownIdentifier {
                    name: table_name,
                    expected: Expected::Table,
                    context_name: sc.svc,
                },
            ),
            Some(fields) => bad_expr(
                prog,
                ScopeV { locals: sc.locals + field_names(fields), ..sc },
                *where_clause,
            ),
        },
        ExprV::Fold { table_name, operation, identity, .. } => match columns_from(
            sc.decls,
            0,
            table_name,
        ) {
            None => Some(
                NameError::UnknownIdentifier {
                    name: table_name,
                    expected: Expected::Table,
                    context_name: sc.svc,
                },
            ),
            Some(fields) => first_of(
                bad_expr(prog, sc, *operation),
                bad_expr(prog, sc, *identity),
            ),
        },
        ExprV::Html(parts) => bad_parts(prog, sc, parts, 0),
    }
}

/// The first thing wrong with the names of the expressions from position `i` on.
pub open spec fn bad_exprs(prog: Seq<StmtV>, sc: ScopeV, es: Seq<ExprV>, i: int) -> Option<
    NameError,
>
    decreases es, es.len() - i,
{
    if i < 0 || i >= es.len() {
        None
    } else {
        first_of(bad_expr(prog, sc, es[i]), bad_exprs(prog, sc, es, i + 1))
    }
}

/// The first thing wrong with the names of the pieces of a template from position `i` on.
pub open spec fn bad_parts(prog: Seq<StmtV>, sc: ScopeV, parts: Seq<HtmlPartV>, i: int) -> Option<
    NameError,
>
    decreases parts, parts.len() - i,
{
    if i < 0 || i >= parts.len() {
        None
    } else {
        match parts[i] {
            HtmlPartV::Text(_) => bad_parts(prog, sc, parts, i + 1),
            HtmlPartV::Expr(e) => first_of(
                bad_expr(prog, sc, e),
                bad_parts(prog, sc, parts, i + 1),
            ),
        }
    }
}

/// The first thing wrong with the names of the statements of a block from position `i` on.
pub open spec fn bad_block(
    prog: Seq<StmtV>,
    sc: ScopeV,
    stmts: Seq<ActionStmtV>,
    i: int,
) -> Option<NameError>
    decreases stmts, stmts.len() - i,
{
    if i < 0 || i >= stmts.len() {
        None
    } else {
        let here = ScopeV { later: sc.later + lets_from(stmts, i), ..sc };
        let behind = match stmts[i] {
            ActionStmtV::Let { name, .. } => ScopeV { locals: sc.locals.push(name), ..sc },
            _ => sc,
        };
        first_of(bad_stmt(prog, here, stmts[i]), bad_block(prog, behind, stmts, i + 1))
    }
}

/// The first thing wrong with the names of a statement.
pub open spec fn bad_stmt(prog: Seq<StmtV>, sc: ScopeV, s: ActionStmtV) -> Option<NameError>
    decreases s, 0int,
{
    match s {
        ActionStmtV::Let { expr, .. } => bad_expr(prog, sc, expr),
        ActionStmtV::Assign { name, expr } => first_of(
            bad_variable(sc, name),
            bad_expr(prog, sc, expr),
        ),
        ActionStmtV::Do(expr) => bad_expr(prog, sc, expr),
        ActionStmtV::Assert(expr, _) => bad_expr(prog, sc, expr),
        ActionStmtV::Expr(expr) => bad_expr(prog, sc, expr),
        ActionStmtV::Insert { table_name, row } => if columns_from(
            sc.decls,
            0,
            table_name,
        ) is None {
            Some(
                NameError::UnknownIdentifier {
                    name: table_name,
                    expected: Expected::Table,
                    context_name: sc.svc,
                },
            )
        } else {
            bad_expr(prog, sc, row)
        },
        ActionStmtV::For { var, iterable, body } => first_of(
            bad_expr(prog, sc, iterable),
            if sc.depth == 0 {
                Some(NameError::DepthLimit)
            } else {
                bad_block(prog, inner_scope(sc, seq![var]), body, 0)
            },
        ),
    }
}

/// The scope of a service's members.
pub open spec fn service_scope(svc: Symbol, decls: Seq<DeclV>) -> ScopeV {
    ScopeV {
        svc: Some(svc),
        decls,
        locals: Seq::empty(),
        later: Seq::empty(),
        depth: MAX_SCOPE_DEPTH as nat,
    }
}

/// The scope outside of all services, where names were introduced before.
pub open spec fn outer_scope(locals: Seq<Symbol>) -> ScopeV {
    ScopeV {
        svc: None,
        decls: Seq::empty(),
        locals,
        later: Seq::empty(),
        depth: MAX_SCOPE_DEPTH as nat,
    }
}

/// The first thing wrong with the names of the declarations of a service from position `i` on.
pub open spec fn bad_decls(prog: Seq<StmtV>, svc: Symbol, decls: Seq<DeclV>, i: int) -> Option<
    NameError,
>
    decreases decls.len() - i,
{
    if i < 0 || i >= decls.len() {
        None
    } else {
        let here = match ast::decl_val(decls[i]) {
            Some(e) => bad_expr(prog, service_scope(svc, decls), e),
            None => None,
        };
        first_of(here, bad_decls(prog, svc, decls, i + 1))
    }
}

/// The first thing wrong with the names of the statements of a program from position `i` on, where
/// `locals` were introduced before outside of all services.
pub open spec fn bad_from(prog: Seq<StmtV>, locals: Seq<Symbol>, i: int) -> Option<NameError>
    decreases prog.len() - i,
{
    if i < 0 || i >= prog.len() {
        None
    } else {
        match prog[i] {
            StmtV::Service { name, decls } => first_of(
                bad_decls(prog, name, decls, 0),
                bad_from(prog, locals, i + 1),
            ),
            StmtV::Test { service_name, stmts } => match service_from(prog, 0, service_name) {
                None => Some(
                    NameError::UnknownIdentifier {
                        name: service_name,
                        expected: Expected::Service,
                        context_name: None,
                    },
                ),
                Some(decls) => first_of(
                    bad_block(prog, service_scope(service_name, decls), stmts, 0),
                    bad_from(prog, locals, i + 1),
                ),
            },
            StmtV::ActionStmt(s) => {
                let behind = match s {
                    ActionStmtV::Let { name, .. } => locals.push(name),
                    _ => locals,
                };
                first_of(bad_stmt(prog, outer_scope(locals), s), bad_from(prog, behind, i + 1))
            },
            StmtV::Watch { expr } => first_of(
                bad_expr(prog, outer_scope(locals), expr),
                bad_from(prog, locals, i + 1),
            ),
            _ => bad_from(prog, locals, i + 1),
        }
    }
}

/// Whether a result reports the first thing wrong.
pub open spec fn reports(res: Result<(), NameError>, spec: Option<NameError>) -> bool {
    match res {
        Ok(()) => spec is None,
        Err(e) => spec == Some(e),
    }
}

/// Where a name is used.
pub struct Scope<'a> {
    pub svc: Option<Symbol>,
    pub decls: &'a [Decl],
    pub locals: Vec<Symbol>,
    pub later: Vec<Symbol>,
    pub depth: usize,
}

impl<'a> View for Scope<'a> {
    type V = ScopeV;

    open spec fn view(&self) -> ScopeV {
        ScopeV {
            svc: self.svc,
            decls: types::views(self.decls@),
            locals: self.locals@,
            later: self.later@,
            depth: self.depth as nat,
        }
    }
}

/// Whether a list holds a symbol.
pub fn has_symbol(xs: &Vec<Symbol>, x: Symbol) -> (res: bool)
    ensures
        res == xs@.contains(x),
{
    let mut i: usize = 0;
    while i < xs.len()
        invariant
            i <= xs@.len(),
            forall|k: int| 0 <= k < i ==> xs@[k] != x,
        decreases xs@.len() - i,
    {
        if xs[i] == x {
            assert(xs@[i as int] == x);
            return true;
        }
        i += 1;
    }
    false
}

fn is_declared(decls: &[Decl], x: Symbol) -> (res: bool)
    ensures
        res == analysis::declares(types::views(decls@), x),
{
    let ghost ds = types::views(decls@);
    let mut i: usize = 0;
    while i < decls.len()
        invariant
            i <= decls@.len(),
            ds == types::views(decls@),
            forall|k: int| 0 <= k < i ==> ast::decl_name(#[trigger] ds[k]) != x,
        decreases decls@.len() - i,
    {
        assert(ds[i as int] == decls@[i as int]@);
        if name_of_decl(&decls[i]) == x {
            assert(ast::decl_name(ds[i as int]) == x);
            return true;
        }
        i += 1;
    }
    false
}

/// The declarations of the first service of a name.
pub fn find_service(prog: &[Stmt], s: Symbol) -> (res: Option<&Vec<Decl>>)
    ensures
        match res {
            Some(decls) => service_from(types::views(prog@), 0, s) == Some(types::views(decls@)),
            None => service_from(types::views(prog@), 0, s) is None,
        },
{
    let ghost ps = types::views(prog@);
    let mut i: usize = 0;
    while i < prog.len()
        invariant
            i <= prog@.len(),
            ps == types::views(prog@),
            service_from(ps, 0, s) == service_from(ps, i as int, s),
        decreases prog@.len() - i,
    {
        assert(ps[i as int] == prog@[i as int]@);
        proof {
            ast::lemma_stmt_view(prog@[i as int]);
        }
        if let Stmt::Service { name, decls } = &prog[i] {
            if *name == s {
                return Some(decls);
            }
        }
        i += 1;
    }
    None
}

fn is_imported(prog: &[Stmt], s: Symbol) -> (res: bool)
    ensures
        res == imports_service(types::views(prog@), s),
{
    let ghost ps = types::views(prog@);
    let mut i: usize = 0;
    while i < prog.len()
        invariant
            i <= prog@.len(),
            ps == types::views(prog@),
            forall|k: int|
                0 <= k < i ==> !((#[trigger] ps[k]) matches StmtV::Import { service_name, .. }
                    && service_name == s),
        decreases prog@.len() - i,
    {
        assert(ps[i as int] == prog@[i as int]@);
        proof {
            ast::lemma_stmt_view(prog@[i as int]);
        }
        if let Stmt::Import { service_name, .. } = &prog[i] {
            if *service_name == s {
                assert(ps[i as int]->Import_service_name == s);
                return true;
            }
        }
        i += 1;
    }
    false
}

fn find_columns(decls: &[Decl], t: Symbol) -> (res: Option<&Vec<Field>>)
    ensures
        match res {
            Some(fields) => columns_from(types::views(decls@), 0, t) == Some(
                types::views(fields@),
            ),
            None => columns_from(types::views(decls@), 0, t) is None,
        },
{
    let ghost ds = types::views(decls@);
    let mut i: usize = 0;
    while i < decls.len()
        invariant
            i <= decls@.len(),
            ds == types::views(decls@),
            columns_from(ds, 0, t) == columns_from(ds, i as int, t),
        decreases decls@.len() - i,
    {
        assert(ds[i as int] == decls@[i as int]@);
        if let Decl::TableDecl { name, fields } = &decls[i] {
            if *name == t {
                return Some(fields);
            }
        }
        i += 1;
    }
    None
}

fn with_field_names(locals: &Vec<Symbol>, fields: &Vec<Field>) -> (res: Vec<Symbol>)
    ensures
        res@ == locals@ + field_names(types::views(fields@)),
{
    let mut res = clone_symbols(locals);
    let mut i: usize = 0;
    while i < fields.len()
        invariant
            i <= fields@.len(),
            res@ == locals@ + field_names(types::views(fields@)).take(i as int),
        decreases fields@.len() - i,
    {
        res.push(fields[i].name);
        i += 1;
        assert(res@ =~= locals@ + field_names(types::views(fields@)).take(i as int));
    }
    assert(res@ =~= locals@ + field_names(types::views(fields@)));
    res
}

fn with_param_names(locals: &Vec<Symbol>, params: &Vec<Param>) -> (res: Vec<Symbol>)
    ensures
        res@ == locals@ + param_names(types::views(params@)),
{
    let mut res = clone_symbols(locals);
    let mut i: usize = 0;
    while i < params.len()
        invariant
            i <= params@.len(),
            res@ == locals@ + param_names(types::views(params@)).take(i as int),
        decreases params@.len() - i,
    {
        res.push(params[i].name);
        i += 1;
        assert(res@ =~= locals@ + param_names(types::views(params@)).take(i as int));
    }
    assert(res@ =~= locals@ + param_names(types::views(params@)));
    res
}

fn with_lets(later: &Vec<Symbol>, stmts: &Vec<ActionStmt>, from: usize) -> (res: Vec<Symbol>)
    requires
        from <= stmts@.len(),
    ensures
        res@ == later@ + lets_from(types::views(stmts@), from as int),
{
    let ghost ss = types::views(stmts@);
    let mut res = clone_symbols(later);
    let mut i: usize = from;
    assert(res@ + lets_from(ss, i as int) =~= later@ + lets_from(ss, from as int));
    while i < stmts.len()
        invariant
            from <= i <= stmts@.len(),
            ss == types::views(stmts@),
            res@ + lets_from(ss, i as int) == later@ + lets_from(ss, from as int),
        decreases stmts@.len() - i,
    {
        assert(ss[i as int] == stmts@[i as int]@);
        proof {
            ast::lemma_action_stmt_view(stmts@[i as int]);
        }
        let ghost before = res@;
        if let ActionStmt::Let { name, .. } = &stmts[i] {
            res.push(*name);
            assert(res@ + lets_from(ss, i + 1) =~= before + (seq![*name] + lets_from(ss, i + 1)));
        }
        i += 1;
    }
    assert(res@ + lets_from(ss, i as int) =~= res@);
    res
}

fn check_variable(sc: &Scope, x: Symbol) -> (res: Result<(), NameError>)
    ensures
        reports(res, bad_variable(sc@, x)),
{
    if has_symbol(&sc.locals, x) || is_declared(sc.decls, x) {
        Ok(())
    } else if has_symbol(&sc.later, x) {
        Err(NameError::ForwardReference(x))
    } else {
        Err(
            NameError::UnknownIdentifier {
                name: x,
                expected: Expected::Variable,
                context_name: sc.svc,
            },
        )
    }
}

fn check_member(prog: &[Stmt], sc: &Scope, s: Symbol, m: Symbol) -> (res: Result<(), NameError>)
    ensures
        reports(res, bad_member(types::views(prog@), sc@, s, m)),
{
    match find_service(prog, s) {
        Some(decls) => {
            if is_declared(decls.as_slice(), m) {
                Ok(())
            } else {
                Err(
                    NameError::UnknownIdentifier {
                        name: m,
                        expected: Expected::Member,
                        context_name: Some(s),
                    },
                )
            }
        },
        None => {
            if is_imported(prog, s) {
                Ok(())
            } else {
                Err(
                    NameError::UnknownIdentifier {
                        name: s,
                        expected: Expected::Service,
                        context_name: sc.svc,
                    },
                )
            }
        },
    }
}

/// The same scope with other local names.
fn scope_with<'a>(sc: &Scope<'a>, locals: Vec<Symbol>, depth: usize) -> (res: Scope<'a>)
    ensures
        res@ == (ScopeV { locals: locals@, depth: depth as nat, ..sc@ }),
{
    Scope { svc: sc.svc, decls: sc.decls, locals, later: clone_symbols(&sc.later), depth }
}

/// Check the names of an expression.
#[verifier::rlimit(40)]
pub fn check_expr(prog: &[Stmt], sc: &Scope, e: &Expr) -> (res: Result<(), NameError>)
    ensures
        reports(res, bad_expr(types::views(prog@), sc@, e@)),
    decreases *e,
{
    proof {
        ast::lemma_expr_view(*e);
    }
    match e {
        Expr::Literal { .. } | Expr::Table { .. } => Ok(()),
        Expr::Variable { name } => check_variable(sc, *name),
        Expr::MemberAccess { service_name, member_name } => check_member(
            prog,
            sc,
            *service_name,
            *member_name,
        ),
        Expr::KeyVal { value, .. } => check_expr(prog, sc, value),
        Expr::Tuple { val } => check_exprs(prog, sc, val),
        Expr::List(val) => check_exprs(prog, sc, val),
        Expr::Range { start, end } => {
            if let Err(err) = check_expr(prog, sc, start) {
                return Err(err);
            }
            check_expr(prog, sc, end)
        },
        Expr::Unop { expr, .. } => check_expr(prog, sc, expr),
        Expr::Binop { expr1, expr2, .. } => {
            if let Err(err) = check_expr(prog, sc, expr1) {
                return Err(err);
            }
            check_expr(prog, sc, expr2)
        },
        Expr::If { cond, expr1, expr2 } => {
            if let Err(err) = check_expr(prog, sc, cond) {
                return Err(err);
            }
            if let Err(err) = check_expr(prog, sc, expr1) {
                return Err(err);
            }
            check_expr(prog, sc, expr2)
        },
        Expr::Func { params, body, .. } => {
            if sc.depth == 0 {
                return Err(NameError::DepthLimit);
            }
            let inner = scope_with(sc, with_param_names(&sc.locals, params), sc.depth - 1);
            check_expr(prog, &inner, body)
        },
        Expr::Call { func, args } => {
            if let Err(err) = check_expr(prog, sc, func) {
                return Err(err);
            }
            check_exprs(prog, sc, args)
        },
        Expr::Action(stmts) => {
            if sc.depth == 0 {
                return Err(NameError::DepthLimit);
            }
            let inner = scope_with(sc, clone_symbols(&sc.locals), sc.depth - 1);
            assert(sc@.locals + Seq::<Symbol>::empty() =~= sc@.locals);
            check_block(prog, &inner, stmts)
        },
        Expr::Select { table_name, where_clause, .. } => match find_columns(
            sc.decls,
            *table_name,
        ) {
            None => Err(
                NameError::UnknownIdentifier {
                    name: *table_name,
                    expected: Expected::Table,
                    context_name: sc.svc,
                },
            ),
            Some(fields) => {
                let inner = scope_with(sc, with_field_names(&sc.locals, fields), sc.depth);
                check_expr(prog, &inner, where_clause)
            },
        },
        Expr::Fold { table_name, operation, identity, .. } => match find_columns(
            sc.decls,
            *table_name,
        ) {
            None => Err(
                NameError::UnknownIdentifier {
                    name: *table_name,
                    expected: Expected::Table,
                    context_name: sc.svc,
                },
            ),
            Some(_) => {
                if let Err(err) = check_expr(prog, sc, operation) {
                    return Err(err);
                }
                check_expr(prog, sc, identity)
            },
        },
        Expr::Html(template) => check_parts(prog, sc, &template.parts),
    }
}

/// Check the names of several expressions.
fn check_exprs(prog: &[Stmt], sc: &Scope, exprs: &Vec<Expr>) -> (res: Result<(), NameError>)
    ensures
        reports(res, bad_exprs(types::views(prog@), sc@, types::views(exprs@), 0)),
    decreases *exprs,
{
    let ghost ps = types::views(prog@);
    let ghost es = types::views(exprs@);
    let mut i: usize = 0;
    while i < exprs.len()
        invariant
            i <= exprs@.len(),
            ps == types::views(prog@),
            es == types::views(exprs@),
            bad_exprs(ps, sc@, es, 0) == bad_exprs(ps, sc@, es, i as int),
            decreases_to!(*exprs => exprs@),
        decreases exprs@.len() - i,
    {
        assert(decreases_to!(exprs@ => exprs@[i as int]));
        assert(es[i as int] == exprs@[i as int]@);
        if let Err(err) = check_expr(prog, sc, &exprs[i]) {
            return Err(err);
        }
        i += 1;
    }
    Ok(())
}

/// Check the names of the expressions of a template.
fn check_parts(prog: &[Stmt], sc: &Scope, parts: &Vec<HtmlPart>) -> (res: Result<(), NameError>)
    ensures
        reports(res, bad_parts(types::views(prog@), sc@, types::views(parts@), 0)),
    decreases *parts,
{
    let ghost ps = types::views(prog@);
    let ghost vs = types::views(parts@);
    let mut i: usize = 0;
    while i < parts.len()
        invariant
            i <= parts@.len(),
            ps == types::views(prog@),
            vs == types::views(parts@),
            bad_parts(ps, sc@, vs, 0) == bad_parts(ps, sc@, vs, i as int),
            decreases_to!(*parts => parts@),
        decreases parts@.len() - i,
    {
        assert(decreases_to!(parts@ => parts@[i as int]));
        assert(vs[i as int] == parts@[i as int]@);
        proof {
            ast::lemma_html_part_view(parts@[i as int]);
        }
        match &parts[i] {
            HtmlPart::Text(_) => {},
            HtmlPart::Expr(e) => {
                assert(decreases_to!(parts@[i as int] => e));
                if let Err(err) = check_expr(prog, sc, e) {
                    return Err(err);
                }
            },
        }
        i += 1;
    }
    Ok(())
}

/// Check the names of a block.
fn check_block(prog: &[Stmt], sc: &Scope, stmts: &Vec<ActionStmt>) -> (res: Result<(), NameError>)
    ensures
        reports(res, bad_block(types::views(prog@), sc@, types::views(stmts@), 0)),
    decreases *stmts,
{
    let ghost ps = types::views(prog@);
    let ghost ss = types::views(stmts@);
    let mut locals = clone_symbols(&sc.locals);
    let mut i: usize = 0;
    while i < stmts.len()
        invariant
            i <= stmts@.len(),
            ps == types::views(prog@),
            ss == types::views(stmts@),
            bad_block(ps, sc@, ss, 0) == bad_block(
                ps,
                ScopeV { locals: locals@, ..sc@ },
                ss,
                i as int,
            ),
            decreases_to!(*stmts => stmts@),
        decreases stmts@.len() - i,
    {
        assert(decreases_to!(stmts@ => stmts@[i as int]));
        assert(ss[i as int] == stmts@[i as int]@);
        proof {
            ast::lemma_action_stmt_view(stmts@[i as int]);
        }
        let here = Scope {
            svc: sc.svc,
            decls: sc.decls,
            locals: clone_symbols(&locals),
            later: with_lets(&sc.later, stmts, i),
            depth: sc.depth,
        };
        if let Err(err) = check_stmt(prog, &here, &stmts[i]) {
            return Err(err);
        }
        if let ActionStmt::Let { name, .. } = &stmts[i] {
            locals.push(*name);
        }
        i += 1;
    }
    Ok(())
}

/// Check the names of a statement.
fn check_stmt(prog: &[Stmt], sc: &Scope, stmt: &ActionStmt) -> (res: Result<(), NameError>)
    ensures
        reports(res, bad_stmt(types::views(prog@), sc@, stmt@)),
    decreases *stmt,
{
    proof {
        ast::lemma_action_stmt_view(*stmt);
    }
    match stmt {
        ActionStmt::Let { expr, .. } => check_expr(prog, sc, expr),
        ActionStmt::Assign { name, expr } => {
            if let Err(err) = check_variable(sc, *name) {
                return Err(err);
            }
            check_expr(prog, sc, expr)
        },
        ActionStmt::Do(expr) => check_expr(prog, sc, expr),
        ActionStmt::Assert(expr, _) => check_expr(prog, sc, expr),
        ActionStmt::Expr(expr) => check_expr(prog, sc, expr),
        ActionStmt::Insert { table_name, row } => {
            if find_columns(sc.decls, *table_name).is_none() {
                return Err(
                    NameError::UnknownIdentifier {
                        name: *table_name,
                        expected: Expected::Table,
                        context_name: sc.svc,
                    },
                );
            }
            check_expr(prog, sc, row)
        },
        ActionStmt::For { var, iterable, body } => {
            if let Err(err) = check_expr(prog, sc, iterable) {
                return Err(err);
            }
            if sc.depth == 0 {
                return Err(NameError::DepthLimit);
            }
            let mut locals = clone_symbols(&sc.locals);
            locals.push(*var);
            assert(locals@ =~= sc@.locals + seq![*var]);
            let inner = scope_with(sc, locals, sc.depth - 1);
            check_block(prog, &inner, body)
        },
    }
}

fn scope_of<'a>(svc: Option<Symbol>, decls: &'a [Decl], locals: Vec<Symbol>) -> (res: Scope<'a>)
    ensures
        res@ == (ScopeV {
            svc,
            decls: types::views(decls@),
            locals: locals@,
            later: Seq::empty(),
            depth: MAX_SCOPE_DEPTH as nat,
        }),
{
    let later: Vec<Symbol> = Vec::new();
    assert(later@ =~= Seq::<Symbol>::empty());
    Scope { svc, decls, locals, later, depth: MAX_SCOPE_DEPTH }
}

/// Check the names of the declarations of a service.
fn check_decls(prog: &[Stmt], svc: Symbol, decls: &Vec<Decl>) -> (res: Result<(), NameError>)
    ensures
        reports(res, bad_decls(types::views(prog@), svc, types::views(decls@), 0)),
{
    let ghost ps = types::views(prog@);
    let ghost ds = types::views(decls@);
    let none: Vec<Symbol> = Vec::new();
    assert(none@ =~= Seq::<Symbol>::empty());
    let sc = scope_of(Some(svc), decls.as_slice(), none);
    let mut i: usize = 0;
    while i < decls.len()
        invariant
            i <= decls@.len(),
            ps == types::views(prog@),
            ds == types::views(decls@),
            sc@ == service_scope(svc, ds),
            bad_decls(ps, svc, ds, 0) == bad_decls(ps, svc, ds, i as int),
        decreases decls@.len() - i,
    {
        assert(ds[i as int] == decls@[i as int]@);
        match &decls[i] {
            Decl::VarDecl { val, .. } | Decl::DefDecl { val, .. } => {
                if let Err(err) = check_expr(prog, &sc, val) {
                    return Err(err);
                }
            },
            Decl::TableDecl { .. } => {},
        }
        i += 1;
    }
    Ok(())
}

/// Check that all names of a program resolve; report the first that does not.
#[verifier::rlimit(40)]
pub fn resolve(program: &[Stmt]) -> (res: Result<(), NameError>)
    ensures
        reports(res, bad_from(types::views(program@), Seq::empty(), 0)),
{
    let ghost ps = types::views(program@);
    let no_decls: Vec<Decl> = Vec::new();
    assert(types::views(no_decls@) =~= Seq::<DeclV>::empty());
    let mut locals: Vec<Symbol> = Vec::new();
    assert(locals@ =~= Seq::<Symbol>::empty());
    let mut i: usize = 0;
    while i < program.len()
        invariant
            i <= program@.len(),
            ps == types::views(program@),
            types::views(no_decls@) == Seq::<DeclV>::empty(),
            bad_from(ps, Seq::empty(), 0) == bad_from(ps, locals@, i as int),
        decreases program@.len() - i,
    {
        assert(ps[i as int] == program@[i as int]@);
        proof {
            ast::lemma_stmt_view(program@[i as int]);
        }
        match &program[i] {
            Stmt::Service { name, decls } => {
                if let Err(err) = check_decls(program, *name, decls) {
                    return Err(err);
                }
            },
            Stmt::Test { service_name, stmts } => match find_service(program, *service_name) {
                None => {
                    return Err(
                        NameError::UnknownIdentifier {
                            name: *service_name,
                            expected: Expected::Service,
                            context_name: None,
                        },
                    );
                },
                Some(decls) => {
                    let none: Vec<Symbol> = Vec::new();
                    assert(none@ =~= Seq::<Symbol>::empty());
                    let sc = scope_of(Some(*service_name), decls.as_slice(), none);
                    if let Err(err) = check_block(program, &sc, stmts) {
                        return Err(err);
                    }
                },
            },
            Stmt::ActionStmt(s) => {
                let sc = scope_of(None, no_decls.as_slice(), clone_symbols(&locals));
                if let Err(err) = check_stmt(program, &sc, s) {
                    return Err(err);
                }
                proof {
                    ast::lemma_action_stmt_view(*s);
                }
                if let ActionStmt::Let { name, .. } = s {
                    locals.push(*name);
                }
            },
            Stmt::Watch { expr } => {
                let sc = scope_of(None, no_decls.as_slice(), clone_symbols(&locals));
                if let Err(err) = check_expr(program, &sc, expr) {
                    return Err(err);
                }
            },
            _ => {},
        }
        i += 1;
    }
    Ok(())
}

/// Whether a name is a column of a table.
pub open spec fn is_column(decls: Seq<DeclV>, x: Symbol) -> bool {
    exists|t: Symbol|
        (#[trigger] columns_from(decls, 0, t) matches Some(fields) && field_names(
            fields,
        ).contains(x))
}

/// Whether a name stands for something in a scope: a local name, a member of the service, or a
/// column of one of its tables.
pub open spec fn is_known(sc: ScopeV, x: Symbol) -> bool {
    sc.locals.contains(x) || analysis::declares(sc.decls, x) || is_column(sc.decls, x)
}

/// Whether a member of a service is declared, or its service is imported.
pub open spec fn is_known_member(prog: Seq<StmtV>, m: Member) -> bool {
    match service_from(prog, 0, m.0) {
        Some(decls) => analysis::declares(decls, m.1),
        None => imports_service(prog, m.0),
    }
}

/// A table with columns is declared.
proof fn lemma_table_declared(decls: Seq<DeclV>, i: int, t: Symbol)
    requires
        0 <= i,
        columns_from(decls, i, t) is Some,
    ensures
        analysis::declares(decls, t),
    decreases decls.len() - i,
{
    if i < decls.len() {
        match decls[i] {
            DeclV::TableDecl { name, .. } if name == t => {
                assert(ast::decl_name(decls[i]) == t);
            },
            _ => {
                lemma_table_declared(decls, i + 1, t);
            },
        }
    }
}

/// The names of an expression in which nothing is wrong are known.
#[verifier::rlimit(60)]
proof fn lemma_expr_known(prog: Seq<StmtV>, sc: ScopeV, e: ExprV, x: Symbol, m: Member)
    requires
        bad_expr(prog, sc, e) is None,
    ensures
        free_var::occurs_free(e, x) ==> is_known(sc, x),
        free_var::names_member(e, m) ==> is_known_member(prog, m),
    decreases e, 0int,
{
    match e {
        ExprV::Literal { .. } | ExprV::Table { .. } => {},
        ExprV::Variable { .. } => {},
        ExprV::MemberAccess { .. } => {},
        ExprV::KeyVal { value, .. } => lemma_expr_known(prog, sc, *value, x, m),
        ExprV::Tuple { val } => lemma_exprs_known(prog, sc, val, 0, x, m),
        ExprV::List(val) => lemma_exprs_known(prog, sc, val, 0, x, m),
        ExprV::Range { start, end } => {
            lemma_expr_known(prog, sc, *start, x, m);
            lemma_expr_known(prog, sc, *end, x, m);
        },
        ExprV::Unop { expr, .. } => lemma_expr_known(prog, sc, *expr, x, m),
        ExprV::Binop { expr1, expr2, .. } => {
            lemma_expr_known(prog, sc, *expr1, x, m);
            lemma_expr_known(prog, sc, *expr2, x, m);
        },
        ExprV::If { cond, expr1, expr2 } => {
            lemma_expr_known(prog, sc, *cond, x, m);
            lemma_expr_known(prog, sc, *expr1, x, m);
            lemma_expr_known(prog, sc, *expr2, x, m);
        },
        ExprV::Func { params, body, .. } => {
            let inner = inner_scope(sc, param_names(params));
            lemma_expr_known(prog, inner, *body, x, m);
            if inner.locals.contains(x) && !sc.locals.contains(x) {
                let k = choose|k: int| 0 <= k < inner.locals.len() && inner.locals[k] == x;
                if k < sc.locals.len() {
                    assert(sc.locals[k] == x);
                } else {
                    assert(params[k - sc.locals.len()].name == x);
                }
                assert(free_var::binds(params, x));
            }
        },
        ExprV::Call { func, args } => {
            lemma_expr_known(prog, sc, *func, x, m);
            lemma_exprs_known(prog, sc, args, 0, x, m);
        },
        ExprV::Action(stmts) => {
            let inner = inner_scope(sc, Seq::empty());
            assert(inner.locals =~= sc.locals);
            lemma_block_known(prog, inner, stmts, 0, x, m);
        },
        ExprV::Select { table_name, where_clause, .. } => {
            lemma_table_declared(sc.decls, 0, table_name);
            let fields = columns_from(sc.decls, 0, table_name)->0;
            let inner = ScopeV { locals: sc.locals + field_names(fields), ..sc };
            lemma_expr_known(prog, inner, *where_clause, x, m);
            if inner.locals.contains(x) && !sc.locals.contains(x) {
                let k = choose|k: int| 0 <= k < inner.locals.len() && inner.locals[k] == x;
                if k < sc.locals.len() {
                    assert(sc.locals[k] == x);
                } else {
                    assert(field_names(fields)[k - sc.locals.len()] == x);
                }
                assert(is_column(sc.decls, x));
            }
        },
        ExprV::Fold { operation, identity, .. } => {
            lemma_expr_known(prog, sc, *operation, x, m);
            lemma_expr_known(prog, sc, *identity, x, m);
        },
        ExprV::Html(parts) => lemma_parts_known(prog, sc, parts, 0, x, m),
    }
}

/// The names of expressions in which nothing is wrong are known.
proof fn lemma_exprs_known(
    prog: Seq<StmtV>,
    sc: ScopeV,
    es: Seq<ExprV>,
    i: int,
    x: Symbol,
    m: Member,
)
    requires
        0 <= i,
        bad_exprs(prog, sc, es, i) is None,
    ensures
        forall|k: int|
            i <= k < es.len() && free_var::occurs_free(#[trigger] es[k], x) ==> is_known(sc, x),
        forall|k: int|
            i <= k < es.len() && free_var::names_member(#[trigger] es[k], m) ==> is_known_member(
                prog,
                m,
            ),
        i == 0 && free_var::occurs_free_in_any(es, x) ==> is_known(sc, x),
        i == 0 && free_var::any_names_member(es, m) ==> is_known_member(prog, m),
    decreases es, es.len() - i,
{
    if i < es.len() {
        lemma_expr_known(prog, sc, es[i], x, m);
        lemma_exprs_known(prog, sc, es, i + 1, x, m);
    }
}

/// The names of a template in which nothing is wrong are known.
proof fn lemma_parts_known(
    prog: Seq<StmtV>,
    sc: ScopeV,
    parts: Seq<HtmlPartV>,
    i: int,
    x: Symbol,
    m: Member,
)
    requires
        0 <= i,
        bad_parts(prog, sc, parts, i) is None,
    ensures
        forall|k: int|
            i <= k < parts.len() && free_var::occurs_free_in_part(#[trigger] parts[k], x)
                ==> is_known(sc, x),
        forall|k: int|
            i <= k < parts.len() && free_var::part_names_member(#[trigger] parts[k], m)
                ==> is_known_member(prog, m),
        i == 0 && free_var::occurs_free_in_parts(parts, x) ==> is_known(sc, x),
        i == 0 && free_var::parts_name_member(parts, m) ==> is_known_member(prog, m),
    decreases parts, parts.len() - i,
{
    if i < parts.len() {
        if let HtmlPartV::Expr(e) = parts[i] {
            lemma_expr_known(prog, sc, e, x, m);
        }
        lemma_parts_known(prog, sc, parts, i + 1, x, m);
    }
}

/// The names of a block in which nothing is wrong are known, but for those that it introduces.
proof fn lemma_block_known(
    prog: Seq<StmtV>,
    sc: ScopeV,
    stmts: Seq<ActionStmtV>,
    i: int,
    x: Symbol,
    m: Member,
)
    requires
        0 <= i,
        bad_block(prog, sc, stmts, i) is None,
    ensures
        forall|k: int|
            i <= k < stmts.len() && free_var::occurs_free_in_stmt(#[trigger] stmts[k], x) && (
            forall|j: int| i <= j < k ==> !free_var::lets(#[trigger] stmts[j], x)) ==> is_known(
                sc,
                x,
            ),
        forall|k: int|
            i <= k < stmts.len() && free_var::stmt_names_member(#[trigger] stmts[k], m)
                ==> is_known_member(prog, m),
        i == 0 && free_var::occurs_free_in_block(stmts, x) ==> is_known(sc, x),
        i == 0 && free_var::block_names_member(stmts, m) ==> is_known_member(prog, m),
    decreases stmts, stmts.len() - i,
{
    if i < stmts.len() {
        let here = ScopeV { later: sc.later + lets_from(stmts, i), ..sc };
        let behind = match stmts[i] {
            ActionStmtV::Let { name, .. } => ScopeV { locals: sc.locals.push(name), ..sc },
            _ => sc,
        };
        lemma_stmt_known(prog, here, stmts[i], x, m);
        lemma_block_known(prog, behind, stmts, i + 1, x, m);
        assert forall|k: int|
            i <= k < stmts.len() && free_var::occurs_free_in_stmt(#[trigger] stmts[k], x) && (
            forall|j: int| i <= j < k ==> !free_var::lets(#[trigger] stmts[j], x)) implies is_known(
            sc,
            x,
        ) by {
            if k > i {
                assert(!free_var::lets(stmts[i], x));
                assert(is_known(behind, x));
                if behind.locals.contains(x) {
                    let q = choose|q: int| 0 <= q < behind.locals.len() && behind.locals[q] == x;
                    if q < sc.locals.len() {
                        assert(sc.locals[q] == x);
                    }
                }
            }
        }
    }
}

/// The names of a statement in which nothing is wrong are known.
proof fn lemma_stmt_known(prog: Seq<StmtV>, sc: ScopeV, s: ActionStmtV, x: Symbol, m: Member)
    requires
        bad_stmt(prog, sc, s) is None,
    ensures
        free_var::occurs_free_in_stmt(s, x) ==> is_known(sc, x),
        free_var::stmt_names_member(s, m) ==> is_known_member(prog, m),
    decreases s, 0int,
{
    match s {
        ActionStmtV::Let { expr, .. } => lemma_expr_known(prog, sc, expr, x, m),
        ActionStmtV::Assign { expr, .. } => lemma_expr_known(prog, sc, expr, x, m),
        ActionStmtV::Do(expr) => lemma_expr_known(prog, sc, expr, x, m),
        ActionStmtV::Assert(expr, _) => lemma_expr_known(prog, sc, expr, x, m),
        ActionStmtV::Expr(expr) => lemma_expr_known(prog, sc, expr, x, m),
        ActionStmtV::Insert { row, .. } => lemma_expr_known(prog, sc, row, x, m),
        ActionStmtV::For { var, iterable, body } => {
            lemma_expr_known(prog, sc, iterable, x, m);
            let inner = inner_scope(sc, seq![var]);
            lemma_block_known(prog, inner, body, 0, x, m);
            if inner.locals.contains(x) && x != var {
                let q = choose|q: int| 0 <= q < inner.locals.len() && inner.locals[q] == x;
                if q < sc.locals.len() {
                    assert(sc.locals[q] == x);
                }
            }
        },
    }
}

/// Nothing is wrong with the declarations of a service of a program in which nothing is wrong.
proof fn lemma_decl_resolved(
    prog: Seq<StmtV>,
    locals: Seq<Symbol>,
    i: int,
    k: int,
)
    requires
        0 <= i <= k < prog.len(),
        bad_from(prog, locals, i) is None,
        prog[k] is Service,
    ensures
        bad_decls(prog, prog[k]->Service_name, prog[k]->Service_decls, 0) is None,
    decreases k - i,
{
    if i < k {
        let behind = match prog[i] {
            StmtV::ActionStmt(ActionStmtV::Let { name, .. }) => locals.push(name),
            _ => locals,
        };
        lemma_decl_resolved(prog, behind, i + 1, k);
    }
}

/// Nothing is wrong with a declaration of a service in which nothing is wrong.
proof fn lemma_one_decl(prog: Seq<StmtV>, svc: Symbol, decls: Seq<DeclV>, i: int, j: int)
    requires
        0 <= i <= j < decls.len(),
        bad_decls(prog, svc, decls, i) is None,
        ast::decl_val(decls[j]) is Some,
    ensures
        bad_expr(prog, service_scope(svc, decls), ast::decl_val(decls[j])->0) is None,
    decreases j - i,
{
    if i < j {
        lemma_one_decl(prog, svc, decls, i + 1, j);
    }
}

/// In a program whose names resolve, every free name of a declaration is a member of its service
/// or a column of one of its tables, and every member of another service that it names is
/// declared there, or that service is imported.
pub proof fn resolved_names_are_declared(prog: Seq<StmtV>, k: int, j: int, x: Symbol, m: Member)
    requires
        bad_from(prog, Seq::empty(), 0) is None,
        0 <= k < prog.len(),
        prog[k] is Service,
        0 <= j < prog[k]->Service_decls.len(),
        ast::decl_val(prog[k]->Service_decls[j]) is Some,
    ensures
        free_var::occurs_free(ast::decl_val(prog[k]->Service_decls[j])->0, x)
            ==> analysis::declares(prog[k]->Service_decls, x) || is_column(
            prog[k]->Service_decls,
            x,
        ),
        free_var::names_member(ast::decl_val(prog[k]->Service_decls[j])->0, m)
            ==> is_known_member(prog, m),
{
    let svc = prog[k]->Service_name;
    let decls = prog[k]->Service_decls;
    lemma_decl_resolved(prog, Seq::empty(), 0, k);
    lemma_one_decl(prog, svc, decls, 0, j);
    lemma_expr_known(prog, service_scope(svc, decls), ast::decl_val(decls[j])->0, x, m);
}

} // verus!
