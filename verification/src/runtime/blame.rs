//! What errors of name resolution say: what they name is indeed missing.

use vstd::prelude::*;

use crate::runtime::ast::{ActionStmtV, DeclV, ExprV, HtmlPartV, StmtV};
use crate::runtime::graphs::analysis;
use crate::runtime::interner::Symbol;
use crate::runtime::nameres;
use crate::runtime::nameres::{Expected, NameError, ScopeV};
use crate::runtime::resolution;
use crate::runtime::tree;

verus! {

/// Whether a service is declared, without a member of a name.
pub open spec fn lacks_member(prog: Seq<StmtV>, s: Symbol, x: Symbol) -> bool {
    exists|k: int| #[trigger]
        resolution::is_service(prog, k, s) && !resolution::declared(prog[k]->Service_decls, x)
}

/// Whether an error that is found where these names are bound, in a service with these
/// declarations, is true: a variable that is unknown or comes too soon is neither bound nor
/// declared; a member that is unknown is none of its service, which is declared; a service that is
/// unknown is neither declared nor imported; and a table that is unknown is not declared. Apart from
/// members, the error names the service around.
pub open spec fn is_true(
    prog: Seq<StmtV>,
    svc: Option<Symbol>,
    decls: Seq<DeclV>,
    bound: Set<Symbol>,
    e: NameError,
) -> bool {
    match e {
        NameError::UnknownIdentifier { name, expected, context_name } => match expected {
            Expected::Variable => {
                &&& !bound.contains(name)
                &&& !resolution::declared(decls, name)
                &&& context_name == svc
            },
            Expected::Member => {
                &&& context_name is Some
                &&& lacks_member(prog, context_name->0, name)
            },
            Expected::Service => {
                &&& !resolution::has_service(prog, name)
                &&& !resolution::is_imported(prog, name)
                &&& context_name == svc
            },
            Expected::Table => !tree::has_table(decls, name) && context_name == svc,
        },
        NameError::ForwardReference(name) => !bound.contains(name) && !resolution::declared(
            decls,
            name,
        ),
        NameError::DepthLimit => true,
    }
}

/// Whether what is found in a scope is true.
spec fn true_in(prog: Seq<StmtV>, sc: ScopeV, e: Option<NameError>) -> bool {
    e is Some ==> is_true(prog, sc.svc, sc.decls, sc.locals.to_set(), e->0)
}

/// What is true where more names are bound is true where fewer are.
proof fn lemma_fewer(prog: Seq<StmtV>, sc: ScopeV, inner: ScopeV, e: Option<NameError>)
    requires
        true_in(prog, inner, e),
        inner.svc == sc.svc,
        inner.decls == sc.decls,
        sc.locals.len() <= inner.locals.len(),
        inner.locals.take(sc.locals.len() as int) == sc.locals,
    ensures
        true_in(prog, sc, e),
{
    let more = inner.locals.to_set();
    assert forall|x: Symbol| #[trigger] sc.locals.to_set().contains(x) implies more.contains(
        x,
    ) by {
        let i = choose|i: int| 0 <= i < sc.locals.len() && sc.locals[i] == x;
        assert(inner.locals.take(sc.locals.len() as int)[i] == inner.locals[i]);
        assert(inner.locals[i] == x);
    }
}

/// What is bound around stays bound inside.
proof fn lemma_inside(sc: ScopeV, more: Seq<Symbol>)
    ensures
        (sc.locals + more).take(sc.locals.len() as int) == sc.locals,
{
    assert((sc.locals + more).take(sc.locals.len() as int) =~= sc.locals);
}

/// A table that is not found is not declared.
proof fn lemma_no_table(decls: Seq<DeclV>, i: int, t: Symbol)
    requires
        0 <= i,
        nameres::columns_from(decls, i, t) is None,
    ensures
        forall|k: int|
            i <= k < decls.len() ==> !((#[trigger] decls[k]) is TableDecl && decls[k]->TableDecl_name
                == t),
    decreases decls.len() - i,
{
    if i < decls.len() {
        lemma_no_table(decls, i + 1, t);
    }
}

/// A service that is not found is not declared, and one that is found is the first of its name.
proof fn lemma_service(prog: Seq<StmtV>, i: int, s: Symbol)
    requires
        0 <= i,
        forall|j: int|
            0 <= j < i && j < prog.len() ==> !((#[trigger] prog[j]) is Service
                && prog[j]->Service_name == s),
    ensures
        match nameres::service_from(prog, i, s) {
            Some(decls) => exists|k: int| #[trigger]
                resolution::is_service(prog, k, s) && prog[k]->Service_decls == decls,
            None => !resolution::has_service(prog, s),
        },
    decreases prog.len() - i,
{
    if i < prog.len() {
        if prog[i] is Service && prog[i]->Service_name == s {
            assert(resolution::is_service(prog, i, s));
        } else {
            lemma_service(prog, i + 1, s);
        }
    }
}

/// What is wrong with a variable, a member or a table is true.
proof fn lemma_leaf(prog: Seq<StmtV>, sc: ScopeV, s: Symbol, x: Symbol)
    ensures
        true_in(prog, sc, nameres::bad_variable(sc, x)),
        true_in(prog, sc, nameres::bad_member(prog, sc, s, x)),
        nameres::columns_from(sc.decls, 0, x) is None ==> true_in(
            prog,
            sc,
            Some(
                NameError::UnknownIdentifier {
                    name: x,
                    expected: Expected::Table,
                    context_name: sc.svc,
                },
            ),
        ),
{
    assert(analysis::declares(sc.decls, x) == resolution::declared(sc.decls, x));
    lemma_service(prog, 0, s);
    if let Some(decls) = nameres::service_from(prog, 0, s) {
        let k = choose|k: int| #[trigger]
            resolution::is_service(prog, k, s) && prog[k]->Service_decls == decls;
        assert(analysis::declares(decls, x) == resolution::declared(decls, x));
        if !analysis::declares(decls, x) {
            assert(lacks_member(prog, s, x));
        }
    }
    assert(nameres::imports_service(prog, s) == resolution::is_imported(prog, s)) by {
        if resolution::is_imported(prog, s) {
            let k = choose|k: int|
                0 <= k < prog.len() && (#[trigger] prog[k]) is Import
                    && prog[k]->Import_service_name == s;
            assert(prog[k] is Import);
        }
        if nameres::imports_service(prog, s) {
            let k = choose|k: int|
                0 <= k < prog.len() && ((#[trigger] prog[k]) matches StmtV::Import {
                    service_name,
                    ..
                } && service_name == s);
            assert(prog[k] is Import);
        }
    }
    if nameres::columns_from(sc.decls, 0, x) is None {
        lemma_no_table(sc.decls, 0, x);
        if tree::has_table(sc.decls, x) {
            let k = choose|k: int| #[trigger] tree::is_table(sc.decls, k, x);
            assert(sc.decls[k] is TableDecl);
        }
    }
}

/// What is found wrong with an expression is true.
#[verifier::rlimit(40)]
proof fn lemma_expr(prog: Seq<StmtV>, sc: ScopeV, e: ExprV)
    ensures
        true_in(prog, sc, nameres::bad_expr(prog, sc, e)),
    decreases e, 0int,
{
    match e {
        ExprV::Literal { .. } | ExprV::Table { .. } => {},
        ExprV::Variable { name } => {
            lemma_leaf(prog, sc, name, name);
        },
        ExprV::MemberAccess { service_name, member_name } => {
            lemma_leaf(prog, sc, service_name, member_name);
        },
        ExprV::KeyVal { value, .. } => {
            lemma_expr(prog, sc, *value);
        },
        ExprV::Tuple { val } => {
            lemma_exprs(prog, sc, val, 0);
        },
        ExprV::List(val) => {
            lemma_exprs(prog, sc, val, 0);
        },
        ExprV::Range { start, end } => {
            lemma_expr(prog, sc, *start);
            lemma_expr(prog, sc, *end);
        },
        ExprV::Unop { expr, .. } => {
            lemma_expr(prog, sc, *expr);
        },
        ExprV::Binop { expr1, expr2, .. } => {
            lemma_expr(prog, sc, *expr1);
            lemma_expr(prog, sc, *expr2);
        },
        ExprV::If { cond, expr1, expr2 } => {
            lemma_expr(prog, sc, *cond);
            lemma_expr(prog, sc, *expr1);
            lemma_expr(prog, sc, *expr2);
        },
        ExprV::Func { params, body, .. } => {
            if sc.depth > 0 {
                let inner = nameres::inner_scope(sc, nameres::param_names(params));
                lemma_expr(prog, inner, *body);
                lemma_inside(sc, nameres::param_names(params));
                lemma_fewer(prog, sc, inner, nameres::bad_expr(prog, inner, *body));
            }
        },
        ExprV::Call { func, args } => {
            lemma_expr(prog, sc, *func);
            lemma_exprs(prog, sc, args, 0);
        },
        ExprV::Action(stmts) => {
            if sc.depth > 0 {
                let inner = nameres::inner_scope(sc, Seq::empty());
                lemma_block(prog, inner, stmts, 0);
                lemma_inside(sc, Seq::empty());
                lemma_fewer(prog, sc, inner, nameres::bad_block(prog, inner, stmts, 0));
            }
        },
        ExprV::Select { table_name, where_clause, .. } => {
            lemma_leaf(prog, sc, table_name, table_name);
            if let Some(fields) = nameres::columns_from(sc.decls, 0, table_name) {
                let inner = ScopeV { locals: sc.locals + nameres::field_names(fields), ..sc };
                lemma_expr(prog, inner, *where_clause);
                lemma_inside(sc, nameres::field_names(fields));
                lemma_fewer(prog, sc, inner, nameres::bad_expr(prog, inner, *where_clause));
            }
        },
        ExprV::Fold { table_name, operation, identity, .. } => {
            lemma_leaf(prog, sc, table_name, table_name);
            lemma_expr(prog, sc, *operation);
            lemma_expr(prog, sc, *identity);
        },
        ExprV::Html(parts) => {
            lemma_parts(prog, sc, parts, 0);
        },
    }
}

/// The same of several expressions.
proof fn lemma_exprs(prog: Seq<StmtV>, sc: ScopeV, es: Seq<ExprV>, i: int)
    ensures
        true_in(prog, sc, nameres::bad_exprs(prog, sc, es, i)),
    decreases es, es.len() - i,
{
    if 0 <= i < es.len() {
        lemma_expr(prog, sc, es[i]);
        lemma_exprs(prog, sc, es, i + 1);
    }
}

/// The same of a template.
proof fn lemma_parts(prog: Seq<StmtV>, sc: ScopeV, parts: Seq<HtmlPartV>, i: int)
    ensures
        true_in(prog, sc, nameres::bad_parts(prog, sc, parts, i)),
    decreases parts, parts.len() - i,
{
    if 0 <= i < parts.len() {
        if let HtmlPartV::Expr(e) = parts[i] {
            lemma_expr(prog, sc, e);
        }
        lemma_parts(prog, sc, parts, i + 1);
    }
}

/// The same of a block.
proof fn lemma_block(prog: Seq<StmtV>, sc: ScopeV, stmts: Seq<ActionStmtV>, i: int)
    ensures
        true_in(prog, sc, nameres::bad_block(prog, sc, stmts, i)),
    decreases stmts, stmts.len() - i,
{
    if 0 <= i < stmts.len() {
        let here = ScopeV { later: sc.later + nameres::lets_from(stmts, i), ..sc };
        let behind = match stmts[i] {
            ActionStmtV::Let { name, .. } => ScopeV { locals: sc.locals.push(name), ..sc },
            _ => sc,
        };
        lemma_stmt(prog, here, stmts[i]);
        lemma_block(prog, behind, stmts, i + 1);
        assert(behind.locals.take(sc.locals.len() as int) =~= sc.locals);
        lemma_fewer(prog, sc, behind, nameres::bad_block(prog, behind, stmts, i + 1));
    }
}

/// The same of a statement.
proof fn lemma_stmt(prog: Seq<StmtV>, sc: ScopeV, s: ActionStmtV)
    ensures
        true_in(prog, sc, nameres::bad_stmt(prog, sc, s)),
    decreases s, 0int,
{
    match s {
        ActionStmtV::Let { expr, .. } => {
            lemma_expr(prog, sc, expr);
        },
        ActionStmtV::Assign { name, expr } => {
            lemma_leaf(prog, sc, name, name);
            lemma_expr(prog, sc, expr);
        },
        ActionStmtV::Do(expr) => {
            lemma_expr(prog, sc, expr);
        },
        ActionStmtV::Assert(expr, _) => {
            lemma_expr(prog, sc, expr);
        },
        ActionStmtV::Expr(expr) => {
            lemma_expr(prog, sc, expr);
        },
        ActionStmtV::Insert { table_name, row } => {
            lemma_leaf(prog, sc, table_name, table_name);
            lemma_expr(prog, sc, row);
        },
        ActionStmtV::For { var, iterable, body } => {
            lemma_expr(prog, sc, iterable);
            if sc.depth > 0 {
                let inner = nameres::inner_scope(sc, seq![var]);
                lemma_block(prog, inner, body, 0);
                lemma_inside(sc, seq![var]);
                lemma_fewer(prog, sc, inner, nameres::bad_block(prog, inner, body, 0));
            }
        },
    }
}

/// What is reported of the expression of a declaration is true.
pub proof fn errors_name_what_is_missing(
    prog: Seq<StmtV>,
    svc: Symbol,
    decls: Seq<DeclV>,
    e: ExprV,
)
    ensures
        nameres::bad_expr(prog, nameres::service_scope(svc, decls), e) matches Some(err) ==> is_true(
            prog,
            Some(svc),
            decls,
            Set::empty(),
            err,
        ),
{
    lemma_expr(prog, nameres::service_scope(svc, decls), e);
    assert(Seq::<Symbol>::empty().to_set() =~= Set::<Symbol>::empty());
}

/// Whether one of the statements from the `i`th on introduces a name.
pub open spec fn introduced_from(stmts: Seq<ActionStmtV>, i: int, x: Symbol) -> bool {
    exists|k: int|
        i <= k < stmts.len() && (#[trigger] stmts[k]) is Let && stmts[k]->Let_name == x
}

/// The names that statements introduce.
proof fn lemma_lets(stmts: Seq<ActionStmtV>, i: int, x: Symbol)
    requires
        0 <= i,
    ensures
        nameres::lets_from(stmts, i).contains(x) <==> introduced_from(stmts, i, x),
    decreases stmts.len() - i,
{
    if i < stmts.len() {
        lemma_lets(stmts, i + 1, x);
        let behind = nameres::lets_from(stmts, i + 1);
        if introduced_from(stmts, i + 1, x) {
            let k = choose|k: int|
                i + 1 <= k < stmts.len() && (#[trigger] stmts[k]) is Let && stmts[k]->Let_name == x;
            assert(stmts[k] is Let);
        }
        if let ActionStmtV::Let { name, .. } = stmts[i] {
            let all = seq![name] + behind;
            assert(all[0] == name);
            if behind.contains(x) {
                let k = choose|k: int| 0 <= k < behind.len() && behind[k] == x;
                assert(all[k + 1] == x);
            }
            if all.contains(x) && name != x {
                let k = choose|k: int| 0 <= k < all.len() && all[k] == x;
                assert(behind[k - 1] == x);
            }
        }
    }
}

/// A name that is used at the start of a block, where nothing binds or declares it, comes too soon
/// exactly where the block introduces it later; else it is unknown.
pub proof fn names_introduced_later_come_too_soon(
    prog: Seq<StmtV>,
    svc: Symbol,
    decls: Seq<DeclV>,
    x: Symbol,
    stmts: Seq<ActionStmtV>,
)
    requires
        stmts.len() > 0,
        stmts[0] == ActionStmtV::Expr(ExprV::Variable { name: x }),
        !resolution::declared(decls, x),
    ensures
        nameres::bad_block(prog, nameres::service_scope(svc, decls), stmts, 0) == Some(
            if introduced_from(stmts, 0, x) {
                NameError::ForwardReference(x)
            } else {
                NameError::UnknownIdentifier {
                    name: x,
                    expected: Expected::Variable,
                    context_name: Some(svc),
                }
            },
        ),
{
    let sc = nameres::service_scope(svc, decls);
    let here = ScopeV { later: sc.later + nameres::lets_from(stmts, 0), ..sc };
    lemma_lets(stmts, 0, x);
    assert(here.later =~= nameres::lets_from(stmts, 0));
    assert(analysis::declares(decls, x) == resolution::declared(decls, x));
    assert(!here.locals.contains(x));
    assert(nameres::bad_expr(prog, here, ExprV::Variable { name: x }) == nameres::bad_variable(
        here,
        x,
    ));
    assert(nameres::bad_stmt(prog, here, stmts[0]) == nameres::bad_variable(here, x));
}

} // verus!
