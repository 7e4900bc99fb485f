//! Free variables of expressions, and the members of other services that they name.

use petgraph::graphmap::DiGraphMap;
use std::collections::HashSet;
use vstd::prelude::*;

use crate::runtime::ast;
use crate::runtime::ast::{ActionStmt, ActionStmtV, Expr, ExprV, HtmlPart, HtmlPartV};
use crate::runtime::collections;
use crate::runtime::collections::{copy_set, insert_member, set_of};
use crate::runtime::graphs::digraph;
use crate::runtime::graphs::digraph::{graph_add_node, graph_new, graph_node_list};
use crate::runtime::interner::Symbol;
use crate::runtime::tt::types;
use crate::runtime::tt::types::{Member, Param, ParamV};

verus! {

broadcast use vstd::std_specs::hash::group_hash_axioms;

/// Whether a parameter list binds `x`.
pub open spec fn binds(params: Seq<ParamV>, x: Symbol) -> bool {
    exists|i: int| 0 <= i < params.len() && (#[trigger] params[i]).name == x
}

/// Whether a statement introduces `x` for the statements behind it.
pub open spec fn lets(s: ActionStmtV, x: Symbol) -> bool {
    s matches ActionStmtV::Let { name, .. } && name == x
}

/// Whether `x` occurs free in `e`.
pub open spec fn occurs_free(e: ExprV, x: Symbol) -> bool
    decreases e,
{
    match e {
        ExprV::Literal { .. } | ExprV::Table { .. } | ExprV::MemberAccess { .. } => false,
        ExprV::Variable { name } => name == x,
        ExprV::KeyVal { value, .. } => occurs_free(*value, x),
        ExprV::Tuple { val } => occurs_free_in_any(val, x),
        ExprV::List(val) => occurs_free_in_any(val, x),
        ExprV::Range { start, end } => occurs_free(*start, x) || occurs_free(*end, x),
        ExprV::Unop { expr, .. } => occurs_free(*expr, x),
        ExprV::Binop { expr1, expr2, .. } => occurs_free(*expr1, x) || occurs_free(*expr2, x),
        ExprV::If { cond, expr1, expr2 } => occurs_free(*cond, x) || occurs_free(*expr1, x)
            || occurs_free(*expr2, x),
        ExprV::Func { params, body, .. } => !binds(params, x) && occurs_free(*body, x),
        ExprV::Call { func, args } => occurs_free(*func, x) || occurs_free_in_any(args, x),
        ExprV::Action(stmts) => occurs_free_in_block(stmts, x),
        ExprV::Select { table_name, where_clause, .. } => table_name == x || occurs_free(
            *where_clause,
            x,
        ),
        ExprV::Fold { operation, identity, .. } => occurs_free(*operation, x) || occurs_free(
            *identity,
            x,
        ),
        ExprV::Html(parts) => occurs_free_in_parts(parts, x),
    }
}

/// Whether `x` occurs free in one of the expressions.
pub open spec fn occurs_free_in_any(es: Seq<ExprV>, x: Symbol) -> bool
    decreases es,
{
    exists|i: int| 0 <= i < es.len() && occurs_free(#[trigger] es[i], x)
}

/// Whether `x` occurs free in an expression of a template.
pub open spec fn occurs_free_in_parts(parts: Seq<HtmlPartV>, x: Symbol) -> bool
    decreases parts,
{
    exists|i: int| 0 <= i < parts.len() && occurs_free_in_part(#[trigger] parts[i], x)
}

/// Whether `x` occurs free in a piece of a template.
pub open spec fn occurs_free_in_part(p: HtmlPartV, x: Symbol) -> bool
    decreases p,
{
    match p {
        HtmlPartV::Text(_) => false,
        HtmlPartV::Expr(e) => occurs_free(e, x),
    }
}

/// Whether `x` occurs free in a block: in a statement, and no earlier one introduces it.
pub open spec fn occurs_free_in_block(stmts: Seq<ActionStmtV>, x: Symbol) -> bool
    decreases stmts,
{
    exists|i: int|
        0 <= i < stmts.len() && occurs_free_in_stmt(#[trigger] stmts[i], x) && forall|j: int|
            0 <= j < i ==> !lets(#[trigger] stmts[j], x)
}

/// Whether `x` occurs free in a statement.
pub open spec fn occurs_free_in_stmt(s: ActionStmtV, x: Symbol) -> bool
    decreases s,
{
    match s {
        ActionStmtV::Let { expr, .. } => occurs_free(expr, x),
        ActionStmtV::Assign { expr, .. } => occurs_free(expr, x),
        ActionStmtV::Do(expr) => occurs_free(expr, x),
        ActionStmtV::Assert(expr, _) => occurs_free(expr, x),
        ActionStmtV::Expr(expr) => occurs_free(expr, x),
        ActionStmtV::Insert { row, .. } => occurs_free(row, x),
        ActionStmtV::For { var, iterable, body } => occurs_free(iterable, x) || (x != var
            && occurs_free_in_block(body, x)),
    }
}

/// The free variables of `e` that `bound` does not hold.
pub open spec fn free_vars(e: ExprV, bound: Set<Symbol>) -> Set<Symbol> {
    Set::new(|x: Symbol| occurs_free(e, x) && !bound.contains(x))
}

/// Whether `e` names the member `m` of a service.
pub open spec fn names_member(e: ExprV, m: Member) -> bool
    decreases e,
{
    match e {
        ExprV::Literal { .. } | ExprV::Variable { .. } | ExprV::Table { .. } => false,
        ExprV::MemberAccess { service_name, member_name } => m == (service_name, member_name),
        ExprV::KeyVal { value, .. } => names_member(*value, m),
        ExprV::Tuple { val } => any_names_member(val, m),
        ExprV::List(val) => any_names_member(val, m),
        ExprV::Range { start, end } => names_member(*start, m) || names_member(*end, m),
        ExprV::Unop { expr, .. } => names_member(*expr, m),
        ExprV::Binop { expr1, expr2, .. } => names_member(*expr1, m) || names_member(*expr2, m),
        ExprV::If { cond, expr1, expr2 } => names_member(*cond, m) || names_member(*expr1, m)
            || names_member(*expr2, m),
        ExprV::Func { body, .. } => names_member(*body, m),
        ExprV::Call { func, args } => names_member(*func, m) || any_names_member(args, m),
        ExprV::Action(stmts) => block_names_member(stmts, m),
        ExprV::Select { where_clause, .. } => names_member(*where_clause, m),
        ExprV::Fold { operation, identity, .. } => names_member(*operation, m) || names_member(
            *identity,
            m,
        ),
        ExprV::Html(parts) => parts_name_member(parts, m),
    }
}

/// Whether one of the expressions names `m`.
pub open spec fn any_names_member(es: Seq<ExprV>, m: Member) -> bool
    decreases es,
{
    exists|i: int| 0 <= i < es.len() && names_member(#[trigger] es[i], m)
}

/// Whether an expression of a template names `m`.
pub open spec fn parts_name_member(parts: Seq<HtmlPartV>, m: Member) -> bool
    decreases parts,
{
    exists|i: int| 0 <= i < parts.len() && part_names_member(#[trigger] parts[i], m)
}

/// Whether a piece of a template names `m`.
pub open spec fn part_names_member(p: HtmlPartV, m: Member) -> bool
    decreases p,
{
    match p {
        HtmlPartV::Text(_) => false,
        HtmlPartV::Expr(e) => names_member(e, m),
    }
}

/// Whether a statement of a block names `m`.
pub open spec fn block_names_member(stmts: Seq<ActionStmtV>, m: Member) -> bool
    decreases stmts,
{
    exists|i: int| 0 <= i < stmts.len() && stmt_names_member(#[trigger] stmts[i], m)
}

/// Whether a statement names `m`.
pub open spec fn stmt_names_member(s: ActionStmtV, m: Member) -> bool
    decreases s,
{
    match s {
        ActionStmtV::Let { expr, .. } => names_member(expr, m),
        ActionStmtV::Assign { expr, .. } => names_member(expr, m),
        ActionStmtV::Do(expr) => names_member(expr, m),
        ActionStmtV::Assert(expr, _) => names_member(expr, m),
        ActionStmtV::Expr(expr) => names_member(expr, m),
        ActionStmtV::Insert { row, .. } => names_member(row, m),
        ActionStmtV::For { iterable, body, .. } => names_member(iterable, m) || block_names_member(
            body,
            m,
        ),
    }
}

/// The free variables of an expression, as the nodes of a graph without edges.
pub fn free_var_graph(expr: &Expr, var_binded: &HashSet<Symbol>) -> (res: DiGraphMap<Symbol, ()>)
    ensures
        digraph::graph_nodes(res) == free_vars(expr@, var_binded@),
        digraph::graph_edges(res) == Set::<(Symbol, Symbol)>::empty(),
{
    let mut graph = graph_new();
    populate_free_var_graph(expr, var_binded, &mut graph);
    assert(digraph::graph_nodes(graph) =~= free_vars(expr@, var_binded@));
    graph
}

/// The free variables of an expression with respect to bound variables.
pub fn free_var(expr: &Expr, var_binded: &HashSet<Symbol>) -> (res: HashSet<Symbol>)
    ensures
        res@ == free_vars(expr@, var_binded@),
{
    let graph = free_var_graph(expr, var_binded);
    set_of(&graph_node_list(&graph))
}

/// `after` holds what `before` holds, and the names for which `added` is true and which are not
/// bound.
pub open spec fn grown(
    before: DiGraphMap<Symbol, ()>,
    after: DiGraphMap<Symbol, ()>,
    bound: Set<Symbol>,
    added: spec_fn(Symbol) -> bool,
) -> bool {
    &&& digraph::graph_edges(after)
        == digraph::graph_edges(before)
    &&& forall|x: Symbol| #[trigger]
        digraph::graph_nodes(after).contains(x)
            <==> digraph::graph_nodes(before).contains(x) || (added(x)
            && !bound.contains(x))
}

/// Add the free variables of an expression to a graph.
#[verifier::rlimit(30)]
pub fn populate_free_var_graph(
    expr: &Expr,
    var_binded: &HashSet<Symbol>,
    graph: &mut DiGraphMap<Symbol, ()>,
)
    ensures
        grown(*old(graph), *final(graph), var_binded@, |x: Symbol| occurs_free(expr@, x)),
        digraph::graph_nodes(*final(graph)) == digraph::graph_nodes(*old(graph)).union(
            free_vars(expr@, var_binded@),
        ),
        digraph::graph_edges(*final(graph)) == digraph::graph_edges(*old(graph)),
    decreases *expr,
{
    proof {
        ast::lemma_expr_view(*expr);
    }
    match expr {
        Expr::Literal { .. } | Expr::Table { .. } | Expr::MemberAccess { .. } => {},
        Expr::Variable { name } => {
            if !var_binded.contains(name) {
                graph_add_node(graph, *name);
            }
        },
        Expr::KeyVal { value, .. } => {
            populate_free_var_graph(value, var_binded, graph);
        },
        Expr::Tuple { val } => {
            populate_free_var_graph_list(val, var_binded, graph);
        },
        Expr::Unop { expr, .. } => {
            populate_free_var_graph(expr, var_binded, graph);
        },
        Expr::Binop { expr1, expr2, .. } => {
            populate_free_var_graph(expr1, var_binded, graph);
            populate_free_var_graph(expr2, var_binded, graph);
        },
        Expr::If { cond, expr1, expr2 } => {
            populate_free_var_graph(cond, var_binded, graph);
            populate_free_var_graph(expr1, var_binded, graph);
            populate_free_var_graph(expr2, var_binded, graph);
        },
        Expr::Func { params, body, .. } => {
            let new_binds = with_params(var_binded, params);
            populate_free_var_graph(body, &new_binds, graph);
        },
        Expr::Html(template) => {
            populate_free_var_graph_parts(&template.parts, var_binded, graph);
        },
        Expr::Call { func, args } => {
            populate_free_var_graph(func, var_binded, graph);
            populate_free_var_graph_list(args, var_binded, graph);
        },
        Expr::Action(stmts) => {
            populate_free_var_graph_block(stmts, var_binded, graph);
        },
        Expr::Select { table_name, where_clause, .. } => {
            populate_free_var_graph(where_clause, var_binded, graph);
            if !var_binded.contains(table_name) {
                graph_add_node(graph, *table_name);
            }
        },
        Expr::Fold { operation, identity, .. } => {
            populate_free_var_graph(operation, var_binded, graph);
            populate_free_var_graph(identity, var_binded, graph);
        },
        Expr::List(val) => {
            populate_free_var_graph_list(val, var_binded, graph);
        },
        Expr::Range { start, end } => {
            populate_free_var_graph(start, var_binded, graph);
            populate_free_var_graph(end, var_binded, graph);
        },
    }
}

/// A set with the names of a parameter list added.
pub fn with_params(bound: &HashSet<Symbol>, params: &Vec<Param>) -> (res: HashSet<Symbol>)
    ensures
        forall|x: Symbol| #[trigger]
            res@.contains(x) <==> bound@.contains(x) || binds(types::views(params@), x),
{
    let mut res = copy_set(bound);
    let mut i: usize = 0;
    while i < params.len()
        invariant
            i <= params@.len(),
            forall|x: Symbol| #[trigger]
                res@.contains(x) <==> bound@.contains(x) || exists|k: int|
                    0 <= k < i && (#[trigger] params@[k]).name == x,
        decreases params@.len() - i,
    {
        let ghost before = res@;
        res.insert(params[i].name);
        i += 1;
        assert forall|x: Symbol| #[trigger] res@.contains(x) <==> bound@.contains(x) || exists|
            k: int,
        |
            0 <= k < i && (#[trigger] params@[k]).name == x by {
            assert(before.contains(x) <==> bound@.contains(x) || exists|k: int|
                0 <= k < i - 1 && (#[trigger] params@[k]).name == x);
            if x == params@[i - 1].name {
                assert(params@[i - 1].name == x);
            }
        }
    }
    assert forall|x: Symbol| #[trigger] res@.contains(x) <==> bound@.contains(x) || binds(
        types::views(params@),
        x,
    ) by {
        if binds(types::views(params@), x) {
            let k = choose|k: int|
                0 <= k < types::views(params@).len() && (#[trigger] types::views(params@)[k]).name
                    == x;
            assert(params@[k].name == x);
        }
        if exists|k: int| 0 <= k < i && (#[trigger] params@[k]).name == x {
            let k = choose|k: int| 0 <= k < i && (#[trigger] params@[k]).name == x;
            assert(types::views(params@)[k].name == x);
        }
    }
    res
}

/// Add the free variables of several expressions to a graph.
fn populate_free_var_graph_list(
    exprs: &Vec<Expr>,
    var_binded: &HashSet<Symbol>,
    graph: &mut DiGraphMap<Symbol, ()>,
)
    ensures
        grown(
            *old(graph),
            *final(graph),
            var_binded@,
            |x: Symbol| occurs_free_in_any(types::views(exprs@), x),
        ),
    decreases *exprs,
{
    let ghost es = types::views(exprs@);
    let ghost start = *graph;
    let mut i: usize = 0;
    while i < exprs.len()
        invariant
            i <= exprs@.len(),
            es == types::views(exprs@),
            grown(
                start,
                *graph,
                var_binded@,
                |x: Symbol|
                    exists|k: int| 0 <= k < i && occurs_free(#[trigger] es[k], x),
            ),
            decreases_to!(*exprs => exprs@),
        decreases exprs@.len() - i,
    {
        assert(decreases_to!(exprs@ => exprs@[i as int]));
        assert(es[i as int] == exprs@[i as int]@);
        populate_free_var_graph(&exprs[i], var_binded, graph);
        i += 1;
    }
}

/// Add the free variables of a template's expressions to a graph.
fn populate_free_var_graph_parts(
    parts: &Vec<HtmlPart>,
    var_binded: &HashSet<Symbol>,
    graph: &mut DiGraphMap<Symbol, ()>,
)
    ensures
        grown(
            *old(graph),
            *final(graph),
            var_binded@,
            |x: Symbol| occurs_free_in_parts(types::views(parts@), x),
        ),
    decreases *parts,
{
    let ghost ps = types::views(parts@);
    let ghost start = *graph;
    let mut i: usize = 0;
    while i < parts.len()
        invariant
            i <= parts@.len(),
            ps == types::views(parts@),
            grown(
                start,
                *graph,
                var_binded@,
                |x: Symbol|
                    exists|k: int| 0 <= k < i && occurs_free_in_part(#[trigger] ps[k], x),
            ),
            decreases_to!(*parts => parts@),
        decreases parts@.len() - i,
    {
        assert(decreases_to!(parts@ => parts@[i as int]));
        assert(ps[i as int] == parts@[i as int]@);
        proof {
            ast::lemma_html_part_view(parts@[i as int]);
        }
        match &parts[i] {
            HtmlPart::Text(_) => {},
            HtmlPart::Expr(e) => {
                assert(decreases_to!(parts@[i as int] => e));
                populate_free_var_graph(e, var_binded, graph);
            },
        }
        i += 1;
    }
}

/// Add the free variables of a block to a graph.
fn populate_free_var_graph_block(
    stmts: &Vec<ActionStmt>,
    var_binded: &HashSet<Symbol>,
    graph: &mut DiGraphMap<Symbol, ()>,
)
    ensures
        grown(
            *old(graph),
            *final(graph),
            var_binded@,
            |x: Symbol| occurs_free_in_block(types::views(stmts@), x),
        ),
    decreases *stmts,
{
    let ghost ss = types::views(stmts@);
    let ghost start = *graph;
    let mut binds_now = copy_set(var_binded);
    let mut i: usize = 0;
    while i < stmts.len()
        invariant
            i <= stmts@.len(),
            ss == types::views(stmts@),
            forall|x: Symbol| #[trigger]
                binds_now@.contains(x) <==> var_binded@.contains(x) || exists|k: int|
                    0 <= k < i && lets(#[trigger] ss[k], x),
            grown(
                start,
                *graph,
                var_binded@,
                |x: Symbol|
                    exists|k: int|
                        0 <= k < i && occurs_free_in_stmt(#[trigger] ss[k], x) && forall|j: int|
                            0 <= j < k ==> !lets(#[trigger] ss[j], x),
            ),
            decreases_to!(*stmts => stmts@),
        decreases stmts@.len() - i,
    {
        assert(decreases_to!(stmts@ => stmts@[i as int]));
        assert(ss[i as int] == stmts@[i as int]@);
        binds_now = populate_free_var_graph_action_stmt(&stmts[i], &binds_now, graph);
        i += 1;
    }
}

/// Add the free variables of a statement to a graph, and give what is bound behind it.
fn populate_free_var_graph_action_stmt(
    stmt: &ActionStmt,
    var_binded: &HashSet<Symbol>,
    graph: &mut DiGraphMap<Symbol, ()>,
) -> (res: HashSet<Symbol>)
    ensures
        grown(*old(graph), *final(graph), var_binded@, |x: Symbol| occurs_free_in_stmt(stmt@, x)),
        forall|x: Symbol| #[trigger]
            res@.contains(x) <==> var_binded@.contains(x) || lets(stmt@, x),
    decreases *stmt,
{
    proof {
        ast::lemma_action_stmt_view(*stmt);
    }
    match stmt {
        ActionStmt::Assign { expr, .. }
        | ActionStmt::Do(expr)
        | ActionStmt::Assert(expr, _)
        | ActionStmt::Let { expr, .. }
        | ActionStmt::Expr(expr) => {
            populate_free_var_graph(expr, var_binded, graph);
        },
        ActionStmt::Insert { row, .. } => {
            populate_free_var_graph(row, var_binded, graph);
        },
        ActionStmt::For { var, iterable, body } => {
            populate_free_var_graph(iterable, var_binded, graph);
            let mut body_binds = copy_set(var_binded);
            body_binds.insert(*var);
            populate_free_var_graph_block(body, &body_binds, graph);
        },
    }
    let mut new_binds = copy_set(var_binded);
    if let ActionStmt::Let { name, .. } = stmt {
        new_binds.insert(*name);
    }
    new_binds
}

/// The members of services that an expression names, each once.
pub fn cross_service_deps(expr: &Expr) -> (res: Vec<Member>)
    ensures
        res@.no_duplicates(),
        forall|m: Member| #[trigger] res@.contains(m) <==> names_member(expr@, m),
{
    let mut deps: Vec<Member> = Vec::new();
    collect_deps(expr, &mut deps);
    deps
}

/// `after` holds what `before` holds, and the members for which `added` is true, each once.
pub open spec fn collected(
    before: Seq<Member>,
    after: Seq<Member>,
    added: spec_fn(Member) -> bool,
) -> bool {
    &&& after.no_duplicates()
    &&& forall|m: Member| #[trigger] after.contains(m) <==> before.contains(m) || added(m)
}

/// Add the members that an expression names to a list.
#[verifier::rlimit(30)]
fn collect_deps(expr: &Expr, deps: &mut Vec<Member>)
    requires
        old(deps)@.no_duplicates(),
    ensures
        collected(old(deps)@, final(deps)@, |m: Member| names_member(expr@, m)),
    decreases *expr,
{
    proof {
        ast::lemma_expr_view(*expr);
    }
    match expr {
        Expr::Literal { .. } | Expr::Variable { .. } | Expr::Table { .. } => {},
        Expr::MemberAccess { service_name, member_name } => {
            proof {
                collections::lemma_with_member(deps@, (*service_name, *member_name));
            }
            insert_member(deps, (*service_name, *member_name));
        },
        Expr::KeyVal { value, .. } => {
            collect_deps(value, deps);
        },
        Expr::Tuple { val } => {
            collect_deps_in_list(val, deps);
        },
        Expr::Unop { expr, .. } => {
            collect_deps(expr, deps);
        },
        Expr::Binop { expr1, expr2, .. } => {
            collect_deps(expr1, deps);
            collect_deps(expr2, deps);
        },
        Expr::If { cond, expr1, expr2 } => {
            collect_deps(cond, deps);
            collect_deps(expr1, deps);
            collect_deps(expr2, deps);
        },
        Expr::Func { body, .. } => {
            collect_deps(body, deps);
        },
        Expr::Html(template) => {
            collect_deps_in_parts(&template.parts, deps);
        },
        Expr::Call { func, args } => {
            collect_deps(func, deps);
            collect_deps_in_list(args, deps);
        },
        Expr::Action(stmts) => {
            collect_deps_in_block(stmts, deps);
        },
        Expr::Select { where_clause, .. } => {
            collect_deps(where_clause, deps);
        },
        Expr::Fold { operation, identity, .. } => {
            collect_deps(operation, deps);
            collect_deps(identity, deps);
        },
        Expr::List(exprs) => {
            collect_deps_in_list(exprs, deps);
        },
        Expr::Range { start, end } => {
            collect_deps(start, deps);
            collect_deps(end, deps);
        },
    }
}

/// Add the members that several expressions name to a list.
fn collect_deps_in_list(items: &Vec<Expr>, deps: &mut Vec<Member>)
    requires
        old(deps)@.no_duplicates(),
    ensures
        collected(old(deps)@, final(deps)@, |m: Member| any_names_member(types::views(items@), m)),
    decreases *items,
{
    let ghost vs = types::views(items@);
    let ghost start = deps@;
    let mut i: usize = 0;
    while i < items.len()
        invariant
            i <= items@.len(),
            vs == types::views(items@),
            collected(
                start,
                deps@,
                |m: Member| exists|k: int| 0 <= k < i && names_member(#[trigger] vs[k], m),
            ),
            decreases_to!(*items => items@),
        decreases items@.len() - i,
    {
        assert(decreases_to!(items@ => items@[i as int]));
        assert(vs[i as int] == items@[i as int]@);
        collect_deps(&items[i], deps);
        i += 1;
    }
}

/// Add the members that a template's expressions name to a list.
fn collect_deps_in_parts(items: &Vec<HtmlPart>, deps: &mut Vec<Member>)
    requires
        old(deps)@.no_duplicates(),
    ensures
        collected(old(deps)@, final(deps)@, |m: Member| parts_name_member(types::views(items@), m)),
    decreases *items,
{
    let ghost vs = types::views(items@);
    let ghost start = deps@;
    let mut i: usize = 0;
    while i < items.len()
        invariant
            i <= items@.len(),
            vs == types::views(items@),
            collected(
                start,
                deps@,
                |m: Member| exists|k: int| 0 <= k < i && part_names_member(#[trigger] vs[k], m),
            ),
            decreases_to!(*items => items@),
        decreases items@.len() - i,
    {
        assert(decreases_to!(items@ => items@[i as int]));
        assert(vs[i as int] == items@[i as int]@);
        proof {
            ast::lemma_html_part_view(items@[i as int]);
        }
        match &items[i] {
            HtmlPart::Text(_) => {},
            HtmlPart::Expr(e) => {
                assert(decreases_to!(items@[i as int] => e));
                collect_deps(e, deps);
            },
        }
        i += 1;
    }
}

/// Add the members that a block names to a list.
fn collect_deps_in_block(items: &Vec<ActionStmt>, deps: &mut Vec<Member>)
    requires
        old(deps)@.no_duplicates(),
    ensures
        collected(
            old(deps)@,
            final(deps)@,
            |m: Member| block_names_member(types::views(items@), m),
        ),
    decreases *items,
{
    let ghost vs = types::views(items@);
    let ghost start = deps@;
    let mut i: usize = 0;
    while i < items.len()
        invariant
            i <= items@.len(),
            vs == types::views(items@),
            collected(
                start,
                deps@,
                |m: Member| exists|k: int| 0 <= k < i && stmt_names_member(#[trigger] vs[k], m),
            ),
            decreases_to!(*items => items@),
        decreases items@.len() - i,
    {
        assert(decreases_to!(items@ => items@[i as int]));
        assert(vs[i as int] == items@[i as int]@);
        cross_service_deps_in_action_stmt(&items[i], deps);
        i += 1;
    }
}

/// Add the members that a statement names to a list.
fn cross_service_deps_in_action_stmt(stmt: &ActionStmt, deps: &mut Vec<Member>)
    requires
        old(deps)@.no_duplicates(),
    ensures
        collected(old(deps)@, final(deps)@, |m: Member| stmt_names_member(stmt@, m)),
    decreases *stmt,
{
    proof {
        ast::lemma_action_stmt_view(*stmt);
    }
    match stmt {
        ActionStmt::Let { expr, .. } => collect_deps(expr, deps),
        ActionStmt::Expr(expr) => collect_deps(expr, deps),
        ActionStmt::Do(expr) => collect_deps(expr, deps),
        ActionStmt::Assert(expr, _) => collect_deps(expr, deps),
        ActionStmt::Assign { expr, .. } => collect_deps(expr, deps),
        ActionStmt::Insert { row, .. } => collect_deps(row, deps),
        ActionStmt::For { iterable, body, .. } => {
            collect_deps(iterable, deps);
            collect_deps_in_block(body, deps);
        },
    }
}

/// What is free under bound names is what is free at all, without those names.
pub proof fn bound_names_are_removed(e: ExprV, bound: Set<Symbol>)
    ensures
        free_vars(e, bound) == free_vars(e, Set::empty()).difference(bound),
{
    assert(free_vars(e, bound) =~= free_vars(e, Set::empty()).difference(bound));
}

/// A function's parameters hide the names around it: what is free in it is what is free in its
/// body once the parameters are bound too.
pub proof fn parameters_shadow(e: ExprV, bound: Set<Symbol>)
    requires
        e is Func,
    ensures
        free_vars(e, bound) == free_vars(
            *e->body,
            bound.union(Set::new(|x: Symbol| binds(e->Func_params, x))),
        ),
{
    assert(free_vars(e, bound) =~= free_vars(
        *e->body,
        bound.union(Set::new(|x: Symbol| binds(e->Func_params, x))),
    ));
}

/// Nested functions need from around them what their innermost body needs, without the
/// parameters of any of them.
pub proof fn nested_functions_flatten(outer: ExprV, x: Symbol)
    requires
        outer is Func,
        *outer->body is Func,
    ensures
        occurs_free(outer, x) <==> !binds(outer->Func_params, x) && !binds(
            (*outer->body)->Func_params,
            x,
        ) && occurs_free(*(*outer->body)->body, x),
{
    assert(occurs_free(*outer->body, x) <==> !binds((*outer->body)->Func_params, x) && occurs_free(
        *(*outer->body)->body,
        x,
    ));
}

} // verus!
