//! The names that an expression reads: its free variables, and the tables that it selects from.

use std::collections::HashSet;
use vstd::prelude::*;

use crate::runtime::ast;
use crate::runtime::ast::{Expr, ExprV, HtmlPart, HtmlPartV};
use crate::runtime::graphs::free_var;
use crate::runtime::graphs::free_var::with_params;
use crate::runtime::interner::Symbol;
use crate::runtime::tt::types;

verus! {

broadcast use vstd::std_specs::hash::group_hash_axioms;

/// Whether no action in `e` has statements.
pub open spec fn is_plain(e: ExprV) -> bool
    decreases e,
{
    match e {
        ExprV::Literal { .. } | ExprV::Table { .. } | ExprV::MemberAccess { .. }
        | ExprV::Variable { .. } => true,
        ExprV::KeyVal { value, .. } => is_plain(*value),
        ExprV::Tuple { val } => all_plain(val),
        ExprV::List(val) => all_plain(val),
        ExprV::Range { start, end } => is_plain(*start) && is_plain(*end),
        ExprV::Unop { expr, .. } => is_plain(*expr),
        ExprV::Binop { expr1, expr2, .. } => is_plain(*expr1) && is_plain(*expr2),
        ExprV::If { cond, expr1, expr2 } => is_plain(*cond) && is_plain(*expr1) && is_plain(
            *expr2,
        ),
        ExprV::Func { body, .. } => is_plain(*body),
        ExprV::Call { func, args } => is_plain(*func) && all_plain(args),
        ExprV::Action(stmts) => stmts.len() == 0,
        ExprV::Select { where_clause, .. } => is_plain(*where_clause),
        ExprV::Fold { operation, identity, .. } => is_plain(*operation) && is_plain(*identity),
        ExprV::Html(parts) => parts_plain(parts),
    }
}

/// Whether no action in the expressions has statements.
pub open spec fn all_plain(es: Seq<ExprV>) -> bool
    decreases es,
{
    forall|i: int| 0 <= i < es.len() ==> is_plain(#[trigger] es[i])
}

/// Whether no action in a template has statements.
pub open spec fn parts_plain(parts: Seq<HtmlPartV>) -> bool
    decreases parts,
{
    forall|i: int| 0 <= i < parts.len() ==> part_plain(#[trigger] parts[i])
}

/// Whether no action in a piece of a template has statements.
pub open spec fn part_plain(p: HtmlPartV) -> bool
    decreases p,
{
    match p {
        HtmlPartV::Text(_) => true,
        HtmlPartV::Expr(e) => is_plain(e),
    }
}

/// `after` holds what `before` holds, and the names that occur and are not bound.
pub open spec fn extended(
    before: Set<Symbol>,
    after: Set<Symbol>,
    bound: Set<Symbol>,
    occurs: spec_fn(Symbol) -> bool,
) -> bool {
    forall|x: Symbol| #[trigger]
        after.contains(x) <==> before.contains(x) || (occurs(x) && !bound.contains(x))
}

/// Add the names that an expression reads.
#[verifier::rlimit(40)]
fn collect_read(expr: &Expr, bound: &HashSet<Symbol>, out: &mut HashSet<Symbol>)
    requires
        is_plain(expr@),
    ensures
        extended(
            old(out)@,
            final(out)@,
            bound@,
            |x: Symbol| free_var::occurs_free(expr@, x),
        ),
    decreases *expr,
{
    proof {
        ast::lemma_expr_view(*expr);
    }
    match expr {
        Expr::Literal { .. } | Expr::Table { .. } | Expr::MemberAccess { .. } => {},
        Expr::Variable { name } => {
            if !bound.contains(name) {
                out.insert(*name);
            }
        },
        Expr::KeyVal { value, .. } => {
            collect_read(value, bound, out);
        },
        Expr::Tuple { val } => {
            collect_read_all(val, bound, out);
        },
        Expr::List(val) => {
            collect_read_all(val, bound, out);
        },
        Expr::Range { start, end } => {
            collect_read(start, bound, out);
            collect_read(end, bound, out);
        },
        Expr::Unop { expr, .. } => {
            collect_read(expr, bound, out);
        },
        Expr::Binop { expr1, expr2, .. } => {
            collect_read(expr1, bound, out);
            collect_read(expr2, bound, out);
        },
        Expr::If { cond, expr1, expr2 } => {
            collect_read(cond, bound, out);
            collect_read(expr1, bound, out);
            collect_read(expr2, bound, out);
        },
        Expr::Func { params, body, .. } => {
            let new_binds = with_params(bound, params);
            collect_read(body, &new_binds, out);
        },
        Expr::Call { func, args } => {
            collect_read(func, bound, out);
            collect_read_all(args, bound, out);
        },
        Expr::Action(stmts) => {
            assert forall|x: Symbol| !free_var::occurs_free(expr@, x) by {
                assert(!free_var::occurs_free_in_block(types::views(stmts@), x));
            }
        },
        Expr::Select { table_name, where_clause, .. } => {
            collect_read(where_clause, bound, out);
            if !bound.contains(table_name) {
                out.insert(*table_name);
            }
        },
        Expr::Fold { operation, identity, .. } => {
            collect_read(operation, bound, out);
            collect_read(identity, bound, out);
        },
        Expr::Html(template) => {
            collect_read_parts(&template.parts, bound, out);
        },
    }
}

/// Add the names that expressions read.
fn collect_read_all(exprs: &Vec<Expr>, bound: &HashSet<Symbol>, out: &mut HashSet<Symbol>)
    requires
        all_plain(types::views(exprs@)),
    ensures
        extended(
            old(out)@,
            final(out)@,
            bound@,
            |x: Symbol| free_var::occurs_free_in_any(types::views(exprs@), x),
        ),
    decreases *exprs,
{
    let ghost es = types::views(exprs@);
    let ghost start = out@;
    let mut i: usize = 0;
    while i < exprs.len()
        invariant
            i <= exprs@.len(),
            es == types::views(exprs@),
            all_plain(es),
            extended(
                start,
                out@,
                bound@,
                |x: Symbol| exists|k: int| 0 <= k < i && free_var::occurs_free(#[trigger] es[k], x),
            ),
            decreases_to!(*exprs => exprs@),
        decreases exprs@.len() - i,
    {
        assert(decreases_to!(exprs@ => exprs@[i as int]));
        assert(es[i as int] == exprs@[i as int]@);
        collect_read(&exprs[i], bound, out);
        i += 1;
    }
}

/// Add the names that a template reads.
fn collect_read_parts(parts: &Vec<HtmlPart>, bound: &HashSet<Symbol>, out: &mut HashSet<Symbol>)
    requires
        parts_plain(types::views(parts@)),
    ensures
        extended(
            old(out)@,
            final(out)@,
            bound@,
            |x: Symbol| free_var::occurs_free_in_parts(types::views(parts@), x),
        ),
    decreases *parts,
{
    let ghost ps = types::views(parts@);
    let ghost start = out@;
    let mut i: usize = 0;
    while i < parts.len()
        invariant
            i <= parts@.len(),
            ps == types::views(parts@),
            parts_plain(ps),
            extended(
                start,
                out@,
                bound@,
                |x: Symbol|
                    exists|k: int|
                        0 <= k < i && free_var::occurs_free_in_part(#[trigger] ps[k], x),
            ),
            decreases_to!(*parts => parts@),
        decreases parts@.len() - i,
    {
        assert(decreases_to!(parts@ => parts@[i as int]));
        assert(ps[i as int] == parts@[i as int]@);
        proof {
            ast::lemma_html_part_view(parts@[i as int]);
        }
        match &parts[i] {
            HtmlPart::Text(_) => {},
            HtmlPart::Expr(e) => {
                assert(decreases_to!(parts@[i as int] => e));
                assert(part_plain(ps[i as int]));
                collect_read(e, bound, out);
            },
        }
        i += 1;
    }
}

impl Expr {
    /// The variables and tables that the expression reads, without those that are bound. Inside an
    /// action the names in `_reactive_names` would not count, but an action has no statements here.
    pub fn free_var(
        &self,
        _reactive_names: &HashSet<Symbol>,
        var_binded: &HashSet<Symbol>,
    ) -> (res: HashSet<Symbol>)
        requires
            is_plain(self@),
        ensures
            res@ == free_var::free_vars(self@, var_binded@),
            res@.disjoint(var_binded@),
    {
        let mut res: HashSet<Symbol> = HashSet::new();
        collect_read(self, var_binded, &mut res);
        assert(res@ =~= free_var::free_vars(self@, var_binded@));
        res
    }
}

} // verus!
