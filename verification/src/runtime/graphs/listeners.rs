//! Who is told of a change: those whose definitions use what changed.

use vstd::prelude::*;

use crate::runtime::ast;
use crate::runtime::ast::{DeclV, ExprV};
use crate::runtime::graphs::analysis;
use crate::runtime::graphs::free_var;
use crate::runtime::graphs::uses;
use crate::runtime::graphs::ServiceGraphs;
use crate::runtime::interner::Symbol;
use crate::runtime::tree::Node;
use crate::runtime::tt::types::Member;

verus! {

/// Whether a declaration gives a name an expression that is evaluated whenever it is read.
pub open spec fn defines_as(d: DeclV, x: Symbol, e: ExprV) -> bool {
    d is DefDecl && d->DefDecl_name == x && d->DefDecl_val == e
}

/// Whether a declaration introduces a name, as whatever it may be.
pub open spec fn introduces(d: DeclV, x: Symbol) -> bool {
    match d {
        DeclV::VarDecl { name, .. } => name == x,
        DeclV::DefDecl { name, .. } => name == x,
        DeclV::TableDecl { name, .. } => name == x,
    }
}

/// A change of one member of a service leads to another exactly where that other is defined by an
/// expression in which the first is used and not bound.
pub proof fn edges_follow_uses(g: ServiceGraphs, decls: Seq<DeclV>, a: Symbol, b: Symbol)
    requires
        analysis::analyses(g, decls),
    ensures
        g.edges().contains((a, b)) <==> {
            &&& exists|i: int| 0 <= i < decls.len() && introduces(#[trigger] decls[i], a)
            &&& exists|i: int, e: ExprV|
                0 <= i < decls.len() && #[trigger] defines_as(decls[i], b, e) && uses::uses(
                    Node::Expr(e),
                    a,
                )
        },
{
    assert(g.edges().contains((a, b)) <==> analysis::notifies(decls, a, b));
    assert forall|i: int, e: ExprV|
        0 <= i < decls.len() && #[trigger] defines_as(decls[i], b, e) && uses::uses(
            Node::Expr(e),
            a,
        ) implies ast::decl_name(decls[i]) == b && analysis::reads(decls[i], a) by {
        uses::free_names_are_those_used_unbound(e, a);
    }
    if analysis::notifies(decls, a, b) {
        let i = choose|i: int|
            0 <= i < decls.len() && ast::decl_name(decls[i]) == b && analysis::reads(
                #[trigger] decls[i],
                a,
            );
        let e = decls[i]->DefDecl_val;
        uses::free_names_are_those_used_unbound(e, a);
        assert(defines_as(decls[i], b, e));
        let k = choose|k: int| 0 <= k < decls.len() && ast::decl_name(#[trigger] decls[k]) == a;
        assert(introduces(decls[k], a));
    }
    if exists|i: int| 0 <= i < decls.len() && introduces(#[trigger] decls[i], a) {
        let k = choose|k: int| 0 <= k < decls.len() && introduces(#[trigger] decls[k], a);
        assert(ast::decl_name(decls[k]) == a);
    }
}

/// Whether the members of services that a name depends on hold a member.
pub open spec fn crosses(g: ServiceGraphs, x: Symbol, m: Member) -> bool {
    g.cross_deps@.dom().contains(x) && g.cross_deps@[x]@.contains(m)
}

/// A definition depends on exactly those members of services that its expression accesses, where
/// nothing else has its name.
pub proof fn crossings_follow_accesses(
    g: ServiceGraphs,
    decls: Seq<DeclV>,
    i: int,
    x: Symbol,
    e: ExprV,
    m: Member,
)
    requires
        analysis::analyses(g, decls),
        0 <= i < decls.len(),
        defines_as(decls[i], x, e),
        forall|j: int| 0 <= j < decls.len() && j != i ==> !introduces(#[trigger] decls[j], x),
    ensures
        crosses(g, x, m) <==> uses::accesses(Node::Expr(e), m),
{
    uses::listed_members_are_those_accessed(e, m);
    assert forall|j: int| 0 <= j < decls.len() && j != i implies ast::decl_name(#[trigger] decls[j])
        != x by {
        assert(!introduces(decls[j], x));
    }
    if free_var::names_member(e, m) {
        assert(analysis::names_any_member(decls[i]));
        assert(analysis::last_crossing(decls, i));
    }
    if g.cross_deps@.dom().contains(x) {
        let k = choose|k: int| #[trigger]
            analysis::last_crossing(decls, k) && ast::decl_name(decls[k]) == x;
        assert(k == i);
        assert(analysis::lists_members(g.cross_deps@[x]@, decls[i]));
    }
}

/// A variable and a table depend on nothing: what their expressions read, they read once.
pub proof fn variables_cross_nothing(g: ServiceGraphs, decls: Seq<DeclV>, x: Symbol, m: Member)
    requires
        analysis::analyses(g, decls),
        forall|j: int|
            0 <= j < decls.len() && introduces(#[trigger] decls[j], x) ==> decls[j] !is DefDecl,
    ensures
        !crosses(g, x, m),
{
    if g.cross_deps@.dom().contains(x) {
        let k = choose|k: int| #[trigger]
            analysis::last_crossing(decls, k) && ast::decl_name(decls[k]) == x;
        assert(introduces(decls[k], x));
    }
}

/// The names of a service are kept by what they were declared as.
pub proof fn names_are_kept_by_kind(g: ServiceGraphs, decls: Seq<DeclV>, x: Symbol)
    requires
        analysis::analyses(g, decls),
    ensures
        g.vars@.contains(x) <==> exists|i: int|
            0 <= i < decls.len() && (#[trigger] decls[i]) is VarDecl && introduces(decls[i], x),
        g.defs@.contains(x) <==> exists|i: int|
            0 <= i < decls.len() && (#[trigger] decls[i]) is DefDecl && introduces(decls[i], x),
        g.tables@.contains(x) <==> exists|i: int|
            0 <= i < decls.len() && (#[trigger] decls[i]) is TableDecl && introduces(decls[i], x),
{
    assert forall|i: int| 0 <= i < decls.len() implies (introduces(#[trigger] decls[i], x)
        <==> ast::decl_name(decls[i]) == x) by {}
    assert(g.vars@.contains(x) <==> analysis::declares_var(decls, x));
    assert(g.defs@.contains(x) <==> analysis::declares_def(decls, x));
    assert(g.tables@.contains(x) <==> analysis::declares_table(decls, x));
}

} // verus!
