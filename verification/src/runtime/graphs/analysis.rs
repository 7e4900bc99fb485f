//! Dependency analysis of whole programs.

use std::collections::{HashMap, HashSet};
use vstd::prelude::*;

use crate::runtime::ast;
use crate::runtime::ast::{Decl, DeclV, Expr, Stmt};
use crate::runtime::graphs::digraph;
use crate::runtime::graphs::digraph::{graph_add_edge, graph_add_node};
use crate::runtime::graphs::free_var;
use crate::runtime::graphs::ServiceGraphs;
use crate::runtime::interner::Symbol;
use crate::runtime::tt::types;
use crate::runtime::tt::types::Member;

verus! {

broadcast use vstd::std_specs::hash::group_hash_axioms;

/// Whether one of the declarations introduces `x`.
pub open spec fn declares(decls: Seq<DeclV>, x: Symbol) -> bool {
    exists|i: int| 0 <= i < decls.len() && ast::decl_name(#[trigger] decls[i]) == x
}

/// Whether one of the declarations is a variable `x`.
pub open spec fn declares_var(decls: Seq<DeclV>, x: Symbol) -> bool {
    exists|i: int|
        0 <= i < decls.len() && (#[trigger] decls[i]) is VarDecl && ast::decl_name(decls[i]) == x
}

/// Whether one of the declarations is a definition `x`.
pub open spec fn declares_def(decls: Seq<DeclV>, x: Symbol) -> bool {
    exists|i: int|
        0 <= i < decls.len() && (#[trigger] decls[i]) is DefDecl && ast::decl_name(decls[i]) == x
}

/// Whether one of the declarations is a table `x`.
pub open spec fn declares_table(decls: Seq<DeclV>, x: Symbol) -> bool {
    exists|i: int|
        0 <= i < decls.len() && (#[trigger] decls[i]) is TableDecl && ast::decl_name(decls[i]) == x
}

/// Whether `d` is a definition whose expression reads `x`. A variable reads other members only
/// when it is made, so it follows none of them.
pub open spec fn reads(d: DeclV, x: Symbol) -> bool {
    d matches DeclV::DefDecl { val, .. } && free_var::occurs_free(val, x)
}

/// Whether `d` is a definition whose expression names a member of a service.
pub open spec fn names_any_member(d: DeclV) -> bool {
    d matches DeclV::DefDecl { val, .. } && exists|m: Member| free_var::names_member(val, m)
}

/// Whether `b` is told when `a` changes: `a` is declared, and a definition of `b` reads it.
pub open spec fn notifies(decls: Seq<DeclV>, a: Symbol, b: Symbol) -> bool {
    declares(decls, a) && exists|i: int|
        0 <= i < decls.len() && ast::decl_name(decls[i]) == b && reads(#[trigger] decls[i], a)
}

/// Whether declaration `i` is the last of its name that names a member of a service.
pub open spec fn last_crossing(decls: Seq<DeclV>, i: int) -> bool {
    &&& 0 <= i < decls.len()
    &&& names_any_member(decls[i])
    &&& forall|j: int|
        i < j < decls.len() && ast::decl_name(#[trigger] decls[j]) == ast::decl_name(decls[i])
            ==> !names_any_member(decls[j])
}

/// Whether `deps` lists the members that the expression of `d` names, each once.
pub open spec fn lists_members(deps: Seq<Member>, d: DeclV) -> bool {
    &&& deps.no_duplicates()
    &&& forall|m: Member| #[trigger]
        deps.contains(m) <==> (ast::decl_val(d) matches Some(e) && free_var::names_member(e, m))
}

/// Whether `g` holds the declared names of a service by kind.
pub open spec fn names_recorded(g: ServiceGraphs, decls: Seq<DeclV>) -> bool {
    &&& forall|x: Symbol| #[trigger] g.vars@.contains(x) <==> declares_var(decls, x)
    &&& forall|x: Symbol| #[trigger] g.defs@.contains(x) <==> declares_def(decls, x)
    &&& forall|x: Symbol| #[trigger] g.tables@.contains(x) <==> declares_table(decls, x)
    &&& forall|x: Symbol| #[trigger] g.nodes().contains(x) <==> declares(decls, x)
}

/// Whether `cross` gives for each name the members that its last crossing declaration names.
pub open spec fn crossings_recorded(cross: Map<Symbol, Vec<Member>>, decls: Seq<DeclV>) -> bool {
    &&& forall|i: int| #[trigger]
        last_crossing(decls, i) ==> cross.dom().contains(ast::decl_name(decls[i]))
            && lists_members(cross[ast::decl_name(decls[i])]@, decls[i])
    &&& forall|x: Symbol| #[trigger]
        cross.dom().contains(x) ==> exists|i: int| #[trigger]
            last_crossing(decls, i) && ast::decl_name(decls[i]) == x
}

/// Whether `g` is the analysis of the declarations of a service.
pub open spec fn analyses(g: ServiceGraphs, decls: Seq<DeclV>) -> bool {
    &&& names_recorded(g, decls)
    &&& forall|a: Symbol, b: Symbol| #[trigger]
        g.edges().contains((a, b)) <==> notifies(decls, a, b)
    &&& crossings_recorded(g.cross_deps@, decls)
}

/// The dependency graphs of every service of a program, in order.
pub fn compute_dependencies(
    program: &[Stmt],
    _pre_initialized: Option<&HashMap<Symbol, HashSet<Symbol>>>,
) -> (res: Vec<ServiceGraphs>)
    ensures
        res@.len() == ast::services(types::views(program@)).len(),
        forall|i: int|
            0 <= i < res@.len() ==> analyses(
                #[trigger] res@[i],
                ast::services(types::views(program@))[i].1,
            ),
{
    let ghost prog = types::views(program@);
    let mut all_graphs: Vec<ServiceGraphs> = Vec::new();
    let mut i: usize = 0;
    while i < program.len()
        invariant
            i <= program@.len(),
            prog == types::views(program@),
            all_graphs@.len() == ast::services(prog.take(i as int)).len(),
            forall|k: int|
                0 <= k < all_graphs@.len() ==> analyses(
                    #[trigger] all_graphs@[k],
                    ast::services(prog.take(i as int))[k].1,
                ),
        decreases program@.len() - i,
    {
        assert(prog.take(i + 1).drop_last() =~= prog.take(i as int));
        assert(prog.take(i + 1).last() == program@[i as int]@);
        proof {
            ast::lemma_stmt_view(program@[i as int]);
        }
        if let Stmt::Service { decls, .. } = &program[i] {
            let graphs = service_graphs(decls);
            all_graphs.push(graphs);
        }
        i += 1;
    }
    assert(prog.take(i as int) =~= prog);
    all_graphs
}

/// The dependency graphs of one service.
pub fn service_graphs(decls: &Vec<Decl>) -> (res: ServiceGraphs)
    ensures
        analyses(res, types::views(decls@)),
{
    let ghost ds = types::views(decls@);
    let mut graphs = ServiceGraphs::new();
    let mut declared: HashSet<Symbol> = HashSet::new();
    let mut i: usize = 0;
    while i < decls.len()
        invariant
            i <= decls@.len(),
            ds == types::views(decls@),
            names_recorded(graphs, ds.take(i as int)),
            forall|x: Symbol| #[trigger]
                declared@.contains(x) <==> declares(ds.take(i as int), x),
            graphs.edges() == Set::<(Symbol, Symbol)>::empty(),
            graphs.cross_deps@ == Map::<Symbol, Vec<Member>>::empty(),
        decreases decls@.len() - i,
    {
        proof {
            lemma_declares_next(ds, i as int);
        }
        match &decls[i] {
            Decl::VarDecl { name, .. } => {
                declared.insert(*name);
                graphs.vars.insert(*name);
                graph_add_node(&mut graphs.reactive_graph, *name);
            },
            Decl::DefDecl { name, .. } => {
                declared.insert(*name);
                graphs.defs.insert(*name);
                graph_add_node(&mut graphs.reactive_graph, *name);
            },
            Decl::TableDecl { name, .. } => {
                declared.insert(*name);
                graphs.tables.insert(*name);
                graph_add_node(&mut graphs.reactive_graph, *name);
            },
        }
        i += 1;
    }
    assert(ds.take(i as int) =~= ds);
    let mut j: usize = 0;
    while j < decls.len()
        invariant
            j <= decls@.len(),
            ds == types::views(decls@),
            names_recorded(graphs, ds),
            forall|x: Symbol| #[trigger] declared@.contains(x) <==> declares(ds, x),
            forall|a: Symbol, b: Symbol| #[trigger]
                graphs.edges().contains((a, b)) <==> declares(ds, a) && exists|k: int|
                    0 <= k < j && ast::decl_name(ds[k]) == b && reads(#[trigger] ds[k], a),
            crossings_recorded(graphs.cross_deps@, ds.take(j as int)),
        decreases decls@.len() - j,
    {
        assert(ds[j as int] == decls@[j as int]@);
        match &decls[j] {
            Decl::DefDecl { name, val, .. } => {
                record_decl(&mut graphs, &declared, *name, val, Ghost(ds), Ghost(j as int));
            },
            Decl::VarDecl { .. } | Decl::TableDecl { .. } => {
                proof {
                    lemma_no_crossing(graphs.cross_deps@, ds, j as int);
                }
            },
        }
        j += 1;
    }
    assert(ds.take(j as int) =~= ds);
    graphs
}

/// Enter what the expression of definition `j` reads and names.
fn record_decl(
    graphs: &mut ServiceGraphs,
    declared: &HashSet<Symbol>,
    name: Symbol,
    val: &Expr,
    Ghost(ds): Ghost<Seq<DeclV>>,
    Ghost(j): Ghost<int>,
)
    requires
        0 <= j < ds.len(),
        ds[j] is DefDecl,
        ast::decl_name(ds[j]) == name,
        ast::decl_val(ds[j]) == Some(val@),
        names_recorded(*old(graphs), ds),
        forall|x: Symbol| #[trigger] declared@.contains(x) <==> declares(ds, x),
        forall|a: Symbol, b: Symbol| #[trigger]
            old(graphs).edges().contains((a, b)) <==> declares(ds, a) && exists|k: int|
                0 <= k < j && ast::decl_name(ds[k]) == b && reads(#[trigger] ds[k], a),
        crossings_recorded(old(graphs).cross_deps@, ds.take(j)),
    ensures
        names_recorded(*final(graphs), ds),
        forall|a: Symbol, b: Symbol| #[trigger]
            final(graphs).edges().contains((a, b)) <==> declares(ds, a) && exists|k: int|
                0 <= k < j + 1 && ast::decl_name(ds[k]) == b && reads(#[trigger] ds[k], a),
        crossings_recorded(final(graphs).cross_deps@, ds.take(j + 1)),
{
    let ghost before = graphs.edges();
    let ghost cross_before = graphs.cross_deps@;
    let cross_deps = free_var::cross_service_deps(val);
    if cross_deps.len() > 0 {
        let ghost listed = cross_deps;
        assert(listed@.contains(listed@[0]));
        graphs.cross_deps.insert(name, cross_deps);
        proof {
            lemma_crossing(cross_before, ds, j, listed);
        }
    } else {
        proof {
            assert forall|m: Member| !free_var::names_member(val@, m) by {
                assert(!cross_deps@.contains(m));
            }
            lemma_no_crossing(cross_before, ds, j);
        }
    }
    let none: HashSet<Symbol> = HashSet::new();
    let graph = free_var::free_var_graph(val, &none);
    let all_deps = digraph::graph_node_list(&graph);
    let mut i: usize = 0;
    while i < all_deps.len()
        invariant
            i <= all_deps@.len(),
            0 <= j < ds.len(),
            ds[j] is DefDecl,
            ast::decl_name(ds[j]) == name,
            names_recorded(*graphs, ds),
            forall|x: Symbol| #[trigger] declared@.contains(x) <==> declares(ds, x),
            forall|a: Symbol, b: Symbol| #[trigger]
                graphs.edges().contains((a, b)) <==> before.contains((a, b)) || (b == name
                    && declares(ds, a) && exists|k: int|
                    0 <= k < i && (#[trigger] all_deps@[k]) == a),
            crossings_recorded(graphs.cross_deps@, ds.take(j + 1)),
        decreases all_deps@.len() - i,
    {
        if declared.contains(&all_deps[i]) {
            assert(declares(ds, name));
            graph_add_edge(&mut graphs.reactive_graph, all_deps[i], name);
        }
        i += 1;
    }
    assert forall|a: Symbol, b: Symbol| #[trigger]
        graphs.edges().contains((a, b)) <==> declares(ds, a) && exists|k: int|
            0 <= k < j + 1 && ast::decl_name(ds[k]) == b && reads(#[trigger] ds[k], a) by {
        assert(reads(ds[j], a) <==> all_deps@.to_set().contains(a));
        if all_deps@.contains(a) {
            let k = choose|k: int| 0 <= k < all_deps@.len() && all_deps@[k] == a;
            assert(all_deps@[k] == a);
        }
        assert(before.contains((a, b)) <==> declares(ds, a) && exists|k: int|
            0 <= k < j && ast::decl_name(ds[k]) == b && reads(#[trigger] ds[k], a));
    }
}

/// What one more declaration declares.
proof fn lemma_declares_next(ds: Seq<DeclV>, i: int)
    requires
        0 <= i < ds.len(),
    ensures
        forall|x: Symbol|
            #![trigger declares(ds.take(i + 1), x)]
            declares(ds.take(i + 1), x) <==> declares(ds.take(i), x) || ast::decl_name(ds[i]) == x,
        forall|x: Symbol|
            #![trigger declares_var(ds.take(i + 1), x)]
            declares_var(ds.take(i + 1), x) <==> declares_var(ds.take(i), x) || (ds[i] is VarDecl
                && ast::decl_name(ds[i]) == x),
        forall|x: Symbol|
            #![trigger declares_def(ds.take(i + 1), x)]
            declares_def(ds.take(i + 1), x) <==> declares_def(ds.take(i), x) || (ds[i] is DefDecl
                && ast::decl_name(ds[i]) == x),
        forall|x: Symbol|
            #![trigger declares_table(ds.take(i + 1), x)]
            declares_table(ds.take(i + 1), x) <==> declares_table(ds.take(i), x) || (
            ds[i] is TableDecl && ast::decl_name(ds[i]) == x),
{
    let longer = ds.take(i + 1);
    let shorter = ds.take(i);
    assert(longer[i] == ds[i]);
    assert(forall|k: int| 0 <= k < i ==> #[trigger] longer[k] == shorter[k]);
    assert(forall|k: int| 0 <= k < i ==> #[trigger] shorter[k] == longer[k]);
}

/// A declaration that names no member leaves the crossings as they are.
proof fn lemma_no_crossing(cross: Map<Symbol, Vec<Member>>, ds: Seq<DeclV>, j: int)
    requires
        0 <= j < ds.len(),
        !names_any_member(ds[j]),
        crossings_recorded(cross, ds.take(j)),
    ensures
        crossings_recorded(cross, ds.take(j + 1)),
{
    let shorter = ds.take(j);
    let longer = ds.take(j + 1);
    assert forall|i: int| last_crossing(longer, i) <==> last_crossing(shorter, i) by {
        assert(forall|k: int| 0 <= k < j ==> #[trigger] longer[k] == shorter[k]);
        assert(forall|k: int| 0 <= k < j ==> #[trigger] shorter[k] == longer[k]);
        assert(longer[j] == ds[j]);
    }
    assert forall|i: int| #[trigger] last_crossing(longer, i) implies cross.dom().contains(
        ast::decl_name(longer[i]),
    ) && lists_members(cross[ast::decl_name(longer[i])]@, longer[i]) by {
        assert(last_crossing(shorter, i));
        assert(longer[i] == shorter[i]);
    }
    assert forall|x: Symbol| #[trigger] cross.dom().contains(x) implies exists|i: int| #[trigger]
        last_crossing(longer, i) && ast::decl_name(longer[i]) == x by {
        let i = choose|i: int| #[trigger]
            last_crossing(shorter, i) && ast::decl_name(shorter[i]) == x;
        assert(last_crossing(longer, i));
        assert(longer[i] == shorter[i]);
    }
}

/// A declaration that names members takes the place of its name in the crossings.
proof fn lemma_crossing(
    cross: Map<Symbol, Vec<Member>>,
    ds: Seq<DeclV>,
    j: int,
    deps: Vec<Member>,
)
    requires
        0 <= j < ds.len(),
        names_any_member(ds[j]),
        lists_members(deps@, ds[j]),
        crossings_recorded(cross, ds.take(j)),
    ensures
        crossings_recorded(cross.insert(ast::decl_name(ds[j]), deps), ds.take(j + 1)),
{
    let shorter = ds.take(j);
    let longer = ds.take(j + 1);
    let name = ast::decl_name(ds[j]);
    let after = cross.insert(name, deps);
    assert(forall|k: int| 0 <= k < j ==> #[trigger] longer[k] == shorter[k]);
    assert(forall|k: int| 0 <= k < j ==> #[trigger] shorter[k] == longer[k]);
    assert(longer[j] == ds[j]);
    assert(last_crossing(longer, j));
    assert forall|i: int| #[trigger] last_crossing(longer, i) implies after.dom().contains(
        ast::decl_name(longer[i]),
    ) && lists_members(after[ast::decl_name(longer[i])]@, longer[i]) by {
        if i != j {
            assert(last_crossing(shorter, i));
        }
    }
    assert forall|x: Symbol| #[trigger] after.dom().contains(x) implies exists|i: int| #[trigger]
        last_crossing(longer, i) && ast::decl_name(longer[i]) == x by {
        if x != name {
            assert(cross.dom().contains(x));
            let i = choose|i: int| #[trigger]
                last_crossing(shorter, i) && ast::decl_name(shorter[i]) == x;
            assert(last_crossing(longer, i));
        }
    }
}

/// Only definitions are told of changes: a member that is declared as a variable, and not as a
/// definition, ends no edge and has no entry among the members of other services.
pub proof fn variables_are_not_listeners(g: ServiceGraphs, decls: Seq<DeclV>, x: Symbol)
    requires
        analyses(g, decls),
        !declares_def(decls, x),
    ensures
        forall|a: Symbol| !g.edges().contains((a, x)),
        !g.cross_deps@.dom().contains(x),
{
    assert forall|a: Symbol| !g.edges().contains((a, x)) by {
        if g.edges().contains((a, x)) {
            let i = choose|i: int|
                0 <= i < decls.len() && ast::decl_name(decls[i]) == x && reads(
                    #[trigger] decls[i],
                    a,
                );
            assert(decls[i] is DefDecl);
        }
    }
    if g.cross_deps@.dom().contains(x) {
        let i = choose|i: int| #[trigger]
            last_crossing(decls, i) && ast::decl_name(decls[i]) == x;
        assert(decls[i] is DefDecl);
    }
}

/// The analysis of a service records edges between its declared members only.
pub proof fn edges_join_declared_members(g: ServiceGraphs, decls: Seq<DeclV>, a: Symbol, b: Symbol)
    requires
        analyses(g, decls),
        g.edges().contains((a, b)),
    ensures
        g.nodes().contains(a),
        g.nodes().contains(b),
{
    let i = choose|i: int|
        0 <= i < decls.len() && ast::decl_name(decls[i]) == b && reads(#[trigger] decls[i], a);
    assert(ast::decl_name(decls[i]) == b);
    assert(declares(decls, b));
}

} // verus!
