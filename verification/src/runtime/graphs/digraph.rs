//! Directed graphs over symbols: their paths, and the graph library's operations on them.

use petgraph::graphmap::DiGraphMap;
use petgraph::visit::Walker;
use vstd::prelude::*;

use crate::runtime::interner::Symbol;

verus! {

/// The edges of a directed graph, as pairs of source and target.
pub type Edges = Set<(Symbol, Symbol)>;

/// The graph map of `petgraph`.
#[verifier::external_type_specification]
#[verifier::external_body]
#[verifier::reject_recursive_types(N)]
#[verifier::reject_recursive_types(E)]
#[verifier::reject_recursive_types(Ty)]
#[verifier::reject_recursive_types(S)]
pub struct ExGraphMap<N, E, Ty, S: std::hash::BuildHasher>(
    petgraph::graphmap::GraphMap<N, E, Ty, S>,
);

/// The marker of directed graphs of `petgraph`.
#[verifier::external_type_specification]
#[verifier::external_body]
pub struct ExDirected(petgraph::Directed);

/// The nodes that a graph holds.
pub uninterp spec fn graph_nodes(g: DiGraphMap<usize, ()>) -> Set<usize>;

/// The edges that a graph holds.
pub uninterp spec fn graph_edges(g: DiGraphMap<usize, ()>) -> Set<(usize, usize)>;

/// Whether step `i` of `p` follows an edge.
pub open spec fn step(edges: Edges, p: Seq<Symbol>, i: int) -> bool {
    edges.contains((p[i], p[i + 1]))
}

/// A path: each node but the last is joined to the next by an edge.
pub open spec fn is_path(edges: Edges, p: Seq<Symbol>) -> bool {
    &&& p.len() > 0
    &&& forall|i: int| 0 <= i < p.len() - 1 ==> #[trigger] step(edges, p, i)
}

/// Whether `p` is a path from `a` to `b`.
pub open spec fn joins(edges: Edges, p: Seq<Symbol>, a: Symbol, b: Symbol) -> bool {
    is_path(edges, p) && p.first() == a && p.last() == b
}

/// Whether a path leads from `a` to `b`; every node reaches itself.
pub open spec fn reaches(edges: Edges, a: Symbol, b: Symbol) -> bool {
    exists|p: Seq<Symbol>| joins(edges, p, a, b)
}

/// Whether a path of at least one edge leads from `a` back to it.
pub open spec fn on_cycle(edges: Edges, a: Symbol) -> bool {
    exists|p: Seq<Symbol>| #[trigger] joins(edges, p, a, a) && p.len() > 1
}

/// Whether the graph has no cycle.
pub open spec fn acyclic(edges: Edges) -> bool {
    forall|a: Symbol| !on_cycle(edges, a)
}

/// Whether `x` stands before `y` in `order`.
pub open spec fn before(order: Seq<Symbol>, x: Symbol, y: Symbol) -> bool {
    exists|i: int, j: int| 0 <= i < j < order.len() && order[i] == x && order[j] == y
}

/// `order` lists `nodes` once each, and the source of every edge before its target.
pub open spec fn topological(nodes: Set<Symbol>, edges: Edges, order: Seq<Symbol>) -> bool {
    &&& order.no_duplicates()
    &&& order.to_set() == nodes
    &&& forall|x: Symbol, y: Symbol| #[trigger]
        edges.contains((x, y)) ==> before(order, x, y)
}

/// `comps` splits `nodes` into the classes of nodes that reach each other, and no edge leads from
/// a class to a later one.
pub open spec fn components(nodes: Set<Symbol>, edges: Edges, comps: Seq<Vec<Symbol>>) -> bool {
    &&& forall|i: int|
        0 <= i < comps.len() ==> (#[trigger] comps[i])@.no_duplicates() && comps[i]@.len() > 0
    &&& forall|x: Symbol|
        nodes.contains(x) <==> exists|i: int|
            0 <= i < comps.len() && (#[trigger] comps[i])@.contains(x)
    &&& forall|i: int, j: int, x: Symbol, y: Symbol|
        #![trigger comps[i]@.contains(x), comps[j]@.contains(y)]
        0 <= i < comps.len() && 0 <= j < comps.len() && comps[i]@.contains(x)
            && comps[j]@.contains(y) ==> (i == j <==> reaches(edges, x, y) && reaches(edges, y, x))
    &&& forall|i: int, j: int, x: Symbol, y: Symbol|
        #![trigger comps[i]@.contains(x), comps[j]@.contains(y)]
        0 <= i < j < comps.len() && comps[i]@.contains(x) && comps[j]@.contains(y)
            ==> !edges.contains((x, y))
}

/// `order` lists what `start` reaches once each, `start` last, and a node before its successor
/// only where the successor reaches it.
pub open spec fn post_order(edges: Edges, start: Symbol, order: Seq<Symbol>) -> bool {
    &&& order.no_duplicates()
    &&& forall|x: Symbol| order.contains(x) <==> reaches(edges, start, x)
    &&& order.len() > 0 && order.last() == start
    &&& forall|x: Symbol, y: Symbol| #[trigger]
        edges.contains((x, y)) && before(order, x, y) ==> reaches(edges, y, x)
}

/// A new graph: `GraphMap::new` makes one without nodes and edges.
#[verifier::external_body]
pub(crate) fn graph_new() -> (g: DiGraphMap<usize, ()>)
    ensures
        graph_nodes(g) == Set::<usize>::empty(),
        graph_edges(g) == Set::<(usize, usize)>::empty(),
{
    DiGraphMap::new()
}

/// `GraphMap::add_node`: the node is in the graph afterwards; nothing else changes.
#[verifier::external_body]
pub(crate) fn graph_add_node(g: &mut DiGraphMap<usize, ()>, n: usize)
    ensures
        graph_nodes(*final(g)) == graph_nodes(*old(g)).insert(n),
        graph_edges(*final(g)) == graph_edges(*old(g)),
{
    g.add_node(n);
}

/// `GraphMap::add_edge`: the edge and its two ends are in the graph afterwards; nothing else
/// changes.
#[verifier::external_body]
pub(crate) fn graph_add_edge(g: &mut DiGraphMap<usize, ()>, a: usize, b: usize)
    ensures
        graph_nodes(*final(g)) == graph_nodes(*old(g)).insert(a).insert(b),
        graph_edges(*final(g)) == graph_edges(*old(g)).insert((a, b)),
{
    g.add_edge(a, b, ());
}

/// `GraphMap::nodes`: every node once, in no promised order.
#[verifier::external_body]
pub(crate) fn graph_node_list(g: &DiGraphMap<usize, ()>) -> (res: Vec<usize>)
    ensures
        res@.no_duplicates(),
        res@.to_set() == graph_nodes(*g),
{
    g.nodes().collect()
}

/// `GraphMap::all_edges`: every edge once, in no promised order. The ends of an edge are nodes:
/// `add_edge` adds them, and no node is removed without its edges.
#[verifier::external_body]
pub(crate) fn graph_edge_list(g: &DiGraphMap<usize, ()>) -> (res: Vec<(usize, usize)>)
    ensures
        res@.no_duplicates(),
        res@.to_set() == graph_edges(*g),
        forall|i: int|
            0 <= i < res@.len() ==> graph_nodes(*g).contains((#[trigger] res@[i]).0)
                && graph_nodes(*g).contains(res@[i].1),
{
    g.all_edges().map(|e| (e.0, e.1)).collect()
}

/// `Dfs` over the `Reversed` graph: every node from which a path leads to `start`, once each,
/// `start` itself among them, in no promised order. All but `start` are ends of edges, and so nodes
/// of the graph.
#[verifier::external_body]
pub(crate) fn graph_ancestors(g: &DiGraphMap<usize, ()>, start: usize) -> (res: Vec<usize>)
    ensures
        res@.no_duplicates(),
        forall|x: usize| res@.contains(x) <==> reaches(graph_edges(*g), x, start),
        forall|x: usize| #[trigger] res@.contains(x) && x != start ==> graph_nodes(*g).contains(x),
{
    let reversed = petgraph::visit::Reversed(g);
    petgraph::visit::Dfs::new(reversed, start).iter(reversed).collect()
}

/// `tarjan_scc`: the strongly connected components, in reverse topological order. It recurses
/// along the edges that it follows; that the call stack is deep enough is left unsaid.
#[verifier::external_body]
pub(crate) fn graph_components(g: &DiGraphMap<usize, ()>) -> (res: Vec<Vec<usize>>)
    ensures
        components(graph_nodes(*g), graph_edges(*g), res@),
{
    petgraph::algo::tarjan_scc(g)
}

/// `toposort`: a topological order where the graph has no cycle (a loop at one node is a
/// cycle), else a node of a cycle.
#[verifier::external_body]
pub(crate) fn graph_toposort(g: &DiGraphMap<usize, ()>) -> (res: Result<Vec<usize>, usize>)
    ensures
        match res {
            Ok(order) => acyclic(graph_edges(*g)) && topological(
                graph_nodes(*g),
                graph_edges(*g),
                order@,
            ),
            Err(n) => on_cycle(graph_edges(*g), n),
        },
{
    petgraph::algo::toposort(g, None).map_err(|c| c.node_id())
}

/// `has_path_connecting`: whether a path leads from one node to the other; true where they are
/// equal.
#[verifier::external_body]
pub(crate) fn graph_has_path(g: &DiGraphMap<usize, ()>, from: usize, to: usize) -> (res: bool)
    ensures
        res == reaches(graph_edges(*g), from, to),
{
    petgraph::algo::has_path_connecting(g, from, to, None)
}

/// `DfsPostOrder`: what `start` reaches, each node after all its descendants.
#[verifier::external_body]
pub(crate) fn graph_post_order(g: &DiGraphMap<usize, ()>, start: usize) -> (res: Vec<usize>)
    ensures
        post_order(graph_edges(*g), start, res@),
{
    petgraph::visit::DfsPostOrder::new(g, start).iter(g).collect()
}

/// Every node reaches itself.
pub proof fn reaches_itself(edges: Edges, a: Symbol)
    ensures
        reaches(edges, a, a),
{
    assert(joins(edges, seq![a], a, a));
}

/// An edge is a path.
pub proof fn edge_reaches(edges: Edges, a: Symbol, b: Symbol)
    requires
        edges.contains((a, b)),
    ensures
        reaches(edges, a, b),
{
    let p = seq![a, b];
    assert forall|i: int| 0 <= i < p.len() - 1 implies #[trigger] step(edges, p, i) by {}
    assert(joins(edges, p, a, b));
}

/// Two paths that meet join into one as long as both together.
pub proof fn lemma_join_paths(
    edges: Edges,
    p: Seq<Symbol>,
    q: Seq<Symbol>,
    a: Symbol,
    b: Symbol,
    c: Symbol,
)
    requires
        joins(edges, p, a, b),
        joins(edges, q, b, c),
    ensures
        joins(edges, p + q.skip(1), a, c),
        (p + q.skip(1)).len() == p.len() + q.len() - 1,
{
    let r = p + q.skip(1);
    assert forall|i: int| 0 <= i < r.len() - 1 implies #[trigger] step(edges, r, i) by {
        if i < p.len() - 1 {
            assert(step(edges, p, i));
        } else {
            assert(step(edges, q, i - (p.len() - 1)));
        }
    }
    if q.len() == 1 {
        assert(r =~= p);
    }
}

/// Reaching is transitive.
pub proof fn reaches_through(edges: Edges, a: Symbol, b: Symbol, c: Symbol)
    requires
        reaches(edges, a, b),
        reaches(edges, b, c),
    ensures
        reaches(edges, a, c),
{
    let p = choose|p: Seq<Symbol>| joins(edges, p, a, b);
    let q = choose|p: Seq<Symbol>| joins(edges, p, b, c);
    lemma_join_paths(edges, p, q, a, b, c);
}

/// Two different nodes that reach each other lie on a cycle.
pub proof fn mutual_reach_is_cycle(edges: Edges, a: Symbol, b: Symbol)
    requires
        a != b,
        reaches(edges, a, b),
        reaches(edges, b, a),
    ensures
        on_cycle(edges, a),
{
    let p = choose|p: Seq<Symbol>| joins(edges, p, a, b);
    let q = choose|p: Seq<Symbol>| joins(edges, p, b, a);
    lemma_join_paths(edges, p, q, a, b, a);
}

} // verus!
