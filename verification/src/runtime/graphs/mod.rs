//! Dependency graphs of services.

use petgraph::graphmap::DiGraphMap;
use std::collections::{HashMap, HashSet};
use vstd::prelude::*;

use crate::runtime::collections;
use crate::runtime::graphs::digraph::{
    graph_ancestors, graph_components, graph_edge_list, graph_has_path, graph_new,
    graph_post_order, graph_toposort,
};
use crate::runtime::interner::Symbol;
use crate::runtime::tt::types::Member;

pub mod analysis;
pub mod digraph;
pub mod free_var;
pub mod listeners;
pub mod uses;

verus! {

broadcast use vstd::std_specs::hash::group_hash_axioms;

/// Dependency graphs and analysis state of a service.
pub struct ServiceGraphs {
    /// Reactive propagation graph: an edge from `a` to `b` means that `a` notifies `b`.
    pub reactive_graph: DiGraphMap<Symbol, ()>,
    /// Members of other services that a local declaration names, each once.
    pub cross_deps: HashMap<Symbol, Vec<Member>>,
    /// Variables declared in the service.
    pub vars: HashSet<Symbol>,
    /// Definitions declared in the service.
    pub defs: HashSet<Symbol>,
    /// Tables declared in the service.
    pub tables: HashSet<Symbol>,
}

/// No topological order: the node lies on a cycle.
#[derive(Debug, Clone, Copy, PartialEq, Eq, Structural)]
pub struct CycleError {
    pub node: Symbol,
}

impl ServiceGraphs {
    /// The nodes of the reactive graph.
    #[verifier::inline]
    pub open spec fn nodes(self) -> Set<Symbol> {
        digraph::graph_nodes(self.reactive_graph)
    }

    /// The edges of the reactive graph.
    #[verifier::inline]
    pub open spec fn edges(self) -> Set<(Symbol, Symbol)> {
        digraph::graph_edges(self.reactive_graph)
    }

    /// Whether nothing is recorded.
    pub open spec fn is_blank(self) -> bool {
        &&& self.nodes() == Set::<Symbol>::empty()
        &&& self.edges() == Set::<(Symbol, Symbol)>::empty()
        &&& self.cross_deps@ == Map::<Symbol, Vec<Member>>::empty()
        &&& self.vars@ == Set::<Symbol>::empty()
        &&& self.defs@ == Set::<Symbol>::empty()
        &&& self.tables@ == Set::<Symbol>::empty()
    }

    /// An empty container.
    pub fn new() -> (res: ServiceGraphs)
        ensures
            res.is_blank(),
    {
        ServiceGraphs {
            reactive_graph: graph_new(),
            cross_deps: HashMap::new(),
            vars: HashSet::new(),
            defs: HashSet::new(),
            tables: HashSet::new(),
        }
    }

    /// All reactive propagation edges as pairs of owner and listener, each once.
    pub fn reactive_edges(&self) -> (res: Vec<(Symbol, Symbol)>)
        ensures
            res@.no_duplicates(),
            res@.to_set() == self.edges(),
            forall|i: int|
                0 <= i < res@.len() ==> self.nodes().contains((#[trigger] res@[i]).0)
                    && self.nodes().contains(res@[i].1),
    {
        graph_edge_list(&self.reactive_graph)
    }

    /// The members that a member depends on, directly or through others, without the member.
    pub fn transitive_dependencies_of(&self, member: Symbol) -> (res: HashSet<Symbol>)
        ensures
            forall|x: Symbol| #[trigger]
                res@.contains(x) <==> x != member && digraph::reaches(self.edges(), x, member),
            res@.subset_of(self.nodes()),
    {
        let found = graph_ancestors(&self.reactive_graph, member);
        let mut res: HashSet<Symbol> = HashSet::new();
        let mut i: usize = 0;
        while i < found.len()
            invariant
                i <= found@.len(),
                forall|x: Symbol| #[trigger]
                    res@.contains(x) <==> x != member && found@.take(i as int).contains(x),
            decreases found@.len() - i,
        {
            proof {
                collections::lemma_take_contains(found@, i as int);
            }
            if found[i] != member {
                res.insert(found[i]);
            }
            i += 1;
        }
        assert(found@.take(i as int) =~= found@);
        res
    }

    /// The classes of members that depend on each other.
    pub fn strongly_connected_components(&self) -> (res: Vec<Vec<Symbol>>)
        ensures
            digraph::components(self.nodes(), self.edges(), res@),
    {
        graph_components(&self.reactive_graph)
    }

    /// An order of the members in which each comes after those it depends on; an error where
    /// there is a cycle, and only there.
    pub fn topological_sort(&self) -> (res: Result<Vec<Symbol>, CycleError>)
        ensures
            match res {
                Ok(order) => digraph::acyclic(self.edges()) && digraph::topological(
                    self.nodes(),
                    self.edges(),
                    order@,
                ),
                Err(e) => digraph::on_cycle(self.edges(), e.node),
            },
            res is Ok <==> digraph::acyclic(self.edges()),
    {
        match graph_toposort(&self.reactive_graph) {
            Ok(order) => Ok(order),
            Err(node) => Err(CycleError { node }),
        }
    }

    /// Whether a path leads from one member to another.
    pub fn has_path(&self, from: Symbol, to: Symbol) -> (res: bool)
        ensures
            res == digraph::reaches(self.edges(), from, to),
    {
        graph_has_path(&self.reactive_graph, from, to)
    }

    /// What a member notifies, directly or through others, each after what it notifies itself.
    pub fn dfs_post_order(&self, start: Symbol) -> (res: Vec<Symbol>)
        ensures
            digraph::post_order(self.edges(), start, res@),
    {
        graph_post_order(&self.reactive_graph, start)
    }
}

impl Default for ServiceGraphs {
    fn default() -> (res: ServiceGraphs)
        ensures
            res.is_blank(),
    {
        ServiceGraphs::new()
    }
}

} // verus!
