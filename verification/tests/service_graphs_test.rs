//! Dependency graphs of services.

use meerkat_lib::runtime::graphs::ServiceGraphs;
use meerkat_lib::runtime::interner::Interner;

#[test]
fn test_service_graphs_default_and_new() {
    let sg_def = ServiceGraphs::default();
    let sg_new = ServiceGraphs::new();
    assert!(sg_def.reactive_graph.nodes().next().is_none());
    assert!(sg_new.reactive_graph.nodes().next().is_none());
    assert!(sg_def.vars.is_empty());
    assert!(sg_def.defs.is_empty());
    assert!(sg_def.tables.is_empty());
    assert!(sg_def.cross_deps.is_empty());
}

#[test]
fn test_service_graphs_petgraph_algorithms() {
    let mut interner = Interner::new();
    let mut sg = ServiceGraphs::new();
    let a = interner.insert("a");
    let b = interner.insert("b");
    let c = interner.insert("c");

    sg.reactive_graph.add_edge(a, b, ());
    sg.reactive_graph.add_edge(b, c, ());

    let edges = sg.reactive_edges();
    assert_eq!(edges.len(), 2);
    assert!(edges.contains(&(a, b)));
    assert!(edges.contains(&(b, c)));

    assert!(sg.has_path(a, c));
    assert!(!sg.has_path(c, a));

    let trans = sg.transitive_dependencies_of(c);
    assert_eq!(trans.len(), 2);
    assert!(trans.contains(&a));
    assert!(trans.contains(&b));

    let topo = sg.topological_sort();
    assert!(topo.is_ok());
    let topo_nodes = topo.unwrap();
    assert_eq!(topo_nodes.len(), 3);

    let scc = sg.strongly_connected_components();
    assert_eq!(scc.len(), 3);

    let post = sg.dfs_post_order(a);
    assert_eq!(post.len(), 3);
}

#[test]
fn test_service_graphs_cycle_detection() {
    let mut interner = Interner::new();
    let mut sg = ServiceGraphs::new();
    let a = interner.insert("a");
    let b = interner.insert("b");

    sg.reactive_graph.add_edge(a, b, ());
    sg.reactive_graph.add_edge(b, a, ());

    let topo = sg.topological_sort();
    assert!(topo.is_err());

    let scc = sg.strongly_connected_components();
    assert_eq!(scc.len(), 1);
    assert_eq!(scc[0].len(), 2);
}
