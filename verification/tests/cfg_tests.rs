use io_lang::compiler::control_flow::ControlFlowGraph;

#[test]
fn fresh_graph_has_an_unreachable_exit() {
    let g = ControlFlowGraph::new();
    assert_eq!(g.verify().unwrap_err().message(), "Basic block 1 is unreachable");
}

#[test]
fn connected_graph_verifies_and_has_dominators() {
    let mut g = ControlFlowGraph::new();
    let a = g.create_block();
    let b = g.create_block();
    assert_eq!((a, b), (2, 3));
    g.add_edge(0, a);
    g.add_edge(0, b);
    g.add_edge(a, 1);
    g.add_edge(b, 1);
    assert!(g.verify().is_ok());
    g.compute_dominators();
    assert_eq!(g.dominators_of(1), vec![0, 1]);
    assert_eq!(g.dominators_of(a), vec![0, 2]);
    assert_eq!(g.dominators_of(0), vec![0]);
}

#[test]
fn block_behind_a_chain_is_dominated_by_the_chain() {
    let mut g = ControlFlowGraph::new();
    let a = g.create_block();
    g.add_edge(0, a);
    g.add_edge(a, 1);
    g.compute_dominators();
    assert_eq!(g.dominators_of(1), vec![0, 1, 2]);
}

#[test]
fn unreachable_block_is_named() {
    let mut g = ControlFlowGraph::new();
    let a = g.create_block();
    g.add_edge(0, 1);
    assert_eq!(g.verify().unwrap_err().message(), format!("Basic block {} is unreachable", a));
}
