use agikit::logic::analysis::basic_block_graph::{BasicBlock, BasicBlockEdgeType, BasicBlockGraph, SinglePathBasicBlock};
use agikit::logic::analysis::dominator_tree::{DominationAnalysis, DominatorTree, ImmediatePostDominator, InvertedGraph};

fn diamond_with_tail() -> Vec<(usize, usize)> {
    vec![(0, 1), (0, 2), (1, 3), (2, 3), (2, 4)]
}

#[test]
fn dominator_tree_test_simple_dominator_tree() {
    let edges = diamond_with_tail();
    let dominator_tree = DominatorTree::from_graph(5, &edges, 0);
    assert!(dominator_tree.dominates(0, 1));
    assert!(dominator_tree.dominates(0, 2));
    assert!(dominator_tree.dominates(0, 3));
    assert!(dominator_tree.dominates(2, 4));
    assert!(!dominator_tree.dominates(1, 2));
}

fn labelled_chain() -> BasicBlockGraph {
    let block = |label: &str| {
        BasicBlock::SinglePath(SinglePathBasicBlock { commands: vec![], label: Some(label.to_string()) })
    };
    BasicBlockGraph {
        blocks: vec![block("A"), block("B"), block("C"), block("D")],
        edges: vec![
            (0, 1, BasicBlockEdgeType::Next),
            (1, 2, BasicBlockEdgeType::Next),
            (2, 3, BasicBlockEdgeType::Next),
        ],
        root_block_id: 0,
        removed: vec![false; 4],
    }
}

#[test]
fn invert_graph_test_reverse_control_flow_graph() {
    let basic_block_graph = labelled_chain();
    let pairs = basic_block_graph.successor_pairs();
    let reverse_cfg = InvertedGraph::from_graph(basic_block_graph.blocks.len(), &pairs, basic_block_graph.root_block_id);
    assert_eq!(reverse_cfg.node_count, 5);
    assert_eq!(reverse_cfg.reverse_edges.len(), 4);
    assert!(reverse_cfg.virtual_root_id < reverse_cfg.node_count);
}

#[test]
fn control_flow_analysis_test_reverse_control_flow_graph() {
    let basic_block_graph = labelled_chain();
    let pairs = basic_block_graph.successor_pairs();
    let reverse_cfg = InvertedGraph::from_graph(basic_block_graph.blocks.len(), &pairs, basic_block_graph.root_block_id);
    assert_eq!(reverse_cfg.node_count, 5);
    assert_eq!(reverse_cfg.reverse_edges.len(), 4);
    assert!(reverse_cfg.virtual_root_id < reverse_cfg.node_count);
}

#[test]
fn dominators_of_a_diamond_with_a_tail() {
    let edges = diamond_with_tail();
    let tree = DominatorTree::from_graph(5, &edges, 0);
    for v in 0..5 {
        assert!(tree.dominates(0, v));
        assert!(tree.dominates(v, v));
    }
    assert!(!tree.dominates(1, 3));
    assert!(!tree.dominates(2, 3));
    assert!(!tree.dominates(4, 2));
    assert!(!tree.dominates(0, 7));
    assert_eq!(tree.immediate_dominator(0), None);
    assert_eq!(tree.immediate_dominator(1), Some(0));
    assert_eq!(tree.immediate_dominator(3), Some(0));
    assert_eq!(tree.immediate_dominator(4), Some(2));
    assert!(tree.immediately_dominates(4, 2));
    assert!(!tree.immediately_dominates(4, 0));
}

#[test]
fn unreached_nodes_are_not_dominated() {
    let edges = vec![(0, 1), (2, 1)];
    let tree = DominatorTree::from_graph(3, &edges, 0);
    assert!(tree.dominates(0, 1));
    assert!(!tree.dominates(0, 2));
    assert!(!tree.dominates(2, 2));
}

#[test]
fn post_dominators_of_a_diamond() {
    let edges = vec![(0, 1), (0, 2), (1, 3), (2, 3)];
    let analysis = DominationAnalysis::from_graph(4, &edges, 0);
    assert!(analysis.post_dominates(3, 0));
    assert!(analysis.post_dominates(3, 1));
    assert!(!analysis.post_dominates(1, 0));
    assert!(!analysis.post_dominates(2, 0));
    assert!(analysis.dominates(0, 3));
    assert!(!analysis.dominates(1, 3));
    assert_eq!(analysis.immediate_dominator(3), Some(0));
    assert_eq!(analysis.immediate_post_dominator(0), Some(ImmediatePostDominator::Node(3)));
    assert_eq!(analysis.immediate_post_dominator(3), Some(ImmediatePostDominator::VirtualRoot));
    assert!(analysis.immediately_post_dominates(0, 3));
    assert!(!analysis.immediately_post_dominates(0, 1));
}

#[test]
fn a_chain_of_blocks_has_dominators() {
    let graph = labelled_chain();
    let analysis = graph.domination_analysis();
    assert!(analysis.dominates(1, 3));
    assert!(analysis.post_dominates(3, 1));
    assert_eq!(analysis.immediate_post_dominator(2), Some(ImmediatePostDominator::Node(3)));
}

#[test]
fn dominance_frontiers_list_the_children_in_the_dominator_tree() {
    let edges = vec![(0, 1), (0, 2), (1, 3), (2, 3)];
    let analysis = DominationAnalysis::from_graph(4, &edges, 0);
    assert_eq!(analysis.dominance_frontier(0), vec![1, 2, 3]);
    assert_eq!(analysis.dominance_frontier(1), Vec::<usize>::new());
    assert_eq!(analysis.post_dominance_frontier(3), vec![0, 1, 2]);
    assert_eq!(analysis.post_dominance_frontier(1), Vec::<usize>::new());
}
