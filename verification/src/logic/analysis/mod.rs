pub mod ast;
pub mod basic_block_graph;
pub mod block_optimization;
pub mod dominator_tree;
pub mod optimization;
