pub mod ast;
pub mod basic_block_graph;
pub mod codegen;
pub mod compile;
pub mod directives;
pub mod dominator_tree;
pub mod expressions;
pub mod identifiers;
pub mod literals;
pub mod locations;
pub mod operators;
pub mod parsing;
pub mod format;
pub mod statements;
