pub mod node_label_map;
pub mod statement_graph;
pub mod command_to_statement;
pub mod errors;
pub mod codegen;
pub mod redundant_jumps;
