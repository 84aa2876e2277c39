pub mod ast_generator;
pub mod diagnostics;
pub mod post_compilation_passes;
pub mod primitive_expressions;
pub mod primitive_statements;
pub mod errors;
pub mod preprocess;
