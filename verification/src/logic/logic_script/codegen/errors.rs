use vstd::prelude::*;

use crate::logic::analysis::ast::DecompilationError;
use crate::logic::assembly::codegen::AsmCodeGenerationError;
use crate::logic::assembly::expressions::ParsedLogicArgument;
use crate::logic::logic_script::basic_block_graph::{BasicBlock, BasicBlockEdgeType};
use crate::logic::logic_script::statements::LogicScriptStatement;

verus! {

/// Why a script cannot be generated. Blocks and statement graph nodes are
/// named by their index.
#[derive(Debug)]
pub enum LogicScriptCodeGenerationError {
    AsmCodeGenerationError(AsmCodeGenerationError),
    SerdeJsonError(serde_json::Error),
    DecompilationError(DecompilationError),
    BlockNotFound(usize),
    StatementGraphNodeNotFound(usize),
    JumpToUnlabeledStatement(usize, Option<BasicBlock>),
    ConditionalToUnlabeledBlock(usize, Option<BasicBlock>),
    MalformedBasicBlockEdgeTypes(usize, Option<BasicBlock>, Vec<BasicBlockEdgeType>),
    UnexpectedArgument(ParsedLogicArgument),
    GotoWithNoTarget(LogicScriptStatement<ParsedLogicArgument>),
}

} // verus!
