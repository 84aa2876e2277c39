use vstd::prelude::*;

use crate::logic::logic_script::codegen::errors::LogicScriptCodeGenerationError;
use crate::logic::logic_script::compile::ast_generator::ASTGenerationError;
use crate::logic::logic_script::compile::diagnostics::LogicScriptDiagnostic;
use crate::logic::logic_script::identifiers::DefineError;
use crate::logic::logic_script::parsing::logic_script_parser::ParseError;

verus! {

/// Why a script could not be compiled. Blocks are named by their index.
#[derive(Debug)]
pub enum CompilationError {
    ASTGenerationError(ASTGenerationError),
    BlockHasNotBeenCompiled(usize),
    CannotFindAddressForEmptyBlock(usize),
    CannotFindNextBlockAfterIf(usize),
    ConflictingInstructionForAddress(u16),
    LogicScriptCodeGenerationError(LogicScriptCodeGenerationError),
    DefineError(DefineError),
    FailedDiagnostics(Vec<LogicScriptDiagnostic>),
    ParseError(ParseError),
    IoError(std::io::Error),
}

} // verus!
