use vstd::prelude::*;

use crate::logic::assembly::literals::LogicLiteralValue;
use crate::logic::commands::AGICommandArgType;

verus! {

/// Why a script could not be turned into bytecode. Statement nodes are named
/// by their index in the statement graph.
#[derive(Debug)]
pub enum ASTGenerationError {
    BooleanOperationCannotHaveTwoLiteralOperands,
    InvalidValueForArgType { value: LogicLiteralValue, arg_type: AGICommandArgType },
    StatementAddressNotFound(usize),
    StatementNodeNotFound(usize),
    StringLiteralInBooleanOperation,
    TypeMismatch { expected: AGICommandArgType, got: AGICommandArgType },
    UnknownCommand(String),
    UnknownIdentifier(String),
    UnknownLabel(String),
    UnknownObjectName(String),
    UnknownTestCommand(String),
    UnknownWord(String),
}

} // verus!
