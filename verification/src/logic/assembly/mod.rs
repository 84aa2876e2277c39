use vstd::prelude::*;
use vstd::string::StringExecFns;

use crate::logic::LogicInstruction;

pub mod codegen;
pub mod expressions;
pub mod literals;
pub mod operators;

verus! {

/// A label at a bytecode address, with the instructions that jump to it.
#[derive(Debug, Clone)]
pub struct LogicLabel {
    pub address: u16,
    pub label: String,
    pub references: Vec<LogicInstruction>,
}

/// A label that owns its references, as the script tools hand it out.
#[derive(Debug, Clone)]
pub struct OwnedLogicLabel {
    pub address: u16,
    pub label: String,
    pub references: Vec<LogicInstruction>,
}

impl OwnedLogicLabel {
    pub fn new(address: u16, label: String, references: Vec<LogicInstruction>) -> (r: Self)
        ensures
            r.address == address,
            r.label == label,
            r.references == references,
    {
        Self { address, label, references }
    }

    pub fn test_export() -> (r: String)
        ensures
            r@ == "This is a test export"@,
    {
        String::from_str("This is a test export")
    }

    /// The same label.
    pub fn to_logic_label(&self) -> (r: LogicLabel)
        ensures
            r.address == self.address,
            r.label@ == self.label@,
            r.references@.len() == self.references@.len(),
    {
        LogicLabel { address: self.address, label: self.label.clone(), references: self.references.clone() }
    }
}

} // verus!
