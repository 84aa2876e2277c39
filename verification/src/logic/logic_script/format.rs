use vstd::prelude::*;
use std::collections::HashMap;

use crate::agi_version::{AGIMajorVersion, AGIVersion};
use crate::logic::assembly::codegen::AsmCodeGenerationContext;
use crate::logic::logic_script::codegen::codegen::{statements_script, statements_text};
use crate::logic::logic_script::compile::diagnostics::{diagnostics_view, statements_diagnostics};
use crate::logic::logic_script::compile::errors::CompilationError;
use crate::logic::logic_script::compile::preprocess::parse_logic_script_raw;
use crate::logic::logic_script::parsing::statements::{
    first_of, into_located, lemma_block_view, located_statements_view, program as program_grammar, ProgramParse,
};
use crate::logic::LogicProgram;
use crate::word_list::WordList;

verus! {

/// Reads a script as interpreter version 3.2149 would take it and writes it
/// again in the standard layout.
pub fn format_logic_script(source: &str) -> (r: Result<String, CompilationError>)
    requires
        program_grammar(source@) != ProgramParse::Panics,
    ensures
        match program_grammar(source@) {
            ProgramParse::Parsed(l) => {
                let diagnostics = statements_diagnostics(
                    first_of(l),
                    AGIVersion { major: AGIMajorVersion::AGI3, minor: 2149 },
                );
                if diagnostics.len() > 0 {
                    r matches Err(CompilationError::FailedDiagnostics(d)) && diagnostics_view(d@) == diagnostics
                } else {
                    r matches Ok(t) && t@ == statements_text(first_of(l), 0)
                }
            },
            ProgramParse::StoppedAt(q) => r matches Err(CompilationError::ParseError(e)) && e.offset == q,
            ProgramParse::Panics => false,
        },
{
    let program = parse_logic_script_raw(source, &AGIVersion::default_v3())?;
    let ghost pv = program@;
    let statements = into_located(program);
    proof {
        lemma_block_view(pv, statements@);
    }
    let word_list = WordList::new();
    let logic = LogicProgram { instructions: Vec::new(), messages: HashMap::new() };
    let context = AsmCodeGenerationContext { logic: &logic, word_list: &word_list };
    match statements_script(&statements, &context, 0) {
        Ok(t) => Ok(t),
        Err(e) => Err(CompilationError::LogicScriptCodeGenerationError(e)),
    }
}

} // verus!
