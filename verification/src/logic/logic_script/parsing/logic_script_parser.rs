use vstd::prelude::*;

use crate::logic::assembly::expressions::ParsedLogicArgument;
use crate::logic::logic_script::locations::WithLocation;
use crate::logic::logic_script::parsing::lexical::script_chars;
use crate::logic::logic_script::parsing::statements::{
    located_statements_view, parse_program, program as program_grammar, ProgramParse,
};
use crate::logic::logic_script::statements::LogicScriptStatement;

verus! {

/// A script that could not be read: the offset, in characters, where
/// reading stopped short of the end.
#[derive(Debug, Clone, Copy, PartialEq, Eq, Structural)]
pub struct ParseError {
    pub offset: usize,
}

/// The statements of a script, each with its span.
pub type LogicScriptProgram = Vec<WithLocation<LogicScriptStatement<ParsedLogicArgument>>>;

/// Reads a script as the grammar of `program_grammar` says: its statements,
/// or where reading stopped.
pub fn program(source: &str) -> (r: Result<LogicScriptProgram, ParseError>)
    requires
        program_grammar(source@) != ProgramParse::Panics,
    ensures
        match program_grammar(source@) {
            ProgramParse::Parsed(l) => r matches Ok(v) && located_statements_view(v@) == l,
            ProgramParse::StoppedAt(q) => r matches Err(e) && e.offset == q,
            ProgramParse::Panics => false,
        },
{
    let chars = script_chars(source);
    match parse_program(chars.as_slice()) {
        Ok(Ok(v)) => Ok(v),
        Ok(Err(offset)) => Err(ParseError { offset }),
        Err(_) => Err(ParseError { offset: 0 }),
    }
}

/// Whether the grammar's own reader panics on `source` (a number literal
/// beyond `i32`, or an arithmetic assignment whose name runs past the end).
pub fn script_panics(source: &str) -> (b: bool)
    ensures
        b == (program_grammar(source@) is Panics),
{
    let chars = script_chars(source);
    parse_program(chars.as_slice()).is_err()
}

} // verus!
