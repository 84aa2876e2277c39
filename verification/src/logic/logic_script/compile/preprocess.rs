use vstd::prelude::*;

use crate::agi_version::AGIVersion;
use crate::logic::logic_script::compile::diagnostics::{
    add_statement_diagnostics, diagnostics_view, lemma_statements_diagnostics_push, statement_diagnostics, statements_diagnostics,
    DiagnosticView, LogicScriptDiagnostic,
};
use crate::logic::logic_script::compile::errors::CompilationError;
use crate::logic::logic_script::locations::copy_range;
use crate::logic::logic_script::parsing::logic_script_parser::{program, LogicScriptProgram};
use crate::logic::logic_script::parsing::statements::{
    first_of, located_statements_view, program as program_grammar, LocatedStatementView, ProgramParse,
};
use crate::logic::logic_script::statements::{statement_view, StatementView};

verus! {

proof fn lemma_diagnostics_step(l: Seq<LocatedStatementView>, i: int, v: AGIVersion)
    requires
        0 <= i < l.len(),
    ensures
        statements_diagnostics(first_of(l.take(i + 1)), v) == statements_diagnostics(first_of(l.take(i)), v)
            + statement_diagnostics(l[i].0, v),
{
    assert(first_of(l.take(i + 1)) =~= first_of(l.take(i)).push(l[i].0));
    lemma_statements_diagnostics_push(first_of(l.take(i)), l[i].0, v);
}

/// Reads a script and checks its command calls: the statements, each with
/// its span; where reading stops short, the parse error; where a command is
/// unknown or has the wrong number of arguments, all the diagnostics.
pub fn parse_logic_script_raw(source_code: &str, agi_version: &AGIVersion) -> (r: Result<
    LogicScriptProgram,
    CompilationError,
>)
    requires
        program_grammar(source_code@) != ProgramParse::Panics,
    ensures
        match program_grammar(source_code@) {
            ProgramParse::Parsed(l) => {
                let diagnostics = statements_diagnostics(first_of(l), *agi_version);
                if diagnostics.len() > 0 {
                    r matches Err(CompilationError::FailedDiagnostics(d)) && diagnostics_view(d@) == diagnostics
                } else {
                    r matches Ok(v) && located_statements_view(v@) == l
                }
            },
            ProgramParse::StoppedAt(q) => r matches Err(CompilationError::ParseError(e)) && e.offset == q,
            ProgramParse::Panics => false,
        },
{
    let raw_program = match program(source_code) {
        Ok(p) => p,
        Err(e) => {
            return Err(CompilationError::ParseError(e));
        },
    };
    let ghost l = located_statements_view(raw_program@);
    let mut diagnostics: Vec<LogicScriptDiagnostic> = Vec::new();
    let mut i: usize = 0;
    assert(first_of(l.take(0)) =~= Seq::<StatementView>::empty());
    assert(diagnostics_view(diagnostics@) =~= Seq::<DiagnosticView>::empty());
    while i < raw_program.len()
        invariant
            0 <= i <= raw_program@.len(),
            l == located_statements_view(raw_program@),
            diagnostics_view(diagnostics@) == statements_diagnostics(first_of(l.take(i as int)), *agi_version),
        decreases raw_program@.len() - i,
    {
        let location = Some(copy_range(&raw_program[i].location));
        add_statement_diagnostics(&raw_program[i].value, &location, agi_version, &mut diagnostics);
        proof {
            lemma_diagnostics_step(l, i as int, *agi_version);
        }
        i = i + 1;
    }
    assert(l.take(l.len() as int) =~= l);
    if diagnostics.len() > 0 {
        return Err(CompilationError::FailedDiagnostics(diagnostics));
    }
    Ok(raw_program)
}

} // verus!
