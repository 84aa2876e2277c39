use vstd::prelude::*;
use vstd::string::StringExecFns;

use crate::agi_version::AGIVersion;
use crate::formatting::{decimal_digits, decimal_string_usize};
use crate::logic::assembly::expressions::ParsedLogicArgument;
use crate::logic::commands::{agi_command_arg_types, command_named_from, AGICommand};
use crate::logic::logic_script::locations::{copy_range, ScriptLocationRange};
use crate::logic::logic_script::statements::{
    lemma_statements_view, name_is_goto, statement_view, statements_view, LogicScriptStatement,
    LogicScriptStatementBody, StatementBodyView, StatementView, StatementWithOrWithoutLocation,
};

verus! {

#[derive(Debug, Clone, Copy, PartialEq, Eq, Structural)]
pub enum LogicScriptDiagnosticType {
    UnknownCommandName,
    WrongNumberOfArguments,
}

#[derive(Debug, Clone, Copy, PartialEq, Eq, Structural)]
pub enum LogicScriptDiagnosticSeverity {
    Warning,
    Error,
}

/// A problem found in a script, with where the statement stands if that is known.
#[derive(Debug, Clone)]
pub struct LogicScriptDiagnostic {
    pub severity: LogicScriptDiagnosticSeverity,
    pub diagnostic_type: LogicScriptDiagnosticType,
    pub location: Option<ScriptLocationRange>,
    pub message: String,
}

/// What a diagnostic says.
pub struct DiagnosticView {
    pub severity: LogicScriptDiagnosticSeverity,
    pub diagnostic_type: LogicScriptDiagnosticType,
    pub message: Seq<char>,
}

pub open spec fn diagnostic_view(d: LogicScriptDiagnostic) -> DiagnosticView {
    DiagnosticView { severity: d.severity, diagnostic_type: d.diagnostic_type, message: d.message@ }
}

pub open spec fn diagnostics_view(v: Seq<LogicScriptDiagnostic>) -> Seq<DiagnosticView> {
    v.map_values(|d: LogicScriptDiagnostic| diagnostic_view(d))
}

/// What a command call with `count` arguments is told: a command that the
/// interpreter knows takes as many arguments as its table says, and any
/// other name but `goto` is unknown.
pub open spec fn command_diagnostics(name: Seq<char>, count: int, v: AGIVersion) -> Seq<DiagnosticView> {
    match command_named_from(name, v, 0) {
        Some(op) => if count != agi_command_arg_types(op).len() {
            seq![
                DiagnosticView {
                    severity: LogicScriptDiagnosticSeverity::Error,
                    diagnostic_type: LogicScriptDiagnosticType::WrongNumberOfArguments,
                    message: "Wrong number of arguments: expected "@ + decimal_digits(
                        agi_command_arg_types(op).len(),
                    ) + ", got "@ + decimal_digits(count as nat),
                },
            ]
        } else {
            Seq::empty()
        },
        None => if name != "goto"@ {
            seq![
                DiagnosticView {
                    severity: LogicScriptDiagnosticSeverity::Error,
                    diagnostic_type: LogicScriptDiagnosticType::UnknownCommandName,
                    message: "Unknown command name: "@ + name,
                },
            ]
        } else {
            Seq::empty()
        },
    }
}

/// The diagnostics of a statement: of its command call, or of the
/// statements of its branches, in order.
pub open spec fn statement_diagnostics(st: StatementView, v: AGIVersion) -> Seq<DiagnosticView>
    decreases st,
{
    match st.body {
        StatementBodyView::CommandCall { name, args } => command_diagnostics(name, args.len() as int, v),
        StatementBodyView::If { then_statements, else_statements, .. } => statements_diagnostics(
            then_statements,
            v,
        ) + statements_diagnostics(else_statements, v),
        _ => Seq::empty(),
    }
}

pub open spec fn statements_diagnostics(ss: Seq<StatementView>, v: AGIVersion) -> Seq<DiagnosticView>
    decreases ss,
{
    if ss.len() == 0 {
        Seq::empty()
    } else {
        statement_diagnostics(ss[0], v) + statements_diagnostics(ss.subrange(1, ss.len() as int), v)
    }
}

fn error_diagnostic(
    diagnostic_type: LogicScriptDiagnosticType,
    location: &Option<ScriptLocationRange>,
    message: String,
) -> (r: LogicScriptDiagnostic)
    ensures
        r.severity == LogicScriptDiagnosticSeverity::Error,
        r.diagnostic_type == diagnostic_type,
        r.message@ == message@,
{
    let location = match location {
        Some(l) => Some(copy_range(l)),
        None => None,
    };
    LogicScriptDiagnostic { severity: LogicScriptDiagnosticSeverity::Error, diagnostic_type, location, message }
}

pub proof fn lemma_statements_diagnostics_push(ss: Seq<StatementView>, x: StatementView, v: AGIVersion)
    ensures
        statements_diagnostics(ss.push(x), v) == statements_diagnostics(ss, v) + statement_diagnostics(x, v),
    decreases ss.len(),
{
    if ss.len() == 0 {
        assert(ss.push(x).subrange(1, 1) =~= Seq::<StatementView>::empty());
        assert(statements_diagnostics(Seq::<StatementView>::empty(), v) == Seq::<DiagnosticView>::empty());
        assert(statements_diagnostics(ss.push(x), v) =~= statement_diagnostics(x, v));
    } else {
        let tail = ss.subrange(1, ss.len() as int);
        lemma_statements_diagnostics_push(tail, x, v);
        assert(ss.push(x).subrange(1, ss.len() + 1 as int) =~= tail.push(x));
        assert(ss.push(x)[0] == ss[0]);
        assert(statements_diagnostics(ss.push(x), v) =~= statements_diagnostics(ss, v) + statement_diagnostics(x, v));
    }
}

/// Adds the diagnostics of the statements of `list` to `out`.
fn branch_diagnostics(
    list: &Vec<StatementWithOrWithoutLocation<ParsedLogicArgument>>,
    agi_version: &AGIVersion,
    out: &mut Vec<LogicScriptDiagnostic>,
)
    ensures
        diagnostics_view(final(out)@) == diagnostics_view(old(out)@) + statements_diagnostics(
            statements_view(list@),
            *agi_version,
        ),
    decreases list@,
{
    let ghost start = diagnostics_view(out@);
    proof {
        lemma_statements_view(list@);
    }
    let mut i: usize = 0;
    assert(statements_view(list@).take(0) =~= Seq::<StatementView>::empty());
    while i < list.len()
        invariant
            0 <= i <= list@.len(),
            statements_view(list@).len() == list@.len(),
            forall|j: int| 0 <= j < list@.len() ==> #[trigger] statements_view(list@)[j] == statement_view(list@[j].spec_statement()),
            diagnostics_view(out@) == start + statements_diagnostics(statements_view(list@).take(i as int), *agi_version),
        decreases list@.len() - i,
    {
        let item = &list[i];
        let location = match item {
            StatementWithOrWithoutLocation::WithLocation(w) => Some(copy_range(&w.location)),
            StatementWithOrWithoutLocation::WithoutLocation(_) => None,
        };
        proof {
            assert(decreases_to!(list@ => list@[i as int]));
        }
        add_statement_diagnostics(item.statement(), &location, agi_version, out);
        proof {
            let before = statements_view(list@).take(i as int);
            assert(statements_view(list@).take(i + 1) =~= before.push(statements_view(list@)[i as int]));
            lemma_statements_diagnostics_push(before, statements_view(list@)[i as int], *agi_version);
        }
        i = i + 1;
    }
    assert(statements_view(list@).take(list@.len() as int) =~= statements_view(list@));
}

/// Adds the diagnostics of `statement`, which stands at `location`, to `out`.
pub fn add_statement_diagnostics(
    statement: &LogicScriptStatement<ParsedLogicArgument>,
    location: &Option<ScriptLocationRange>,
    agi_version: &AGIVersion,
    out: &mut Vec<LogicScriptDiagnostic>,
)
    ensures
        diagnostics_view(final(out)@) == diagnostics_view(old(out)@) + statement_diagnostics(
            statement_view(*statement),
            *agi_version,
        ),
    decreases statement,
{
    let ghost start = diagnostics_view(out@);
    match &statement.body {
        LogicScriptStatementBody::CommandCall(body) => {
            match AGICommand::by_name(&body.command_name, agi_version) {
                Some(command) => {
                    if body.argument_list.len() != command.arg_types.len() {
                        let mut message = String::from_str("Wrong number of arguments: expected ");
                        let expected = decimal_string_usize(command.arg_types.len());
                        message.append(expected.as_str());
                        message.append(", got ");
                        let got = decimal_string_usize(body.argument_list.len());
                        message.append(got.as_str());
                        let d = error_diagnostic(LogicScriptDiagnosticType::WrongNumberOfArguments, location, message);
                        out.push(d);
                        assert(diagnostics_view(out@) =~= start + seq![diagnostic_view(d)]);
                    } else {
                        assert(diagnostics_view(out@) =~= start + Seq::<DiagnosticView>::empty());
                    }
                },
                None => {
                    if !name_is_goto(&body.command_name) {
                        let mut message = String::from_str("Unknown command name: ");
                        message.append(body.command_name.as_str());
                        let d = error_diagnostic(LogicScriptDiagnosticType::UnknownCommandName, location, message);
                        out.push(d);
                        assert(diagnostics_view(out@) =~= start + seq![diagnostic_view(d)]);
                    } else {
                        assert(diagnostics_view(out@) =~= start + Seq::<DiagnosticView>::empty());
                    }
                },
            }
        },
        LogicScriptStatementBody::IfStatement(body) => {
            branch_diagnostics(&body.then_statements, agi_version, out);
            branch_diagnostics(&body.else_statements, agi_version, out);
        },
        _ => {
            assert(diagnostics_view(out@) =~= start + Seq::<DiagnosticView>::empty());
        },
    }
}

impl LogicScriptDiagnostic {
    /// The diagnostics of a statement and of the statements within it.
    pub fn for_statement(
        statement: &StatementWithOrWithoutLocation<ParsedLogicArgument>,
        agi_version: &AGIVersion,
    ) -> (r: Vec<LogicScriptDiagnostic>)
        ensures
            diagnostics_view(r@) == statement_diagnostics(statement_view(statement.spec_statement()), *agi_version),
    {
        let location = match statement {
            StatementWithOrWithoutLocation::WithLocation(w) => Some(copy_range(&w.location)),
            StatementWithOrWithoutLocation::WithoutLocation(_) => None,
        };
        let mut out: Vec<LogicScriptDiagnostic> = Vec::new();
        add_statement_diagnostics(statement.statement(), &location, agi_version, &mut out);
        assert(diagnostics_view(Seq::<LogicScriptDiagnostic>::empty()) =~= Seq::<DiagnosticView>::empty());
        assert(Seq::<DiagnosticView>::empty() + statement_diagnostics(
            statement_view(statement.spec_statement()),
            *agi_version,
        ) =~= statement_diagnostics(statement_view(statement.spec_statement()), *agi_version));
        out
    }
}

} // verus!
