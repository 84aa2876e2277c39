use vstd::prelude::*;
use vstd::string::StringExecFns;

use crate::logic::assembly::codegen::AsmCodeGenerationContext;
use crate::logic::assembly::expressions::{
    asm_argument_meaning, parsed_arguments_view, ArgumentMeaning, AsmLogicArgument, LogicIdentifier,
    ParsedLogicArgument,
};
use crate::logic::commands::AGICommandArgType;
use crate::logic::logic_script::codegen::errors::LogicScriptCodeGenerationError;
use crate::logic::logic_script::compile::primitive_statements::{
    arithmetic_prefix, kind_suffix, primitive_statement_of, PrimitiveStatementBodyView, PrimitiveStatementView,
};
use crate::logic::logic_script::identifiers::IdentifierMappingView;
use crate::logic::logic_script::operators::{LogicScriptArithmeticOperator, LogicScriptUnaryAssignmentOperator};
use crate::logic::logic_script::statements::{
    statement_view, LogicScriptArithmeticAssignmentStatement, LogicScriptCommandCall,
    LogicScriptLeftIndirectAssignmentStatement, LogicScriptRightIndirectAssignmentStatement, LogicScriptStatement,
    LogicScriptStatementBody, LogicScriptUnaryOperationStatement, LogicScriptValueAssignmentStatement,
    StatementBodyView, StatementView,
};
use crate::logic::{messages_view, LogicCommand};

verus! {

/// The arithmetic a command's name stands for, if it is one of `addn`,
/// `addv`, `subn`, `subv`, `mul.n`, `mul.v`, `div.n` or `div.v`.
pub open spec fn arithmetic_operator_of(name: Seq<char>) -> Option<LogicScriptArithmeticOperator> {
    if name == "addn"@ || name == "addv"@ {
        Some(LogicScriptArithmeticOperator::Add)
    } else if name == "subn"@ || name == "subv"@ {
        Some(LogicScriptArithmeticOperator::Subtract)
    } else if name == "mul.n"@ || name == "mul.v"@ {
        Some(LogicScriptArithmeticOperator::Multiply)
    } else if name == "div.n"@ || name == "div.v"@ {
        Some(LogicScriptArithmeticOperator::Divide)
    } else {
        None
    }
}

/// A command as a statement of the script: `increment` and `decrement` of a
/// name become `++` and `--`; the assignments, arithmetic and indirections
/// whose first argument (both, for `rindirect`) is a name become the
/// statements they stand for; anything else stays a command call.
pub open spec fn command_statement(name: Seq<char>, args: Seq<ArgumentMeaning>) -> StatementBodyView {
    if (name == "increment"@ || name == "decrement"@) && args.len() == 1 && args[0] is Name {
        StatementBodyView::UnaryOperation {
            operation: if name == "increment"@ {
                LogicScriptUnaryAssignmentOperator::Increment
            } else {
                LogicScriptUnaryAssignmentOperator::Decrement
            },
            identifier: args[0]->Name_0,
        }
    } else if (name == "assignn"@ || name == "assignv"@) && args.len() == 2 && args[0] is Name {
        StatementBodyView::ValueAssignment { assignee: args[0]->Name_0, value: args[1] }
    } else if arithmetic_operator_of(name) is Some && args.len() == 2 && args[0] is Name {
        StatementBodyView::ArithmeticAssignment {
            operator: arithmetic_operator_of(name)->0,
            assignee: args[0]->Name_0,
            value: args[1],
        }
    } else if (name == "lindirectn"@ || name == "lindirectv"@) && args.len() == 2 && args[0] is Name {
        StatementBodyView::LeftIndirectAssignment { assignee_pointer: args[0]->Name_0, value: args[1] }
    } else if name == "rindirect"@ && args.len() == 2 && args[0] is Name && args[1] is Name {
        StatementBodyView::RightIndirectAssignment { assignee: args[0]->Name_0, value_pointer: args[1]->Name_0 }
    } else {
        StatementBodyView::CommandCall { name, args }
    }
}

/// What a command's arguments mean, each read as the command's type for it.
pub open spec fn command_meanings(c: LogicCommand, messages: Map<u8, Seq<char>>, words: Map<u16, Seq<char>>) -> Seq<
    ArgumentMeaning,
> {
    let n = if c.args@.len() <= c.agi_command.arg_types@.len() {
        c.args@.len()
    } else {
        c.agi_command.arg_types@.len()
    };
    Seq::new(
        n,
        |i: int|
            asm_argument_meaning(
                AsmLogicArgument { value: c.args@[i] as u16, arg_type: c.agi_command.arg_types@[i] },
                messages,
                words,
            ),
    )
}

/// Each message argument of a command counts from one.
pub open spec fn command_messages_from_one(c: LogicCommand) -> bool {
    forall|i: int|
        0 <= i < c.args@.len() && i < c.agi_command.arg_types@.len() && #[trigger] c.agi_command.arg_types@[i]
            == AGICommandArgType::Message ==> c.args@[i] >= 1
}

fn name_is(name: &String, expected: &str) -> (r: bool)
    ensures
        r == (name@ == expected@),
{
    *name == String::from_str(expected)
}

fn identifier_of(a: &ParsedLogicArgument) -> (r: LogicIdentifier)
    requires
        a@ is Name,
    ensures
        r.name@ == a@->Name_0,
{
    match a {
        ParsedLogicArgument::Identifier(i) => LogicIdentifier { name: i.name.clone() },
        ParsedLogicArgument::Literal(_) => vstd::pervasive::unreached(),
    }
}

impl LogicCommand {
    /// The command as a statement of the script, without a label; see
    /// `command_statement`.
    pub fn to_statement(&self, context: &AsmCodeGenerationContext) -> (r: Result<
        LogicScriptStatement<ParsedLogicArgument>,
        LogicScriptCodeGenerationError,
    >)
        requires
            command_messages_from_one(*self),
        ensures
            r matches Ok(s) && statement_view(s) == (StatementView {
                body: command_statement(
                    self.agi_command.name@,
                    command_meanings(*self, messages_view(context.logic.messages), context.word_list.words_view()),
                ),
                label: None,
            }),
    {
        let ghost m = messages_view(context.logic.messages);
        let ghost w = context.word_list.words_view();
        let ghost meanings = command_meanings(*self, m, w);
        let asm_args = self.args();
        let mut args: Vec<ParsedLogicArgument> = Vec::new();
        let mut i: usize = 0;
        while i < asm_args.len()
            invariant
                m == messages_view(context.logic.messages),
                w == context.word_list.words_view(),
                meanings == command_meanings(*self, m, w),
                asm_args@.len() == meanings.len(),
                forall|k: int|
                    0 <= k < asm_args@.len() ==> #[trigger] asm_args@[k].value == self.args@[k] as u16
                        && asm_args@[k].arg_type == self.agi_command.arg_types@[k],
                command_messages_from_one(*self),
                0 <= i <= asm_args@.len(),
                parsed_arguments_view(args@) == meanings.take(i as int),
            decreases asm_args@.len() - i,
        {
            let a = asm_args[i];
            proof {
                assert(a.value == self.args@[i as int] as u16);
                if a.arg_type == AGICommandArgType::Message {
                    assert(self.agi_command.arg_types@[i as int] == AGICommandArgType::Message);
                    assert(self.args@[i as int] >= 1);
                }
            }
            let parsed = match a.try_parse(context) {
                Ok(p) => p,
                Err(e) => {
                    return Err(LogicScriptCodeGenerationError::AsmCodeGenerationError(e));
                },
            };
            let ghost before = args@;
            args.push(parsed);
            proof {
                assert(parsed_arguments_view(args@) =~= parsed_arguments_view(before).push(parsed@));
                assert(meanings.take(i + 1) =~= meanings.take(i as int).push(meanings[i as int]));
            }
            i = i + 1;
        }
        proof {
            assert(meanings.take(i as int) =~= meanings);
        }
        let ghost av = parsed_arguments_view(args@);
        let name = &self.agi_command.name;
        let body = if (name_is(name, "increment") || name_is(name, "decrement")) && args.len() == 1 && args[0].is_identifier() {
            let identifier = identifier_of(&args[0]);
            let operation = if name_is(name, "increment") {
                LogicScriptUnaryAssignmentOperator::Increment
            } else {
                LogicScriptUnaryAssignmentOperator::Decrement
            };
            LogicScriptStatementBody::UnaryOperation(LogicScriptUnaryOperationStatement { operation, identifier })
        } else if (name_is(name, "assignn") || name_is(name, "assignv")) && args.len() == 2 && args[0].is_identifier() {
            let assignee = identifier_of(&args[0]);
            LogicScriptStatementBody::ValueAssignment(
                LogicScriptValueAssignmentStatement { assignee, value: args[1].duplicate() },
            )
        } else if arithmetic_operator(name).is_some() && args.len() == 2 && args[0].is_identifier() {
            let assignee = identifier_of(&args[0]);
            let operator = arithmetic_operator(name).unwrap();
            LogicScriptStatementBody::ArithmeticAssignment(
                LogicScriptArithmeticAssignmentStatement { operator, assignee, value: args[1].duplicate() },
            )
        } else if (name_is(name, "lindirectn") || name_is(name, "lindirectv")) && args.len() == 2
            && args[0].is_identifier() {
            let assignee_pointer = identifier_of(&args[0]);
            LogicScriptStatementBody::LeftIndirectAssignment(
                LogicScriptLeftIndirectAssignmentStatement { assignee_pointer, value: args[1].duplicate() },
            )
        } else if name_is(name, "rindirect") && args.len() == 2 && args[0].is_identifier() && args[1].is_identifier() {
            let assignee = identifier_of(&args[0]);
            let value_pointer = identifier_of(&args[1]);
            LogicScriptStatementBody::RightIndirectAssignment(
                LogicScriptRightIndirectAssignmentStatement { assignee, value_pointer },
            )
        } else {
            LogicScriptStatementBody::CommandCall(LogicScriptCommandCall { command_name: name.clone(), argument_list: args })
        };
        Ok(LogicScriptStatement { body, label: None })
    }
}

/// The arithmetic a command's name stands for.
fn arithmetic_operator(name: &String) -> (r: Option<LogicScriptArithmeticOperator>)
    ensures
        r == arithmetic_operator_of(name@),
{
    if name_is(name, "addn") || name_is(name, "addv") {
        Some(LogicScriptArithmeticOperator::Add)
    } else if name_is(name, "subn") || name_is(name, "subv") {
        Some(LogicScriptArithmeticOperator::Subtract)
    } else if name_is(name, "mul.n") || name_is(name, "mul.v") {
        Some(LogicScriptArithmeticOperator::Multiply)
    } else if name_is(name, "div.n") || name_is(name, "div.v") {
        Some(LogicScriptArithmeticOperator::Divide)
    } else {
        None
    }
}

/// The name of an assignment-like command says what the names in `ids` make
/// of its value: ending in `v` for a variable and in `n` for anything else.
pub open spec fn suffix_agrees(
    name: Seq<char>,
    args: Seq<ArgumentMeaning>,
    ids: Map<Seq<char>, IdentifierMappingView>,
) -> bool {
    match command_statement(name, args) {
        StatementBodyView::ValueAssignment { value, .. } => "assign"@ + kind_suffix(value, ids) == name,
        StatementBodyView::ArithmeticAssignment { operator, value, .. } => arithmetic_prefix(operator) + kind_suffix(
            value,
            ids,
        ) == name,
        StatementBodyView::LeftIndirectAssignment { value, .. } => "lindirect"@ + kind_suffix(value, ids) == name,
        _ => true,
    }
}

/// A command read as a statement of the script and compiled back is the same
/// command call, wherever its name agrees with what its value is.
pub proof fn lemma_command_statement_round_trip(
    name: Seq<char>,
    args: Seq<ArgumentMeaning>,
    ids: Map<Seq<char>, IdentifierMappingView>,
)
    requires
        suffix_agrees(name, args, ids),
    ensures
        primitive_statement_of(StatementView { body: command_statement(name, args), label: None }, ids) == Some(
            PrimitiveStatementView { body: PrimitiveStatementBodyView::CommandCall { name, args }, label: None },
        ),
{
    reveal_strlit("increment");
    reveal_strlit("decrement");
    if args.len() == 1 {
        assert(args =~= seq![args[0]]);
    }
    if args.len() == 2 {
        assert(args =~= seq![args[0], args[1]]);
    }
    match command_statement(name, args) {
        StatementBodyView::UnaryOperation { operation, identifier } => {
            assert(seq![ArgumentMeaning::Name(identifier)] =~= args);
        },
        StatementBodyView::RightIndirectAssignment { assignee, value_pointer } => {
            assert(seq![ArgumentMeaning::Name(assignee), ArgumentMeaning::Name(value_pointer)] =~= args);
        },
        _ => {},
    }
}

/// An assignment, an increment or decrement, an arithmetic assignment or an
/// indirection: the statements that compile to a single command.
pub open spec fn is_assignment_like(b: StatementBodyView) -> bool {
    ||| b is UnaryOperation
    ||| b is ValueAssignment
    ||| b is ArithmeticAssignment
    ||| b is LeftIndirectAssignment
    ||| b is RightIndirectAssignment
}

/// An assignment-like statement compiles to a command that the decompiler
/// reads back as the same statement, whatever the names mean.
pub proof fn lemma_statement_compiles_and_reads_back(s: StatementView, ids: Map<Seq<char>, IdentifierMappingView>)
    requires
        is_assignment_like(s.body),
    ensures
        primitive_statement_of(s, ids) matches Some(p) && p.body matches PrimitiveStatementBodyView::CommandCall {
            name,
            args,
        } && command_statement(name, args) == s.body,
{
    reveal_strlit("increment");
    reveal_strlit("decrement");
    reveal_strlit("assign");
    reveal_strlit("lindirect");
    reveal_strlit("rindirect");
    reveal_strlit("add");
    reveal_strlit("sub");
    reveal_strlit("mul.");
    reveal_strlit("div.");
    reveal_strlit("n");
    reveal_strlit("v");
    reveal_strlit("assignn");
    reveal_strlit("assignv");
    reveal_strlit("lindirectn");
    reveal_strlit("lindirectv");
    reveal_strlit("addn");
    reveal_strlit("addv");
    reveal_strlit("subn");
    reveal_strlit("subv");
    reveal_strlit("mul.n");
    reveal_strlit("mul.v");
    reveal_strlit("div.n");
    reveal_strlit("div.v");
    assert(("assign"@ + "n"@) =~= "assignn"@);
    assert(("assign"@ + "v"@) =~= "assignv"@);
    assert(("lindirect"@ + "n"@) =~= "lindirectn"@);
    assert(("lindirect"@ + "v"@) =~= "lindirectv"@);
    assert(("add"@ + "n"@) =~= "addn"@);
    assert(("add"@ + "v"@) =~= "addv"@);
    assert(("sub"@ + "n"@) =~= "subn"@);
    assert(("sub"@ + "v"@) =~= "subv"@);
    assert(("mul."@ + "n"@) =~= "mul.n"@);
    assert(("mul."@ + "v"@) =~= "mul.v"@);
    assert(("div."@ + "n"@) =~= "div.n"@);
    assert(("div."@ + "v"@) =~= "div.v"@);
    let names = seq![
        "increment"@, "decrement"@, "assignn"@, "assignv"@, "lindirectn"@, "lindirectv"@, "rindirect"@,
        "addn"@, "addv"@, "subn"@, "subv"@, "mul.n"@, "mul.v"@, "div.n"@, "div.v"@
    ];
    assert forall|a: int, b: int| 0 <= a < 15 && 0 <= b < 15 && a != b implies names[a] != names[b] by {
        if names[a].len() == names[b].len() {
            if names[a][0] == names[b][0] {
                assert(names[a][names[a].len() - 1] != names[b][names[b].len() - 1]);
            }
        }
    }
    assert(names[0] == "increment"@ && names[1] == "decrement"@ && names[2] == "assignn"@ && names[3] == "assignv"@);
    assert(names[4] == "lindirectn"@ && names[5] == "lindirectv"@ && names[6] == "rindirect"@ && names[7] == "addn"@);
    assert(names[8] == "addv"@ && names[9] == "subn"@ && names[10] == "subv"@ && names[11] == "mul.n"@);
    assert(names[12] == "mul.v"@ && names[13] == "div.n"@ && names[14] == "div.v"@);
}

} // verus!
