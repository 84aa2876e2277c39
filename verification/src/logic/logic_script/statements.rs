use vstd::prelude::*;
use vstd::string::StringExecFns;

use crate::logic::assembly::expressions::{
    condition_expression_view, parsed_arguments_view, ArgumentMeaning, AsmConditionView, LogicBooleanExpression,
    LogicIdentifier, ParsedLogicArgument,
};
use crate::logic::logic_script::directives::{directive_view, DirectiveView, LogicScriptDirective, LogicScriptDirectiveKeyword};
use crate::logic::logic_script::locations::WithLocation;
use crate::logic::logic_script::operators::{LogicScriptArithmeticOperator, LogicScriptUnaryAssignmentOperator};

verus! {

#[derive(Debug, Clone, PartialEq, Eq)]
pub struct LogicScriptCommandCall<Arg> {
    pub command_name: String,
    pub argument_list: Vec<Arg>,
}

#[derive(Debug)]
pub struct LogicScriptIfStatement<Arg> {
    pub conditions: LogicBooleanExpression<Arg>,
    pub then_statements: Vec<StatementWithOrWithoutLocation<Arg>>,
    pub else_statements: Vec<StatementWithOrWithoutLocation<Arg>>,
    pub if_keyword: LogicScriptKeyword,
    pub else_keyword: Option<LogicScriptKeyword>,
}

#[derive(Debug, Clone, PartialEq, Eq)]
pub struct LogicScriptUnaryOperationStatement {
    pub operation: LogicScriptUnaryAssignmentOperator,
    pub identifier: LogicIdentifier,
}

#[derive(Debug, Clone, PartialEq, Eq)]
pub struct LogicScriptValueAssignmentStatement<Arg> {
    pub assignee: LogicIdentifier,
    pub value: Arg,
}

#[derive(Debug, Clone, PartialEq, Eq)]
pub struct LogicScriptArithmeticAssignmentStatement<Arg> {
    pub operator: LogicScriptArithmeticOperator,
    pub assignee: LogicIdentifier,
    pub value: Arg,
}

#[derive(Debug, Clone, PartialEq, Eq)]
pub struct LogicScriptLeftIndirectAssignmentStatement<Arg> {
    pub assignee_pointer: LogicIdentifier,
    pub value: Arg,
}

#[derive(Debug, Clone, PartialEq, Eq)]
pub struct LogicScriptRightIndirectAssignmentStatement {
    pub assignee: LogicIdentifier,
    pub value_pointer: LogicIdentifier,
}

#[derive(Debug, Clone, PartialEq, Eq)]
pub struct LogicScriptComment {
    pub comment: String,
}

#[derive(Debug, Clone, Copy, PartialEq, Eq, Structural)]
pub enum KeywordType {
    If,
    Else,
}

#[derive(Debug, Clone, Copy, PartialEq, Eq, Structural)]
pub struct LogicScriptKeyword {
    pub keyword: KeywordType,
}

/// A statement, with or without the span of the script it came from.
#[derive(Debug)]
pub enum StatementWithOrWithoutLocation<Arg> {
    WithLocation(WithLocation<LogicScriptStatement<Arg>>),
    WithoutLocation(LogicScriptStatement<Arg>),
}

impl<Arg> StatementWithOrWithoutLocation<Arg> {
    /// The statement itself.
    pub fn statement(&self) -> (r: &LogicScriptStatement<Arg>)
        ensures
            *r == self.spec_statement(),
    {
        match self {
            StatementWithOrWithoutLocation::WithLocation(s) => &s.value,
            StatementWithOrWithoutLocation::WithoutLocation(s) => s,
        }
    }

    pub open spec fn spec_statement(&self) -> LogicScriptStatement<Arg> {
        match self {
            StatementWithOrWithoutLocation::WithLocation(s) => s.value,
            StatementWithOrWithoutLocation::WithoutLocation(s) => *s,
        }
    }
}

#[derive(Debug)]
pub enum LogicScriptStatementBody<Arg> {
    CommandCall(LogicScriptCommandCall<Arg>),
    IfStatement(LogicScriptIfStatement<Arg>),
    Comment(LogicScriptComment),
    UnaryOperation(LogicScriptUnaryOperationStatement),
    Directive(LogicScriptDirective),
    ValueAssignment(LogicScriptValueAssignmentStatement<Arg>),
    ArithmeticAssignment(LogicScriptArithmeticAssignmentStatement<Arg>),
    LeftIndirectAssignment(LogicScriptLeftIndirectAssignmentStatement<Arg>),
    RightIndirectAssignment(LogicScriptRightIndirectAssignmentStatement),
}

#[derive(Debug)]
pub struct LogicScriptStatement<Arg> {
    pub body: LogicScriptStatementBody<Arg>,
    pub label: Option<String>,
}

impl<Arg> LogicScriptStatement<Arg> {
    pub fn new(body: LogicScriptStatementBody<Arg>, label: Option<String>) -> (r: Self)
        ensures
            r.body == body,
            r.label == label,
    {
        Self { body, label }
    }
}

/// What a statement body of a script says.
pub enum StatementBodyView {
    CommandCall { name: Seq<char>, args: Seq<ArgumentMeaning> },
    If {
        conditions: AsmConditionView,
        then_statements: Seq<StatementView>,
        else_statements: Seq<StatementView>,
        if_keyword: LogicScriptKeyword,
        else_keyword: Option<LogicScriptKeyword>,
    },
    Comment(Seq<char>),
    UnaryOperation { operation: LogicScriptUnaryAssignmentOperator, identifier: Seq<char> },
    Directive(LogicScriptDirectiveKeyword, DirectiveView),
    ValueAssignment { assignee: Seq<char>, value: ArgumentMeaning },
    ArithmeticAssignment { operator: LogicScriptArithmeticOperator, assignee: Seq<char>, value: ArgumentMeaning },
    LeftIndirectAssignment { assignee_pointer: Seq<char>, value: ArgumentMeaning },
    RightIndirectAssignment { assignee: Seq<char>, value_pointer: Seq<char> },
}

/// What a statement of a script says, and its label.
pub struct StatementView {
    pub body: StatementBodyView,
    pub label: Option<Seq<char>>,
}

pub open spec fn label_view(l: Option<String>) -> Option<Seq<char>> {
    match l {
        Some(s) => Some(s@),
        None => None,
    }
}

pub open spec fn statement_view(s: LogicScriptStatement<ParsedLogicArgument>) -> StatementView
    decreases s,
{
    StatementView { body: statement_body_view(s.body), label: label_view(s.label) }
}

pub open spec fn statement_body_view(b: LogicScriptStatementBody<ParsedLogicArgument>) -> StatementBodyView
    decreases b,
{
    match b {
        LogicScriptStatementBody::CommandCall(c) => StatementBodyView::CommandCall {
            name: c.command_name@,
            args: parsed_arguments_view(c.argument_list@),
        },
        LogicScriptStatementBody::IfStatement(i) => StatementBodyView::If {
            conditions: condition_expression_view(i.conditions),
            then_statements: statements_view(i.then_statements@),
            else_statements: statements_view(i.else_statements@),
            if_keyword: i.if_keyword,
            else_keyword: i.else_keyword,
        },
        LogicScriptStatementBody::Comment(c) => StatementBodyView::Comment(c.comment@),
        LogicScriptStatementBody::UnaryOperation(u) => StatementBodyView::UnaryOperation {
            operation: u.operation,
            identifier: u.identifier.name@,
        },
        LogicScriptStatementBody::Directive(d) => StatementBodyView::Directive(d.keyword, directive_view(d.directive)),
        LogicScriptStatementBody::ValueAssignment(v) => StatementBodyView::ValueAssignment {
            assignee: v.assignee.name@,
            value: v.value@,
        },
        LogicScriptStatementBody::ArithmeticAssignment(a) => StatementBodyView::ArithmeticAssignment {
            operator: a.operator,
            assignee: a.assignee.name@,
            value: a.value@,
        },
        LogicScriptStatementBody::LeftIndirectAssignment(l) => StatementBodyView::LeftIndirectAssignment {
            assignee_pointer: l.assignee_pointer.name@,
            value: l.value@,
        },
        LogicScriptStatementBody::RightIndirectAssignment(r) => StatementBodyView::RightIndirectAssignment {
            assignee: r.assignee.name@,
            value_pointer: r.value_pointer.name@,
        },
    }
}

pub open spec fn statements_view(s: Seq<StatementWithOrWithoutLocation<ParsedLogicArgument>>) -> Seq<StatementView>
    decreases s,
{
    if s.len() == 0 {
        Seq::empty()
    } else {
        seq![
            match s[0] {
                StatementWithOrWithoutLocation::WithLocation(w) => statement_view(w.value),
                StatementWithOrWithoutLocation::WithoutLocation(st) => statement_view(st),
            },
        ] + statements_view(s.subrange(1, s.len() as int))
    }
}

/// The views of a sequence of statements, one by one.
pub proof fn lemma_statements_view(s: Seq<StatementWithOrWithoutLocation<ParsedLogicArgument>>)
    ensures
        statements_view(s).len() == s.len(),
        forall|i: int| 0 <= i < s.len() ==> #[trigger] statements_view(s)[i] == statement_view(s[i].spec_statement()),
    decreases s.len(),
{
    if s.len() > 0 {
        let tail = s.subrange(1, s.len() as int);
        lemma_statements_view(tail);
        assert forall|i: int| 0 <= i < s.len() implies #[trigger] statements_view(s)[i] == statement_view(
            s[i].spec_statement(),
        ) by {
            if i > 0 {
                assert(tail[i - 1] == s[i]);
            }
        }
    }
}

impl LogicScriptStatementBody<ParsedLogicArgument> {
    /// The label a `goto` jumps to: its first argument, where that is a name.
    pub fn get_goto_target_label(&self) -> (r: Option<&String>)
        ensures
            match statement_body_view(*self) {
                StatementBodyView::CommandCall { name, args } => if name == "goto"@ && args.len() > 0
                    && args[0] is Name {
                    r matches Some(l) && l@ == args[0]->Name_0
                } else {
                    r is None
                },
                _ => r is None,
            },
    {
        let statement = match self {
            LogicScriptStatementBody::CommandCall(c) => c,
            _ => {
                return None;
            },
        };
        if !name_is_goto(&statement.command_name) {
            return None;
        }
        if statement.argument_list.len() == 0 {
            return None;
        }
        match &statement.argument_list[0] {
            ParsedLogicArgument::Identifier(target) => Some(&target.name),
            _ => None,
        }
    }
}

impl LogicScriptStatement<ParsedLogicArgument> {
    pub fn get_goto_target_label(&self) -> (r: Option<&String>)
        ensures
            match statement_body_view(self.body) {
                StatementBodyView::CommandCall { name, args } => if name == "goto"@ && args.len() > 0
                    && args[0] is Name {
                    r matches Some(l) && l@ == args[0]->Name_0
                } else {
                    r is None
                },
                _ => r is None,
            },
    {
        self.body.get_goto_target_label()
    }
}

/// Whether a command is `goto`.
pub fn name_is_goto(name: &String) -> (r: bool)
    ensures
        r == (name@ == "goto"@),
{
    *name == String::from_str("goto")
}

} // verus!
