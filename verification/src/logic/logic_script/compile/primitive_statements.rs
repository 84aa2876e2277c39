use vstd::prelude::*;
use vstd::string::StringExecFns;

use crate::logic::assembly::expressions::{
    condition_expression_view, parsed_arguments_view, ArgumentMeaning, AsmConditionView, LogicBooleanExpression,
    LogicIdentifier, ParsedLogicArgument,
};
use crate::logic::logic_script::codegen::command_to_statement::arithmetic_operator_of;
use crate::logic::logic_script::identifiers::{IdentifierMap, IdentifierMapping, IdentifierMappingView};
use crate::logic::logic_script::operators::{LogicScriptArithmeticOperator, LogicScriptUnaryAssignmentOperator};
use crate::logic::logic_script::statements::{
    label_view, lemma_statements_view, name_is_goto, statement_body_view, statement_view, statements_view,
    LogicScriptCommandCall, LogicScriptIfStatement, LogicScriptKeyword, LogicScriptStatement,
    LogicScriptStatementBody, StatementBodyView, StatementView, StatementWithOrWithoutLocation,
};

verus! {

/// An `if` whose branches hold primitive statements.
#[derive(Debug)]
pub struct LogicScriptPrimitiveIfStatement<Arg> {
    pub conditions: LogicBooleanExpression<Arg>,
    pub then_statements: Vec<LogicScriptPrimitiveStatement>,
    pub else_statements: Vec<LogicScriptPrimitiveStatement>,
    pub if_keyword: LogicScriptKeyword,
    pub else_keyword: Option<LogicScriptKeyword>,
}

/// A statement as the bytecode has it: a command call or an `if`.
#[derive(Debug)]
pub enum LogicScriptPrimitiveStatementBody {
    CommandCall(LogicScriptCommandCall<ParsedLogicArgument>),
    IfStatement(LogicScriptPrimitiveIfStatement<ParsedLogicArgument>),
}

#[derive(Debug)]
pub struct LogicScriptPrimitiveStatement {
    pub body: LogicScriptPrimitiveStatementBody,
    pub label: Option<String>,
}

pub enum PrimitiveStatementBodyView {
    CommandCall { name: Seq<char>, args: Seq<ArgumentMeaning> },
    If {
        conditions: AsmConditionView,
        then_statements: Seq<PrimitiveStatementView>,
        else_statements: Seq<PrimitiveStatementView>,
        if_keyword: LogicScriptKeyword,
        else_keyword: Option<LogicScriptKeyword>,
    },
}

pub struct PrimitiveStatementView {
    pub body: PrimitiveStatementBodyView,
    pub label: Option<Seq<char>>,
}

pub open spec fn primitive_statement_view(s: LogicScriptPrimitiveStatement) -> PrimitiveStatementView
    decreases s,
{
    PrimitiveStatementView {
        body: match s.body {
            LogicScriptPrimitiveStatementBody::CommandCall(c) => PrimitiveStatementBodyView::CommandCall {
                name: c.command_name@,
                args: parsed_arguments_view(c.argument_list@),
            },
            LogicScriptPrimitiveStatementBody::IfStatement(i) => PrimitiveStatementBodyView::If {
                conditions: condition_expression_view(i.conditions),
                then_statements: primitive_statements_view(i.then_statements@),
                else_statements: primitive_statements_view(i.else_statements@),
                if_keyword: i.if_keyword,
                else_keyword: i.else_keyword,
            },
        },
        label: label_view(s.label),
    }
}

pub open spec fn primitive_statements_view(s: Seq<LogicScriptPrimitiveStatement>) -> Seq<PrimitiveStatementView>
    decreases s,
{
    if s.len() == 0 {
        Seq::empty()
    } else {
        seq![primitive_statement_view(s[0])] + primitive_statements_view(s.subrange(1, s.len() as int))
    }
}

pub proof fn lemma_primitive_statements_view_push(s: Seq<LogicScriptPrimitiveStatement>, e: LogicScriptPrimitiveStatement)
    ensures
        primitive_statements_view(s.push(e)) == primitive_statements_view(s).push(primitive_statement_view(e)),
    decreases s.len(),
{
    if s.len() == 0 {
        assert(s.push(e).subrange(1, 1) =~= Seq::<LogicScriptPrimitiveStatement>::empty());
        assert(primitive_statements_view(s) =~= Seq::<PrimitiveStatementView>::empty());
        assert(primitive_statements_view(s.push(e).subrange(1, 1)) =~= Seq::<PrimitiveStatementView>::empty());
        assert(s.push(e)[0] == e);
        assert(primitive_statements_view(s.push(e)) =~= seq![primitive_statement_view(e)]);
    } else {
        let tail = s.subrange(1, s.len() as int);
        lemma_primitive_statements_view_push(tail, e);
        assert(s.push(e).subrange(1, s.len() as int + 1) =~= tail.push(e));
        assert(primitive_statements_view(s.push(e)) =~= primitive_statements_view(s).push(primitive_statement_view(e)));
    }
}

/// An argument is a name defined as a variable.
pub open spec fn represents_variable(a: ArgumentMeaning, ids: Map<Seq<char>, IdentifierMappingView>) -> bool {
    &&& a is Name
    &&& ids.contains_key(a->Name_0)
    &&& ids[a->Name_0] is Variable
}

/// `v` where the value is a variable, `n` where it is not.
pub open spec fn kind_suffix(a: ArgumentMeaning, ids: Map<Seq<char>, IdentifierMappingView>) -> Seq<char> {
    if represents_variable(a, ids) {
        "v"@
    } else {
        "n"@
    }
}

pub open spec fn arithmetic_prefix(op: LogicScriptArithmeticOperator) -> Seq<char> {
    match op {
        LogicScriptArithmeticOperator::Add => "add"@,
        LogicScriptArithmeticOperator::Subtract => "sub"@,
        LogicScriptArithmeticOperator::Multiply => "mul."@,
        LogicScriptArithmeticOperator::Divide => "div."@,
    }
}

/// A statement as the bytecode has it: each assignment, increment and the
/// like as the command that does it, named for whether the value is a
/// variable; an `if` with its branches converted; comments and directives
/// dropped. The label stays.
pub open spec fn primitive_statement_of(s: StatementView, ids: Map<Seq<char>, IdentifierMappingView>) -> Option<
    PrimitiveStatementView,
>
    decreases s,
{
    let call = |name: Seq<char>, args: Seq<ArgumentMeaning>| Some(PrimitiveStatementBodyView::CommandCall { name, args });
    let body = match s.body {
        StatementBodyView::UnaryOperation { operation, identifier } => call(
            match operation {
                LogicScriptUnaryAssignmentOperator::Increment => "increment"@,
                LogicScriptUnaryAssignmentOperator::Decrement => "decrement"@,
            },
            seq![ArgumentMeaning::Name(identifier)],
        ),
        StatementBodyView::ValueAssignment { assignee, value } => call(
            "assign"@ + kind_suffix(value, ids),
            seq![ArgumentMeaning::Name(assignee), value],
        ),
        StatementBodyView::ArithmeticAssignment { operator, assignee, value } => call(
            arithmetic_prefix(operator) + kind_suffix(value, ids),
            seq![ArgumentMeaning::Name(assignee), value],
        ),
        StatementBodyView::LeftIndirectAssignment { assignee_pointer, value } => call(
            "lindirect"@ + kind_suffix(value, ids),
            seq![ArgumentMeaning::Name(assignee_pointer), value],
        ),
        StatementBodyView::RightIndirectAssignment { assignee, value_pointer } => call(
            "rindirect"@,
            seq![ArgumentMeaning::Name(assignee), ArgumentMeaning::Name(value_pointer)],
        ),
        StatementBodyView::If { conditions, then_statements, else_statements, if_keyword, else_keyword } => Some(
            PrimitiveStatementBodyView::If {
                conditions,
                then_statements: primitive_statements_of(then_statements, ids),
                else_statements: primitive_statements_of(else_statements, ids),
                if_keyword,
                else_keyword,
            },
        ),
        StatementBodyView::CommandCall { name, args } => call(name, args),
        StatementBodyView::Directive(..) => None,
        StatementBodyView::Comment(_) => None,
    };
    match body {
        Some(b) => Some(PrimitiveStatementView { body: b, label: s.label }),
        None => None,
    }
}

/// A converted statement, or nothing for one dropped.
pub open spec fn kept_statement(p: Option<PrimitiveStatementView>) -> Seq<PrimitiveStatementView> {
    match p {
        Some(p) => seq![p],
        None => Seq::empty(),
    }
}

/// The statements as the bytecode has them, those dropped left out.
pub open spec fn primitive_statements_of(ss: Seq<StatementView>, ids: Map<Seq<char>, IdentifierMappingView>) -> Seq<
    PrimitiveStatementView,
>
    decreases ss,
{
    if ss.len() == 0 {
        Seq::empty()
    } else {
        kept_statement(primitive_statement_of(ss[0], ids)) + primitive_statements_of(
            ss.subrange(1, ss.len() as int),
            ids,
        )
    }
}

proof fn lemma_primitive_statements_of_push(ss: Seq<StatementView>, s: StatementView, ids: Map<Seq<char>, IdentifierMappingView>)
    ensures
        primitive_statements_of(ss.push(s), ids) == primitive_statements_of(ss, ids) + kept_statement(primitive_statement_of(s, ids)),
    decreases ss.len(),
{
    if ss.len() == 0 {
        assert(ss.push(s).subrange(1, 1) =~= Seq::<StatementView>::empty());
        assert(primitive_statements_of(Seq::<StatementView>::empty(), ids) =~= Seq::<PrimitiveStatementView>::empty());
        assert(primitive_statements_of(ss.push(s), ids) =~= primitive_statements_of(ss, ids) + kept_statement(primitive_statement_of(s, ids)));
    } else {
        let tail = ss.subrange(1, ss.len() as int);
        lemma_primitive_statements_of_push(tail, s, ids);
        assert(ss.push(s).subrange(1, ss.len() as int + 1) =~= tail.push(s));
        assert(primitive_statements_of(ss.push(s), ids) =~= primitive_statements_of(ss, ids) + kept_statement(primitive_statement_of(s, ids)));
    }
}

/// Whether an argument is a name defined as a variable.
fn arg_represents_variable(argument: &ParsedLogicArgument, identifier_map: &IdentifierMap) -> (r: bool)
    requires
        identifier_map.wf(),
    ensures
        r == represents_variable(argument@, identifier_map@),
{
    match argument {
        ParsedLogicArgument::Literal(_) => false,
        ParsedLogicArgument::Identifier(value) => match identifier_map.get(value.name.as_str()) {
            Some(IdentifierMapping::Variable { .. }) => true,
            _ => false,
        },
    }
}

/// The name of a command: `prefix`, then `v` for a variable value or `n`.
fn command_name(prefix: &str, value: &ParsedLogicArgument, identifier_map: &IdentifierMap) -> (r: String)
    requires
        identifier_map.wf(),
    ensures
        r@ == prefix@ + kind_suffix(value@, identifier_map@),
{
    let mut name = String::from_str(prefix);
    if arg_represents_variable(value, identifier_map) {
        name.append("v");
    } else {
        name.append("n");
    }
    name
}

/// A command call on two arguments.
fn call_of_two(name: String, first: ParsedLogicArgument, second: ParsedLogicArgument) -> (r: LogicScriptPrimitiveStatementBody)
    ensures
        r matches LogicScriptPrimitiveStatementBody::CommandCall(c) && c.command_name@ == name@ && parsed_arguments_view(
            c.argument_list@,
        ) == seq![first@, second@],
{
    let mut argument_list: Vec<ParsedLogicArgument> = Vec::new();
    argument_list.push(first);
    argument_list.push(second);
    assert(parsed_arguments_view(argument_list@) =~= seq![first@, second@]);
    LogicScriptPrimitiveStatementBody::CommandCall(LogicScriptCommandCall { command_name: name, argument_list })
}

fn copy_label(label: &Option<String>) -> (r: Option<String>)
    ensures
        label_view(r) == label_view(*label),
{
    match label {
        Some(l) => Some(l.clone()),
        None => None,
    }
}

impl LogicScriptPrimitiveStatementBody {
    /// The label a `goto` jumps to: its first argument, where that is a name.
    pub fn get_goto_target_label(&self) -> (r: Option<&String>)
        ensures
            match self {
                LogicScriptPrimitiveStatementBody::CommandCall(c) => if c.command_name@ == "goto"@
                    && c.argument_list@.len() > 0 && c.argument_list@[0] is Identifier {
                    r matches Some(l) && l@ == c.argument_list@[0]->Identifier_0.name@
                } else {
                    r is None
                },
                _ => r is None,
            },
    {
        let statement = match self {
            LogicScriptPrimitiveStatementBody::CommandCall(c) => c,
            _ => {
                return None;
            },
        };
        if !name_is_goto(&statement.command_name) {
            return None;
        }
        if statement.argument_list.len() == 0 {
            return None;
        }
        match &statement.argument_list[0] {
            ParsedLogicArgument::Identifier(target) => Some(&target.name),
            _ => None,
        }
    }
}

/// What an arithmetic assignment compiles to, in words: a call, on the
/// assignee and the value, of the command that the decompiler reads as that
/// same arithmetic.
pub open spec fn compiles_to_its_arithmetic(s: StatementView, p: Option<PrimitiveStatementView>) -> bool {
    match s.body {
        StatementBodyView::ArithmeticAssignment { operator, assignee, value } => match p {
            Some(q) => match q.body {
                PrimitiveStatementBodyView::CommandCall { name, args } => arithmetic_operator_of(name) == Some(operator)
                    && args == seq![ArgumentMeaning::Name(assignee), value],
                _ => false,
            },
            None => false,
        },
        _ => true,
    }
}

/// Each arithmetic assignment compiles to the command that performs its
/// operator: `+=` to `add..`, `-=` to `sub..`, `*=` to `mul...`, `/=` to
/// `div...`, as the decompiler reads those commands back.
pub proof fn lemma_arithmetic_compiles_to_its_command(s: StatementView, ids: Map<Seq<char>, IdentifierMappingView>)
    ensures
        compiles_to_its_arithmetic(s, primitive_statement_of(s, ids)),
{
    reveal_strlit("add");
    reveal_strlit("sub");
    reveal_strlit("mul.");
    reveal_strlit("div.");
    reveal_strlit("n");
    reveal_strlit("v");
    reveal_strlit("addn");
    reveal_strlit("addv");
    reveal_strlit("subn");
    reveal_strlit("subv");
    reveal_strlit("mul.n");
    reveal_strlit("mul.v");
    reveal_strlit("div.n");
    reveal_strlit("div.v");
    if let StatementBodyView::ArithmeticAssignment { operator, assignee, value } = s.body {
        let name = arithmetic_prefix(operator) + kind_suffix(value, ids);
        assert(("add"@ + "n"@) =~= "addn"@);
        assert(("add"@ + "v"@) =~= "addv"@);
        assert(("sub"@ + "n"@) =~= "subn"@);
        assert(("sub"@ + "v"@) =~= "subv"@);
        assert(("mul."@ + "n"@) =~= "mul.n"@);
        assert(("mul."@ + "v"@) =~= "mul.v"@);
        assert(("div."@ + "n"@) =~= "div.n"@);
        assert(("div."@ + "v"@) =~= "div.v"@);
        let names = seq!["addn"@, "addv"@, "subn"@, "subv"@, "mul.n"@, "mul.v"@, "div.n"@, "div.v"@];
        assert forall|a: int, b: int| 0 <= a < 8 && 0 <= b < 8 && a / 2 != b / 2 implies names[a] != names[b] by {
            if names[a].len() == names[b].len() {
                assert(names[a][0] != names[b][0]);
            }
        }
        assert(names[0] == "addn"@ && names[1] == "addv"@ && names[2] == "subn"@ && names[3] == "subv"@);
        assert(names[4] == "mul.n"@ && names[5] == "mul.v"@ && names[6] == "div.n"@ && names[7] == "div.v"@);
        assert(arithmetic_operator_of(name) == Some(operator));
    }
}

impl LogicScriptPrimitiveStatement {
    /// A statement as the bytecode has it; see `primitive_statement_of`.
    pub fn try_from_statement(
        statement: &LogicScriptStatement<ParsedLogicArgument>,
        identifiers: &IdentifierMap,
    ) -> (r: Option<LogicScriptPrimitiveStatement>)
        requires
            identifiers.wf(),
        ensures
            match primitive_statement_of(statement_view(*statement), identifiers@) {
                Some(p) => r matches Some(x) && primitive_statement_view(x) == p,
                None => r is None,
            },
            compiles_to_its_arithmetic(
                statement_view(*statement),
                match r {
                    Some(x) => Some(primitive_statement_view(x)),
                    None => None,
                },
            ),
        decreases statement,
    {
        let ghost ids = identifiers@;
        proof {
            lemma_arithmetic_compiles_to_its_command(statement_view(*statement), ids);
        }
        let primitive_body = match &statement.body {
            LogicScriptStatementBody::UnaryOperation(body) => {
                let name = match body.operation {
                    LogicScriptUnaryAssignmentOperator::Increment => String::from_str("increment"),
                    LogicScriptUnaryAssignmentOperator::Decrement => String::from_str("decrement"),
                };
                let mut argument_list: Vec<ParsedLogicArgument> = Vec::new();
                argument_list.push(ParsedLogicArgument::Identifier(LogicIdentifier { name: body.identifier.name.clone() }));
                assert(parsed_arguments_view(argument_list@) =~= seq![ArgumentMeaning::Name(body.identifier.name@)]);
                LogicScriptPrimitiveStatementBody::CommandCall(LogicScriptCommandCall { command_name: name, argument_list })
            },
            LogicScriptStatementBody::ValueAssignment(body) => call_of_two(
                command_name("assign", &body.value, identifiers),
                ParsedLogicArgument::Identifier(LogicIdentifier { name: body.assignee.name.clone() }),
                body.value.duplicate(),
            ),
            LogicScriptStatementBody::ArithmeticAssignment(body) => {
                let prefix = match body.operator {
                    LogicScriptArithmeticOperator::Add => "add",
                    LogicScriptArithmeticOperator::Subtract => "sub",
                    LogicScriptArithmeticOperator::Multiply => "mul.",
                    LogicScriptArithmeticOperator::Divide => "div.",
                };
                call_of_two(
                    command_name(prefix, &body.value, identifiers),
                    ParsedLogicArgument::Identifier(LogicIdentifier { name: body.assignee.name.clone() }),
                    body.value.duplicate(),
                )
            },
            LogicScriptStatementBody::LeftIndirectAssignment(body) => call_of_two(
                command_name("lindirect", &body.value, identifiers),
                ParsedLogicArgument::Identifier(LogicIdentifier { name: body.assignee_pointer.name.clone() }),
                body.value.duplicate(),
            ),
            LogicScriptStatementBody::RightIndirectAssignment(body) => call_of_two(
                String::from_str("rindirect"),
                ParsedLogicArgument::Identifier(LogicIdentifier { name: body.assignee.name.clone() }),
                ParsedLogicArgument::Identifier(LogicIdentifier { name: body.value_pointer.name.clone() }),
            ),
            LogicScriptStatementBody::IfStatement(body) => {
                let then_statements = primitive_statements_from(&body.then_statements, identifiers);
                let else_statements = primitive_statements_from(&body.else_statements, identifiers);
                LogicScriptPrimitiveStatementBody::IfStatement(
                    LogicScriptPrimitiveIfStatement {
                        if_keyword: body.if_keyword,
                        else_keyword: body.else_keyword,
                        conditions: body.conditions.to_parsed(),
                        then_statements,
                        else_statements,
                    },
                )
            },
            LogicScriptStatementBody::CommandCall(body) => {
                let mut argument_list: Vec<ParsedLogicArgument> = Vec::new();
                let mut i: usize = 0;
                while i < body.argument_list.len()
                    invariant
                        0 <= i <= body.argument_list@.len(),
                        parsed_arguments_view(argument_list@) == parsed_arguments_view(body.argument_list@.take(i as int)),
                    decreases body.argument_list@.len() - i,
                {
                    let ghost before = argument_list@;
                    argument_list.push(body.argument_list[i].duplicate());
                    proof {
                        assert(parsed_arguments_view(argument_list@) =~= parsed_arguments_view(before).push(
                            body.argument_list@[i as int]@,
                        ));
                        assert(parsed_arguments_view(body.argument_list@.take(i + 1)) =~= parsed_arguments_view(
                            body.argument_list@.take(i as int),
                        ).push(body.argument_list@[i as int]@));
                    }
                    i = i + 1;
                }
                proof {
                    assert(body.argument_list@.take(i as int) =~= body.argument_list@);
                }
                LogicScriptPrimitiveStatementBody::CommandCall(
                    LogicScriptCommandCall { command_name: body.command_name.clone(), argument_list },
                )
            },
            LogicScriptStatementBody::Directive(_) | LogicScriptStatementBody::Comment(_) => {
                return None;
            },
        };
        proof {
            reveal_strlit("increment");
            reveal_strlit("decrement");
        }
        Some(LogicScriptPrimitiveStatement { body: primitive_body, label: copy_label(&statement.label) })
    }
}

/// The statements of a branch as the bytecode has them.
fn primitive_statements_from(
    statements: &Vec<StatementWithOrWithoutLocation<ParsedLogicArgument>>,
    identifiers: &IdentifierMap,
) -> (r: Vec<LogicScriptPrimitiveStatement>)
    requires
        identifiers.wf(),
    ensures
        primitive_statements_view(r@) == primitive_statements_of(statements_view(statements@), identifiers@),
    decreases statements,
{
    let ghost ids = identifiers@;
    let ghost sv = statements_view(statements@);
    proof {
        lemma_statements_view(statements@);
    }
    let mut r: Vec<LogicScriptPrimitiveStatement> = Vec::new();
    let mut i: usize = 0;
    proof {
        assert(sv.take(0) =~= Seq::<StatementView>::empty());
        assert(primitive_statements_view(r@) =~= Seq::<PrimitiveStatementView>::empty());
    }
    while i < statements.len()
        invariant
            identifiers.wf(),
            ids == identifiers@,
            sv == statements_view(statements@),
            sv.len() == statements@.len(),
            forall|k: int| 0 <= k < statements@.len() ==> #[trigger] sv[k] == statement_view(statements@[k].spec_statement()),
            0 <= i <= statements@.len(),
            primitive_statements_view(r@) == primitive_statements_of(sv.take(i as int), ids),
        decreases statements@.len() - i,
    {
        let s = statements[i].statement();
        proof {
            assert(decreases_to!(statements => statements@[i as int]));
            assert(decreases_to!(statements@[i as int] => statements@[i as int].spec_statement()));
            assert(sv.take(i + 1) =~= sv.take(i as int).push(sv[i as int]));
            lemma_primitive_statements_of_push(sv.take(i as int), sv[i as int], ids);
        }
        match LogicScriptPrimitiveStatement::try_from_statement(s, identifiers) {
            Some(p) => {
                proof {
                    lemma_primitive_statements_view_push(r@, p);
                }
                r.push(p);
            },
            None => {},
        }
        i = i + 1;
    }
    proof {
        assert(sv.take(i as int) =~= sv);
    }
    r
}

/// A primitive statement as a statement of the script.
pub open spec fn statement_of_primitive(p: PrimitiveStatementView) -> StatementView
    decreases p,
{
    StatementView {
        body: match p.body {
            PrimitiveStatementBodyView::CommandCall { name, args } => StatementBodyView::CommandCall { name, args },
            PrimitiveStatementBodyView::If { conditions, then_statements, else_statements, if_keyword, else_keyword } =>
            StatementBodyView::If {
                conditions,
                then_statements: statements_of_primitives(then_statements),
                else_statements: statements_of_primitives(else_statements),
                if_keyword,
                else_keyword,
            },
        },
        label: p.label,
    }
}

pub open spec fn statements_of_primitives(ps: Seq<PrimitiveStatementView>) -> Seq<StatementView>
    decreases ps,
{
    if ps.len() == 0 {
        Seq::empty()
    } else {
        seq![statement_of_primitive(ps[0])] + statements_of_primitives(ps.subrange(1, ps.len() as int))
    }
}

proof fn lemma_statements_of_primitives(ps: Seq<PrimitiveStatementView>)
    ensures
        statements_of_primitives(ps).len() == ps.len(),
        forall|i: int| 0 <= i < ps.len() ==> #[trigger] statements_of_primitives(ps)[i] == statement_of_primitive(ps[i]),
    decreases ps.len(),
{
    if ps.len() > 0 {
        let tail = ps.subrange(1, ps.len() as int);
        lemma_statements_of_primitives(tail);
        assert forall|i: int| 0 <= i < ps.len() implies #[trigger] statements_of_primitives(ps)[i]
            == statement_of_primitive(ps[i]) by {
            if i > 0 {
                assert(tail[i - 1] == ps[i]);
            }
        }
    }
}

proof fn lemma_primitive_statements_view_each(s: Seq<LogicScriptPrimitiveStatement>)
    ensures
        primitive_statements_view(s).len() == s.len(),
        forall|i: int| 0 <= i < s.len() ==> #[trigger] primitive_statements_view(s)[i] == primitive_statement_view(s[i]),
    decreases s.len(),
{
    if s.len() > 0 {
        let tail = s.subrange(1, s.len() as int);
        lemma_primitive_statements_view_each(tail);
        assert forall|i: int| 0 <= i < s.len() implies #[trigger] primitive_statements_view(s)[i]
            == primitive_statement_view(s[i]) by {
            if i > 0 {
                assert(tail[i - 1] == s[i]);
            }
        }
    }
}

impl LogicScriptPrimitiveStatement {
    /// The statement as a statement of the script.
    pub fn to_statement(&self) -> (r: LogicScriptStatement<ParsedLogicArgument>)
        ensures
            statement_view(r) == statement_of_primitive(primitive_statement_view(*self)),
        decreases self,
    {
        let body = match &self.body {
            LogicScriptPrimitiveStatementBody::CommandCall(body) => {
                let mut argument_list: Vec<ParsedLogicArgument> = Vec::new();
                let mut i: usize = 0;
                while i < body.argument_list.len()
                    invariant
                        0 <= i <= body.argument_list@.len(),
                        parsed_arguments_view(argument_list@) == parsed_arguments_view(body.argument_list@.take(i as int)),
                    decreases body.argument_list@.len() - i,
                {
                    let ghost before = argument_list@;
                    argument_list.push(body.argument_list[i].duplicate());
                    proof {
                        assert(parsed_arguments_view(argument_list@) =~= parsed_arguments_view(before).push(
                            body.argument_list@[i as int]@,
                        ));
                        assert(parsed_arguments_view(body.argument_list@.take(i + 1)) =~= parsed_arguments_view(
                            body.argument_list@.take(i as int),
                        ).push(body.argument_list@[i as int]@));
                    }
                    i = i + 1;
                }
                proof {
                    assert(body.argument_list@.take(i as int) =~= body.argument_list@);
                }
                LogicScriptStatementBody::CommandCall(
                    LogicScriptCommandCall { command_name: body.command_name.clone(), argument_list },
                )
            },
            LogicScriptPrimitiveStatementBody::IfStatement(body) => {
                let then_statements = statements_of(&body.then_statements);
                let else_statements = statements_of(&body.else_statements);
                LogicScriptStatementBody::IfStatement(
                    LogicScriptIfStatement {
                        conditions: body.conditions.to_parsed(),
                        then_statements,
                        else_statements,
                        if_keyword: body.if_keyword,
                        else_keyword: body.else_keyword,
                    },
                )
            },
        };
        LogicScriptStatement { body, label: copy_label(&self.label) }
    }
}

/// Primitive statements as statements of the script, without spans.
fn statements_of(ps: &Vec<LogicScriptPrimitiveStatement>) -> (r: Vec<StatementWithOrWithoutLocation<ParsedLogicArgument>>)
    ensures
        statements_view(r@) == statements_of_primitives(primitive_statements_view(ps@)),
    decreases ps,
{
    let ghost pv = primitive_statements_view(ps@);
    proof {
        lemma_primitive_statements_view_each(ps@);
        lemma_statements_of_primitives(pv);
    }
    let mut r: Vec<StatementWithOrWithoutLocation<ParsedLogicArgument>> = Vec::new();
    let mut i: usize = 0;
    while i < ps.len()
        invariant
            pv == primitive_statements_view(ps@),
            pv.len() == ps@.len(),
            forall|k: int| 0 <= k < ps@.len() ==> #[trigger] pv[k] == primitive_statement_view(ps@[k]),
            statements_of_primitives(pv).len() == pv.len(),
            forall|k: int| 0 <= k < pv.len() ==> #[trigger] statements_of_primitives(pv)[k] == statement_of_primitive(pv[k]),
            0 <= i <= ps@.len(),
            statements_view(r@) == statements_of_primitives(pv).take(i as int),
        decreases ps@.len() - i,
    {
        proof {
            assert(decreases_to!(ps => ps@[i as int]));
        }
        let st = ps[i].to_statement();
        let ghost before = r@;
        r.push(StatementWithOrWithoutLocation::WithoutLocation(st));
        proof {
            lemma_statements_view(r@);
            lemma_statements_view(before);
            assert(statements_view(r@) =~= statements_of_primitives(pv).take(i + 1));
        }
        i = i + 1;
    }
    proof {
        assert(statements_of_primitives(pv).take(i as int) =~= statements_of_primitives(pv));
    }
    r
}

/// Turning a primitive statement back into a statement of the script and
/// converting that again gives the primitive statement back, whatever the
/// names mean.
pub proof fn lemma_primitive_statement_round_trip(p: PrimitiveStatementView, ids: Map<Seq<char>, IdentifierMappingView>)
    ensures
        primitive_statement_of(statement_of_primitive(p), ids) == Some(p),
    decreases p,
{
    match p.body {
        PrimitiveStatementBodyView::If { then_statements, else_statements, .. } => {
            lemma_primitive_statements_round_trip(then_statements, ids);
            lemma_primitive_statements_round_trip(else_statements, ids);
        },
        _ => {},
    }
}

/// The same for the statements of a branch.
pub proof fn lemma_primitive_statements_round_trip(
    ps: Seq<PrimitiveStatementView>,
    ids: Map<Seq<char>, IdentifierMappingView>,
)
    ensures
        primitive_statements_of(statements_of_primitives(ps), ids) == ps,
    decreases ps,
{
    if ps.len() > 0 {
        let tail = ps.subrange(1, ps.len() as int);
        lemma_primitive_statement_round_trip(ps[0], ids);
        lemma_primitive_statements_round_trip(tail, ids);
        let ss = statements_of_primitives(ps);
        assert(ss.subrange(1, ss.len() as int) =~= statements_of_primitives(tail));
        assert(ps =~= seq![ps[0]] + tail);
    } else {
        assert(statements_of_primitives(ps) =~= Seq::<StatementView>::empty());
        assert(ps =~= Seq::<PrimitiveStatementView>::empty());
    }
}

} // verus!
