use vstd::prelude::*;
use vstd::string::StringExecFns;

use crate::logic::assembly::expressions::{
    condition_expression_view, condition_expressions_view, lemma_condition_expressions_view, parsed_arguments_view,
    ArgumentMeaning, AsmConditionView, LogicAndExpression, LogicBooleanExpression, LogicIdentifier, LogicOrExpression,
    LogicTestCall, ParsedLogicArgument,
};
use crate::logic::assembly::operators::LogicBooleanBinaryOperator;
use crate::logic::assembly::literals::{LogicLiteral, LogicLiteralValue, LogicNumberLiteral, LogicStringLiteral};
use crate::logic::commands::AGICommandArgType;
use crate::logic::logic_script::compile::ast_generator::ASTGenerationError;
use crate::logic::logic_script::identifiers::{IdentifierMap, IdentifierMapping, IdentifierMappingView};

verus! {

/// An operand of a comparison once names are looked up: a literal, or a
/// numbered variable of some type.
#[derive(Debug)]
pub enum ResolvedBinaryOperand {
    Literal(LogicLiteral),
    VariableIdentifier { name: String, number: u16, variable_type: AGICommandArgType },
}

/// What a resolved operand is: a number, a text, or a numbered variable.
pub enum ResolvedOperandView {
    Number(int),
    Text(Seq<char>),
    Variable { name: Seq<char>, number: u16, variable_type: AGICommandArgType },
}

impl View for ResolvedBinaryOperand {
    type V = ResolvedOperandView;

    open spec fn view(&self) -> ResolvedOperandView {
        match self {
            ResolvedBinaryOperand::Literal(l) => match l.value {
                LogicLiteralValue::Number(n) => ResolvedOperandView::Number(n.value as int),
                LogicLiteralValue::String(s) => ResolvedOperandView::Text(s.value@),
            },
            ResolvedBinaryOperand::VariableIdentifier { name, number, variable_type } => ResolvedOperandView::Variable {
                name: name@,
                number: *number,
                variable_type: *variable_type,
            },
        }
    }
}

/// What a name resolves to: a variable stays a variable, a constant becomes
/// its literal.
pub open spec fn resolved_mapping(m: IdentifierMappingView) -> ResolvedOperandView {
    match m {
        IdentifierMappingView::Variable { name, number, variable_type } => ResolvedOperandView::Variable {
            name,
            number,
            variable_type,
        },
        IdentifierMappingView::ConstantString { value, .. } => ResolvedOperandView::Text(value),
        IdentifierMappingView::ConstantNumber { value, .. } => ResolvedOperandView::Number(value as int),
    }
}

impl ResolvedBinaryOperand {
    /// Resolves an argument: a literal stays; a name is looked up, and a name
    /// not defined is an error.
    pub fn from_argument(arg: &ParsedLogicArgument, identifiers: &IdentifierMap) -> (r: Result<
        ResolvedBinaryOperand,
        ASTGenerationError,
    >)
        requires
            identifiers.wf(),
        ensures
            match arg {
                ParsedLogicArgument::Literal(l) => r matches Ok(o) && o@ == (match l.value {
                    LogicLiteralValue::Number(n) => ResolvedOperandView::Number(n.value as int),
                    LogicLiteralValue::String(s) => ResolvedOperandView::Text(s.value@),
                }),
                ParsedLogicArgument::Identifier(i) => if identifiers@.contains_key(i.name@) {
                    r matches Ok(o) && o@ == resolved_mapping(identifiers@[i.name@])
                } else {
                    r matches Err(ASTGenerationError::UnknownIdentifier(n)) && n@ == i.name@
                },
            },
    {
        match arg {
            ParsedLogicArgument::Literal(literal) => {
                let value = match &literal.value {
                    LogicLiteralValue::Number(n) => LogicLiteralValue::Number(LogicNumberLiteral { value: n.value }),
                    LogicLiteralValue::String(s) => LogicLiteralValue::String(LogicStringLiteral { value: s.value.clone() }),
                };
                Ok(ResolvedBinaryOperand::Literal(LogicLiteral { value }))
            },
            ParsedLogicArgument::Identifier(identifier) => {
                let mapping = match identifiers.get(identifier.name.as_str()) {
                    Some(m) => m,
                    None => {
                        return Err(ASTGenerationError::UnknownIdentifier(identifier.name.clone()));
                    },
                };
                match mapping {
                    IdentifierMapping::Variable { name, number, variable_type } => Ok(
                        ResolvedBinaryOperand::VariableIdentifier {
                            name: name.clone(),
                            number: *number,
                            variable_type: *variable_type,
                        },
                    ),
                    IdentifierMapping::ConstantString { value, .. } => Ok(
                        ResolvedBinaryOperand::Literal(
                            LogicLiteral { value: LogicLiteralValue::String(LogicStringLiteral { value: value.clone() }) },
                        ),
                    ),
                    IdentifierMapping::ConstantNumber { value, .. } => Ok(
                        ResolvedBinaryOperand::Literal(
                            LogicLiteral { value: LogicLiteralValue::Number(LogicNumberLiteral { value: *value as i32 }) },
                        ),
                    ),
                }
            },
        }
    }
}

/// `a < b` read as `b > a`: the operator with its operands swapped.
pub open spec fn flipped(operator: LogicBooleanBinaryOperator) -> LogicBooleanBinaryOperator {
    match operator {
        LogicBooleanBinaryOperator::LessThan => LogicBooleanBinaryOperator::GreaterThan,
        LogicBooleanBinaryOperator::LessThanOrEqual => LogicBooleanBinaryOperator::GreaterThanOrEqual,
        LogicBooleanBinaryOperator::GreaterThan => LogicBooleanBinaryOperator::LessThan,
        LogicBooleanBinaryOperator::GreaterThanOrEqual => LogicBooleanBinaryOperator::LessThanOrEqual,
        LogicBooleanBinaryOperator::Equal => LogicBooleanBinaryOperator::Equal,
        LogicBooleanBinaryOperator::NotEqual => LogicBooleanBinaryOperator::NotEqual,
    }
}

/// What a comparison says of two numbers.
pub open spec fn compares(operator: LogicBooleanBinaryOperator, a: int, b: int) -> bool {
    match operator {
        LogicBooleanBinaryOperator::LessThan => a < b,
        LogicBooleanBinaryOperator::LessThanOrEqual => a <= b,
        LogicBooleanBinaryOperator::GreaterThan => a > b,
        LogicBooleanBinaryOperator::GreaterThanOrEqual => a >= b,
        LogicBooleanBinaryOperator::Equal => a == b,
        LogicBooleanBinaryOperator::NotEqual => a != b,
    }
}

/// Swapping the operands twice gives the operator back, and `a op b` holds
/// exactly when `b flipped(op) a` does.
pub proof fn lemma_flip_law(operator: LogicBooleanBinaryOperator, a: int, b: int)
    ensures
        flipped(flipped(operator)) == operator,
        compares(operator, a, b) == compares(flipped(operator), b, a),
{
}

fn flip_binary_operator(operator: LogicBooleanBinaryOperator) -> (r: LogicBooleanBinaryOperator)
    ensures
        r == flipped(operator),
{
    match operator {
        LogicBooleanBinaryOperator::LessThan => LogicBooleanBinaryOperator::GreaterThan,
        LogicBooleanBinaryOperator::LessThanOrEqual => LogicBooleanBinaryOperator::GreaterThanOrEqual,
        LogicBooleanBinaryOperator::GreaterThan => LogicBooleanBinaryOperator::LessThan,
        LogicBooleanBinaryOperator::GreaterThanOrEqual => LogicBooleanBinaryOperator::LessThanOrEqual,
        LogicBooleanBinaryOperator::Equal => LogicBooleanBinaryOperator::Equal,
        LogicBooleanBinaryOperator::NotEqual => LogicBooleanBinaryOperator::NotEqual,
    }
}

/// A call of a test command: its name and what its arguments mean.
pub struct TestCallView {
    pub name: Seq<char>,
    pub args: Seq<ArgumentMeaning>,
}

pub open spec fn test_call_view(t: LogicTestCall<ParsedLogicArgument>) -> TestCallView {
    TestCallView { name: t.test_name@, args: parsed_arguments_view(t.argument_list@) }
}

/// A test call, or its negation.
pub struct TestLiteral {
    pub negated: bool,
    pub call: TestCallView,
}

/// A test call or a negated one, inside a disjunction.
#[derive(Debug)]
pub enum PrimitiveOrClause {
    TestCall(LogicTestCall<ParsedLogicArgument>),
    NotTestCall(LogicTestCall<ParsedLogicArgument>),
}

impl View for PrimitiveOrClause {
    type V = TestLiteral;

    open spec fn view(&self) -> TestLiteral {
        match self {
            PrimitiveOrClause::TestCall(t) => TestLiteral { negated: false, call: test_call_view(*t) },
            PrimitiveOrClause::NotTestCall(t) => TestLiteral { negated: true, call: test_call_view(*t) },
        }
    }
}

pub open spec fn or_clauses_view(s: Seq<PrimitiveOrClause>) -> Seq<TestLiteral> {
    s.map_values(|c: PrimitiveOrClause| c@)
}

/// A clause of a conjunction: a test call, a negated one, or a disjunction of
/// such.
#[derive(Debug)]
pub enum PrimitiveAndClause {
    TestCall(LogicTestCall<ParsedLogicArgument>),
    NotTestCall(LogicTestCall<ParsedLogicArgument>),
    Or(Vec<PrimitiveOrClause>),
}

pub enum AndClauseView {
    Literal(TestLiteral),
    Or(Seq<TestLiteral>),
}

impl View for PrimitiveAndClause {
    type V = AndClauseView;

    open spec fn view(&self) -> AndClauseView {
        match self {
            PrimitiveAndClause::TestCall(t) => AndClauseView::Literal(
                TestLiteral { negated: false, call: test_call_view(*t) },
            ),
            PrimitiveAndClause::NotTestCall(t) => AndClauseView::Literal(
                TestLiteral { negated: true, call: test_call_view(*t) },
            ),
            PrimitiveAndClause::Or(cs) => AndClauseView::Or(or_clauses_view(cs@)),
        }
    }
}

pub open spec fn and_clauses_view(s: Seq<PrimitiveAndClause>) -> Seq<AndClauseView> {
    s.map_values(|c: PrimitiveAndClause| c@)
}

/// A condition in the form the bytecode holds: a test call, a negated one, a
/// disjunction of such, or a conjunction of clauses.
#[derive(Debug)]
pub enum PrimitiveBooleanExpression {
    TestCall(LogicTestCall<ParsedLogicArgument>),
    NotTestCall(LogicTestCall<ParsedLogicArgument>),
    Or(Vec<PrimitiveOrClause>),
    And(Vec<PrimitiveAndClause>),
}

pub enum PrimitiveView {
    Literal(TestLiteral),
    Or(Seq<TestLiteral>),
    And(Seq<AndClauseView>),
}

impl View for PrimitiveBooleanExpression {
    type V = PrimitiveView;

    open spec fn view(&self) -> PrimitiveView {
        match self {
            PrimitiveBooleanExpression::TestCall(t) => PrimitiveView::Literal(
                TestLiteral { negated: false, call: test_call_view(*t) },
            ),
            PrimitiveBooleanExpression::NotTestCall(t) => PrimitiveView::Literal(
                TestLiteral { negated: true, call: test_call_view(*t) },
            ),
            PrimitiveBooleanExpression::Or(cs) => PrimitiveView::Or(or_clauses_view(cs@)),
            PrimitiveBooleanExpression::And(cs) => PrimitiveView::And(and_clauses_view(cs@)),
        }
    }
}

/// The literals of clauses, disjunctions spread out.
pub open spec fn spread_or(cs: Seq<AndClauseView>) -> Seq<TestLiteral>
    decreases cs.len(),
{
    if cs.len() == 0 {
        Seq::empty()
    } else {
        spread_or(cs.drop_last()) + match cs.last() {
            AndClauseView::Literal(l) => seq![l],
            AndClauseView::Or(ls) => ls,
        }
    }
}

/// The clauses of expressions, conjunctions spread out.
pub open spec fn spread_and(es: Seq<PrimitiveView>) -> Seq<AndClauseView>
    decreases es.len(),
{
    if es.len() == 0 {
        Seq::empty()
    } else {
        spread_and(es.drop_last()) + match es.last() {
            PrimitiveView::Literal(l) => seq![AndClauseView::Literal(l)],
            PrimitiveView::Or(ls) => seq![AndClauseView::Or(ls)],
            PrimitiveView::And(cs) => cs,
        }
    }
}

/// A condition built of test calls with `!`, `||` and `&&`, each of the last
/// two joining exactly two conditions.
#[derive(Debug)]
pub enum BinaryExpression {
    TestCall(LogicTestCall<ParsedLogicArgument>),
    Not(Box<BinaryExpression>),
    Or(Box<BinaryExpression>, Box<BinaryExpression>),
    And(Box<BinaryExpression>, Box<BinaryExpression>),
}

pub enum BinaryView {
    TestCall(TestCallView),
    Not(Box<BinaryView>),
    Or(Box<BinaryView>, Box<BinaryView>),
    And(Box<BinaryView>, Box<BinaryView>),
}

pub open spec fn binary_view(e: BinaryExpression) -> BinaryView
    decreases e,
{
    match e {
        BinaryExpression::TestCall(t) => BinaryView::TestCall(test_call_view(t)),
        BinaryExpression::Not(x) => BinaryView::Not(Box::new(binary_view(*x))),
        BinaryExpression::Or(l, r) => BinaryView::Or(Box::new(binary_view(*l)), Box::new(binary_view(*r))),
        BinaryExpression::And(l, r) => BinaryView::And(Box::new(binary_view(*l)), Box::new(binary_view(*r))),
    }
}

impl View for BinaryExpression {
    type V = BinaryView;

    open spec fn view(&self) -> BinaryView {
        binary_view(*self)
    }
}

/// A literal as a binary condition.
pub open spec fn literal_binary(l: TestLiteral) -> BinaryView {
    if l.negated {
        BinaryView::Not(Box::new(BinaryView::TestCall(l.call)))
    } else {
        BinaryView::TestCall(l.call)
    }
}

/// A disjunction of literals as a binary condition, nested to the right.
pub open spec fn or_binary(ls: Seq<TestLiteral>) -> BinaryView
    decreases ls.len(),
{
    if ls.len() <= 1 {
        literal_binary(ls[0])
    } else {
        BinaryView::Or(Box::new(literal_binary(ls[0])), Box::new(or_binary(ls.drop_first())))
    }
}

/// A clause of a conjunction as a binary condition.
pub open spec fn and_clause_binary(c: AndClauseView) -> BinaryView {
    match c {
        AndClauseView::Literal(l) => literal_binary(l),
        AndClauseView::Or(ls) => or_binary(ls),
    }
}

/// A conjunction of clauses as a binary condition, nested to the right.
pub open spec fn and_binary(cs: Seq<AndClauseView>) -> BinaryView
    decreases cs.len(),
{
    if cs.len() <= 1 {
        and_clause_binary(cs[0])
    } else {
        BinaryView::And(Box::new(and_clause_binary(cs[0])), Box::new(and_binary(cs.drop_first())))
    }
}

/// Why a condition cannot be put in the form the bytecode holds.
pub enum ConditionError {
    TwoLiterals,
    StringLiteral,
    UnknownIdentifier(Seq<char>),
}

/// The error an `ASTGenerationError` stands for.
pub open spec fn is_condition_error(e: ASTGenerationError, v: ConditionError) -> bool {
    match v {
        ConditionError::TwoLiterals => e is BooleanOperationCannotHaveTwoLiteralOperands,
        ConditionError::StringLiteral => e is StringLiteralInBooleanOperation,
        ConditionError::UnknownIdentifier(n) => e matches ASTGenerationError::UnknownIdentifier(m) && m@ == n,
    }
}

/// What an operand resolves to: literals stay; a name is looked up.
pub open spec fn resolved_argument(a: ArgumentMeaning, ids: Map<Seq<char>, IdentifierMappingView>) -> Result<
    ResolvedOperandView,
    ConditionError,
> {
    match a {
        ArgumentMeaning::Number(n) => Ok(ResolvedOperandView::Number(n)),
        ArgumentMeaning::Text(t) => Ok(ResolvedOperandView::Text(t)),
        ArgumentMeaning::Name(n) => if ids.contains_key(n) {
            Ok(resolved_mapping(ids[n]))
        } else {
            Err(ConditionError::UnknownIdentifier(n))
        },
    }
}

/// A test of two arguments.
pub open spec fn comparison_call(name: Seq<char>, left: ArgumentMeaning, right: ArgumentMeaning) -> TestCallView {
    TestCallView { name, args: seq![left, right] }
}

/// A comparison as tests: against a number the `..n` tests, against a
/// variable the `..v` ones; `!=` is a negated `equal..`, `<=` is `less..` or
/// `equal..`, and `>=` is `greater..` or `equal..`. A literal on the left
/// trades places with a variable on the right, the operator flipped; two
/// literals, or a text, are errors.
pub open spec fn operation_clause(
    operator: LogicBooleanBinaryOperator,
    left: ResolvedOperandView,
    right: ResolvedOperandView,
) -> Result<AndClauseView, ConditionError>
    decreases (if left is Variable {
        0int
    } else {
        1int
    }),
{
    match left {
        ResolvedOperandView::Variable { name: left_name, .. } => match right {
            ResolvedOperandView::Text(_) => Err(ConditionError::StringLiteral),
            _ => {
                let numeric = right is Number;
                let suffix: Seq<char> = if numeric {
                    "n"@
                } else {
                    "v"@
                };
                let r = match right {
                    ResolvedOperandView::Number(n) => ArgumentMeaning::Number(n),
                    ResolvedOperandView::Variable { name, .. } => ArgumentMeaning::Name(name),
                    ResolvedOperandView::Text(t) => ArgumentMeaning::Text(t),
                };
                let l = ArgumentMeaning::Name(left_name);
                let equal = comparison_call("equal"@ + suffix, l, r);
                let less = comparison_call("less"@ + suffix, l, r);
                let greater = comparison_call("greater"@ + suffix, l, r);
                Ok(
                    match operator {
                        LogicBooleanBinaryOperator::Equal => AndClauseView::Literal(
                            TestLiteral { negated: false, call: equal },
                        ),
                        LogicBooleanBinaryOperator::NotEqual => AndClauseView::Literal(
                            TestLiteral { negated: true, call: equal },
                        ),
                        LogicBooleanBinaryOperator::LessThan => AndClauseView::Literal(
                            TestLiteral { negated: false, call: less },
                        ),
                        LogicBooleanBinaryOperator::GreaterThan => AndClauseView::Literal(
                            TestLiteral { negated: false, call: greater },
                        ),
                        LogicBooleanBinaryOperator::LessThanOrEqual => AndClauseView::Or(
                            seq![
                                TestLiteral { negated: false, call: less },
                                TestLiteral { negated: false, call: equal },
                            ],
                        ),
                        LogicBooleanBinaryOperator::GreaterThanOrEqual => AndClauseView::Or(
                            seq![
                                TestLiteral { negated: false, call: greater },
                                TestLiteral { negated: false, call: equal },
                            ],
                        ),
                    },
                )
            },
        },
        _ => if right is Variable {
            operation_clause(flipped(operator), right, left)
        } else {
            Err(ConditionError::TwoLiterals)
        },
    }
}

/// The value of a test's argument, names valued by `env`.
pub open spec fn argument_value(a: ArgumentMeaning, env: spec_fn(Seq<char>) -> int) -> int {
    match a {
        ArgumentMeaning::Number(n) => n,
        ArgumentMeaning::Name(x) => env(x),
        ArgumentMeaning::Text(_) => 0,
    }
}

/// The value of an operand of a comparison, names valued by `env`.
pub open spec fn operand_value(o: ResolvedOperandView, env: spec_fn(Seq<char>) -> int) -> int {
    match o {
        ResolvedOperandView::Number(n) => n,
        ResolvedOperandView::Variable { name, .. } => env(name),
        ResolvedOperandView::Text(_) => 0,
    }
}

/// What the interpreter's comparison tests say of their two arguments:
/// `lessn`/`lessv` that the first is smaller, `greatern`/`greaterv` that it
/// is larger, `equaln`/`equalv` that they are the same.
pub open spec fn comparison_holds(t: TestCallView, env: spec_fn(Seq<char>) -> int) -> bool {
    let a = argument_value(t.args[0], env);
    let b = argument_value(t.args[1], env);
    if t.name == "lessn"@ || t.name == "lessv"@ {
        a < b
    } else if t.name == "greatern"@ || t.name == "greaterv"@ {
        a > b
    } else if t.name == "equaln"@ || t.name == "equalv"@ {
        a == b
    } else {
        false
    }
}

/// The tests that hold where the names have the values `env` gives them.
pub open spec fn holds_under(env: spec_fn(Seq<char>) -> int) -> spec_fn(TestCallView) -> bool {
    |t: TestCallView| comparison_holds(t, env)
}

/// A comparison compiles to tests that hold exactly when the comparison
/// does: whatever the values of the names, the compiled clause, its tests
/// read as `<`, `>` and `==`, is true exactly when `left operator right` is
/// (so `a >= b` holds iff `a > b` or `a == b` does).
pub proof fn lemma_compiled_comparison_means_operator(
    operator: LogicBooleanBinaryOperator,
    left: ResolvedOperandView,
    right: ResolvedOperandView,
    env: spec_fn(Seq<char>) -> int,
)
    ensures
        operation_clause(operator, left, right) matches Ok(c) ==> and_clause_holds(c, holds_under(env)) == compares(
            operator,
            operand_value(left, env),
            operand_value(right, env),
        ),
    decreases (if left is Variable {
        0int
    } else {
        1int
    }),
{
    reveal_strlit("n");
    reveal_strlit("v");
    reveal_strlit("less");
    reveal_strlit("greater");
    reveal_strlit("equal");
    reveal_strlit("lessn");
    reveal_strlit("lessv");
    reveal_strlit("greatern");
    reveal_strlit("greaterv");
    reveal_strlit("equaln");
    reveal_strlit("equalv");
    match left {
        ResolvedOperandView::Variable { .. } => {
            if !(right is Text) {
                assert(("less"@ + "n"@) =~= "lessn"@);
                assert(("less"@ + "v"@) =~= "lessv"@);
                assert(("greater"@ + "n"@) =~= "greatern"@);
                assert(("greater"@ + "v"@) =~= "greaterv"@);
                assert(("equal"@ + "n"@) =~= "equaln"@);
                assert(("equal"@ + "v"@) =~= "equalv"@);
                assert("equaln"@ != "lessn"@ && "equaln"@ != "lessv"@ && "equalv"@ != "lessn"@ && "equalv"@ != "lessv"@) by {
                    assert("equaln"@[0] != "lessn"@[0]);
                }
                assert("equaln"@ != "greatern"@ && "equaln"@ != "greaterv"@ && "equalv"@ != "greatern"@ && "equalv"@
                    != "greaterv"@) by {
                    assert("equaln"@[0] != "greatern"@[0]);
                }
                assert("greatern"@ != "lessn"@ && "greatern"@ != "lessv"@ && "greaterv"@ != "lessn"@ && "greaterv"@
                    != "lessv"@) by {
                    assert("greatern"@[0] != "lessn"@[0]);
                }
                let c = operation_clause(operator, left, right)->Ok_0;
                let h = holds_under(env);
                if let AndClauseView::Or(ls) = c {
                    if some_literal_holds(ls, h) {
                        let k = choose|k: int| 0 <= k < ls.len() && literal_holds(#[trigger] ls[k], h);
                        assert(k == 0 || k == 1);
                    }
                    if literal_holds(ls[0], h) {
                        assert(some_literal_holds(ls, h));
                    }
                    if literal_holds(ls[1], h) {
                        assert(some_literal_holds(ls, h));
                    }
                }
            }
        },
        _ => {
            if right is Variable {
                lemma_compiled_comparison_means_operator(flipped(operator), right, left, env);
                lemma_flip_law(operator, operand_value(left, env), operand_value(right, env));
            }
        },
    }
}

/// A comparison's disjunction has two tests.
proof fn lemma_operation_clause_pairs(
    operator: LogicBooleanBinaryOperator,
    left: ResolvedOperandView,
    right: ResolvedOperandView,
)
    ensures
        operation_clause(operator, left, right) matches Ok(AndClauseView::Or(ls)) ==> ls.len() == 2,
    decreases (if left is Variable {
        0int
    } else {
        1int
    }),
{
    if !(left is Variable) && right is Variable {
        lemma_operation_clause_pairs(flipped(operator), right, left);
    }
}

/// A condition of the assembly as a binary condition: calls stay, a name
/// alone is `isset` of it, comparisons become tests, and conjunctions and
/// disjunctions nest to the right. `None` where an empty conjunction or
/// disjunction is reached before any error.
pub open spec fn binary_of(e: AsmConditionView, ids: Map<Seq<char>, IdentifierMappingView>) -> Option<
    Result<BinaryView, ConditionError>,
>
    decreases e,
{
    match e {
        AsmConditionView::TestCall(name, args) => Some(Ok(BinaryView::TestCall(TestCallView { name, args }))),
        AsmConditionView::Identifier(n) => Some(
            Ok(BinaryView::TestCall(TestCallView { name: "isset"@, args: seq![ArgumentMeaning::Name(n)] })),
        ),
        AsmConditionView::Not(x) => match binary_of(*x, ids) {
            Some(Ok(b)) => Some(Ok(BinaryView::Not(Box::new(b)))),
            other => other,
        },
        AsmConditionView::Binary(l, op, r) => match resolved_argument(l, ids) {
            Err(err) => Some(Err(err)),
            Ok(lo) => match resolved_argument(r, ids) {
                Err(err) => Some(Err(err)),
                Ok(ro) => match operation_clause(op, lo, ro) {
                    Err(err) => Some(Err(err)),
                    Ok(c) => Some(Ok(and_clause_binary(c))),
                },
            },
        },
        AsmConditionView::And(es) => joined_binary(es, ids, true),
        AsmConditionView::Or(es) => joined_binary(es, ids, false),
    }
}

/// Conditions joined by `&&` (or `||`), nested to the right.
pub open spec fn joined_binary(es: Seq<AsmConditionView>, ids: Map<Seq<char>, IdentifierMappingView>, and: bool) -> Option<
    Result<BinaryView, ConditionError>,
>
    decreases es,
{
    if es.len() == 0 {
        None
    } else if es.len() == 1 {
        binary_of(es[0], ids)
    } else {
        match binary_of(es[0], ids) {
            Some(Ok(first)) => match joined_binary(es.subrange(1, es.len() as int), ids, and) {
                Some(Ok(rest)) => Some(
                    Ok(
                        if and {
                            BinaryView::And(Box::new(first), Box::new(rest))
                        } else {
                            BinaryView::Or(Box::new(first), Box::new(rest))
                        },
                    ),
                ),
                other => other,
            },
            other => other,
        }
    }
}

/// A condition that is a single test call or its negation, doubled negations
/// dropped.
pub open spec fn irreducible_clause(b: BinaryView) -> Option<TestLiteral>
    decreases b,
{
    match b {
        BinaryView::TestCall(c) => Some(TestLiteral { negated: false, call: c }),
        BinaryView::Not(x) => match *x {
            BinaryView::TestCall(c) => Some(TestLiteral { negated: true, call: c }),
            BinaryView::Not(y) => irreducible_clause(*y),
            _ => None,
        },
        _ => None,
    }
}

/// `(a && b) || c` and `c || (a && b)`, with `a`, `b` and `c` irreducible, as
/// `(a || c) && (b || c)`.
pub open spec fn distributed(b: BinaryView) -> Option<PrimitiveView> {
    match b {
        BinaryView::Or(l, r) => match *l {
            BinaryView::And(ll, lr) => match (irreducible_clause(*ll), irreducible_clause(*lr), irreducible_clause(*r)) {
                (Some(a1), Some(a2), Some(o)) => Some(
                    PrimitiveView::And(seq![AndClauseView::Or(seq![a1, o]), AndClauseView::Or(seq![a2, o])]),
                ),
                _ => None,
            },
            _ => match *r {
                BinaryView::And(rl, rr) => match (
                    irreducible_clause(*l),
                    irreducible_clause(*rl),
                    irreducible_clause(*rr),
                ) {
                    (Some(o), Some(a1), Some(a2)) => Some(
                        PrimitiveView::And(seq![AndClauseView::Or(seq![a1, o]), AndClauseView::Or(seq![a2, o])]),
                    ),
                    _ => None,
                },
                _ => None,
            },
        },
        _ => None,
    }
}

/// `(a || b) || c` and `c || (a || b)`, with `a`, `b` and `c` irreducible, as
/// `a || b || c`.
pub open spec fn concatenated_or(b: BinaryView) -> Option<PrimitiveView> {
    match b {
        BinaryView::Or(l, r) => match *l {
            BinaryView::Or(ll, lr) => match (irreducible_clause(*ll), irreducible_clause(*lr), irreducible_clause(*r)) {
                (Some(a1), Some(a2), Some(o)) => Some(PrimitiveView::Or(seq![a1, a2, o])),
                _ => None,
            },
            _ => match *r {
                BinaryView::Or(rl, rr) => match (
                    irreducible_clause(*l),
                    irreducible_clause(*rl),
                    irreducible_clause(*rr),
                ) {
                    (Some(o), Some(a1), Some(a2)) => Some(PrimitiveView::Or(seq![a1, a2, o])),
                    _ => None,
                },
                _ => None,
            },
        },
        _ => None,
    }
}

/// `(a && b) && c` and `c && (a && b)`, with `a`, `b` and `c` irreducible, as
/// `a && b && c`.
pub open spec fn concatenated_and(b: BinaryView) -> Option<PrimitiveView> {
    match b {
        BinaryView::And(l, r) => match *l {
            BinaryView::And(ll, lr) => match (irreducible_clause(*ll), irreducible_clause(*lr), irreducible_clause(*r)) {
                (Some(a1), Some(a2), Some(o)) => Some(
                    PrimitiveView::And(
                        seq![AndClauseView::Literal(a1), AndClauseView::Literal(a2), AndClauseView::Literal(o)],
                    ),
                ),
                _ => None,
            },
            _ => match *r {
                BinaryView::And(rl, rr) => match (
                    irreducible_clause(*l),
                    irreducible_clause(*rl),
                    irreducible_clause(*rr),
                ) {
                    (Some(o), Some(a1), Some(a2)) => Some(
                        PrimitiveView::And(
                            seq![AndClauseView::Literal(a1), AndClauseView::Literal(a2), AndClauseView::Literal(o)],
                        ),
                    ),
                    _ => None,
                },
                _ => None,
            },
        },
        _ => None,
    }
}

/// A measure that each step of putting a condition in primitive form lowers.
pub open spec fn binary_weight(b: BinaryView) -> nat
    decreases b,
{
    match b {
        BinaryView::TestCall(_) => 1,
        BinaryView::Not(x) => 3 * binary_weight(*x),
        BinaryView::Or(l, r) => binary_weight(*l) + binary_weight(*r) + 1,
        BinaryView::And(l, r) => binary_weight(*l) + binary_weight(*r) + 1,
    }
}

/// For each clause of a conjunction, the literals of a disjunction followed by
/// those of the clause, all as clauses of one conjunction.
pub open spec fn mixed_clauses(o: Seq<TestLiteral>, a: Seq<AndClauseView>) -> Seq<AndClauseView>
    decreases a.len(),
{
    if a.len() == 0 {
        Seq::empty()
    } else {
        mixed_clauses(o, a.drop_last()) + (o + spread_or(seq![a.last()])).map_values(
            |l: TestLiteral| AndClauseView::Literal(l),
        )
    }
}

/// A binary condition in primitive form, or `None` where the conversion
/// cannot go on. Irreducible conditions and the shapes above come first; a
/// disjunction of two irreducible sides is their disjunction, and a
/// conjunction of two irreducible sides their conjunction; otherwise both
/// sides are converted and joined as they come out. A negated conjunction
/// becomes the conjunction of the negations, and a negated disjunction the
/// disjunction of the negations.
pub open spec fn primitive_of(b: BinaryView) -> Option<PrimitiveView>
    decreases binary_weight(b),
{
    if irreducible_clause(b) is Some {
        Some(PrimitiveView::Literal(irreducible_clause(b)->0))
    } else if distributed(b) is Some {
        distributed(b)
    } else if concatenated_or(b) is Some {
        concatenated_or(b)
    } else if concatenated_and(b) is Some {
        concatenated_and(b)
    } else {
        match b {
            BinaryView::Or(l, r) => match (irreducible_clause(*l), irreducible_clause(*r)) {
                (Some(a1), Some(a2)) => Some(PrimitiveView::Or(seq![a1, a2])),
                _ => match (primitive_of(*l), primitive_of(*r)) {
                    (Some(PrimitiveView::Or(a1)), Some(PrimitiveView::Or(a2))) => Some(PrimitiveView::Or(a1 + a2)),
                    (Some(PrimitiveView::And(c1)), Some(PrimitiveView::And(c2))) => Some(PrimitiveView::And(c1 + c2)),
                    (Some(PrimitiveView::Or(o)), Some(PrimitiveView::And(c))) => Some(
                        PrimitiveView::And(mixed_clauses(o, c)),
                    ),
                    (Some(PrimitiveView::And(c)), Some(PrimitiveView::Or(o))) => Some(
                        PrimitiveView::And(mixed_clauses(o, c)),
                    ),
                    _ => None,
                },
            },
            BinaryView::And(l, r) => match (irreducible_clause(*l), irreducible_clause(*r)) {
                (Some(a1), Some(a2)) => Some(
                    PrimitiveView::And(seq![AndClauseView::Literal(a1), AndClauseView::Literal(a2)]),
                ),
                _ => match (primitive_of(*l), primitive_of(*r)) {
                    (Some(x), Some(y)) => Some(PrimitiveView::And(spread_and(seq![x, y]))),
                    _ => None,
                },
            },
            BinaryView::Not(x) => match *x {
                BinaryView::And(l, r) => {
                    let d = BinaryView::And(Box::new(BinaryView::Not(l)), Box::new(BinaryView::Not(r)));
                    proof {
                        assert(binary_weight(BinaryView::Not(l)) == 3 * binary_weight(*l));
                        assert(binary_weight(BinaryView::Not(r)) == 3 * binary_weight(*r));
                        assert(binary_weight(*x) == binary_weight(*l) + binary_weight(*r) + 1);
                        assert(binary_weight(b) == 3 * binary_weight(*x));
                        assert(binary_weight(d) < binary_weight(b));
                    }
                    primitive_of(d)
                },
                BinaryView::Or(l, r) => {
                    let d = BinaryView::Or(Box::new(BinaryView::Not(l)), Box::new(BinaryView::Not(r)));
                    proof {
                        assert(binary_weight(BinaryView::Not(l)) == 3 * binary_weight(*l));
                        assert(binary_weight(BinaryView::Not(r)) == 3 * binary_weight(*r));
                        assert(binary_weight(*x) == binary_weight(*l) + binary_weight(*r) + 1);
                        assert(binary_weight(b) == 3 * binary_weight(*x));
                        assert(binary_weight(d) < binary_weight(b));
                    }
                    primitive_of(d)
                },
                _ => None,
            },
            BinaryView::TestCall(_) => None,
        }
    }
}

pub open spec fn primitives_view(s: Seq<PrimitiveBooleanExpression>) -> Seq<PrimitiveView> {
    s.map_values(|e: PrimitiveBooleanExpression| e@)
}

/// What an optional primitive condition is.
pub open spec fn optional_primitive(r: Option<PrimitiveBooleanExpression>) -> Option<PrimitiveView> {
    match r {
        Some(p) => Some(p@),
        None => None,
    }
}

fn duplicate_arguments(args: &Vec<ParsedLogicArgument>) -> (r: Vec<ParsedLogicArgument>)
    ensures
        parsed_arguments_view(r@) == parsed_arguments_view(args@),
{
    let mut r: Vec<ParsedLogicArgument> = Vec::new();
    let mut i: usize = 0;
    while i < args.len()
        invariant
            0 <= i <= args@.len(),
            parsed_arguments_view(r@) == parsed_arguments_view(args@.take(i as int)),
        decreases args@.len() - i,
    {
        let a = args[i].duplicate();
        let ghost before = r@;
        r.push(a);
        proof {
            assert(parsed_arguments_view(r@) =~= parsed_arguments_view(before).push(a@));
            assert(parsed_arguments_view(args@.take(i + 1)) =~= parsed_arguments_view(args@.take(i as int)).push(
                args@[i as int]@,
            ));
        }
        i = i + 1;
    }
    proof {
        assert(args@.take(i as int) =~= args@);
    }
    r
}

fn duplicate_call(t: &LogicTestCall<ParsedLogicArgument>) -> (r: LogicTestCall<ParsedLogicArgument>)
    ensures
        test_call_view(r) == test_call_view(*t),
{
    LogicTestCall { test_name: t.test_name.clone(), argument_list: duplicate_arguments(&t.argument_list) }
}

impl PrimitiveOrClause {
    pub fn duplicate(&self) -> (r: PrimitiveOrClause)
        ensures
            r@ == self@,
    {
        match self {
            PrimitiveOrClause::TestCall(t) => PrimitiveOrClause::TestCall(duplicate_call(t)),
            PrimitiveOrClause::NotTestCall(t) => PrimitiveOrClause::NotTestCall(duplicate_call(t)),
        }
    }

    /// The literal as a clause of a conjunction.
    pub fn into_and_clause(self) -> (r: PrimitiveAndClause)
        ensures
            r@ == AndClauseView::Literal(self@),
    {
        match self {
            PrimitiveOrClause::TestCall(t) => PrimitiveAndClause::TestCall(t),
            PrimitiveOrClause::NotTestCall(t) => PrimitiveAndClause::NotTestCall(t),
        }
    }

    /// The literal as a condition of its own.
    pub fn into_primitive(self) -> (r: PrimitiveBooleanExpression)
        ensures
            r@ == PrimitiveView::Literal(self@),
    {
        match self {
            PrimitiveOrClause::TestCall(t) => PrimitiveBooleanExpression::TestCall(t),
            PrimitiveOrClause::NotTestCall(t) => PrimitiveBooleanExpression::NotTestCall(t),
        }
    }

    /// The literal as a binary condition.
    pub fn into_binary(self) -> (r: BinaryExpression)
        ensures
            r@ == literal_binary(self@),
    {
        match self {
            PrimitiveOrClause::TestCall(t) => {
                let r = BinaryExpression::TestCall(t);
                assert(r@ == BinaryView::TestCall(test_call_view(t)));

                r
            },
            PrimitiveOrClause::NotTestCall(t) => {
                let inner = BinaryExpression::TestCall(t);
                assert(inner@ == BinaryView::TestCall(test_call_view(t)));
                BinaryExpression::Not(Box::new(inner))
            },
        }
    }

    /// The literals of clauses, disjunctions spread out.
    pub fn concatenate_complex_or(clauses: &[PrimitiveAndClause]) -> (r: Vec<PrimitiveOrClause>)
        ensures
            or_clauses_view(r@) == spread_or(and_clauses_view(clauses@)),
    {
        let ghost cs = and_clauses_view(clauses@);
        let mut r: Vec<PrimitiveOrClause> = Vec::new();
        let mut i: usize = 0;
        while i < clauses.len()
            invariant
                cs == and_clauses_view(clauses@),
                0 <= i <= clauses@.len(),
                or_clauses_view(r@) == spread_or(cs.take(i as int)),
            decreases clauses@.len() - i,
        {
            proof {
                assert(cs.take(i + 1).drop_last() =~= cs.take(i as int));
                assert(cs.take(i + 1).last() == clauses@[i as int]@);
            }
            let ghost before = or_clauses_view(r@);
            match &clauses[i] {
                PrimitiveAndClause::TestCall(t) => {
                    r.push(PrimitiveOrClause::TestCall(duplicate_call(t)));
                    assert(or_clauses_view(r@) =~= before + seq![r@.last()@]);
                },
                PrimitiveAndClause::NotTestCall(t) => {
                    r.push(PrimitiveOrClause::NotTestCall(duplicate_call(t)));
                    assert(or_clauses_view(r@) =~= before + seq![r@.last()@]);
                },
                PrimitiveAndClause::Or(os) => {
                    let mut j: usize = 0;
                    while j < os.len()
                        invariant
                            0 <= j <= os@.len(),
                            or_clauses_view(r@) == before + or_clauses_view(os@.take(j as int)),
                        decreases os@.len() - j,
                    {
                        let ghost mid = r@;
                        r.push(os[j].duplicate());
                        proof {
                            assert(or_clauses_view(r@) =~= or_clauses_view(mid).push(os@[j as int]@));
                            assert(or_clauses_view(os@.take(j + 1)) =~= or_clauses_view(os@.take(j as int)).push(
                                os@[j as int]@,
                            ));
                        }
                        j = j + 1;
                    }
                    assert(os@.take(j as int) =~= os@);
                },
            }
            i = i + 1;
        }
        proof {
            assert(cs.take(i as int) =~= cs);
        }
        r
    }
}

impl PrimitiveAndClause {
    pub fn duplicate(&self) -> (r: PrimitiveAndClause)
        ensures
            r@ == self@,
    {
        match self {
            PrimitiveAndClause::TestCall(t) => PrimitiveAndClause::TestCall(duplicate_call(t)),
            PrimitiveAndClause::NotTestCall(t) => PrimitiveAndClause::NotTestCall(duplicate_call(t)),
            PrimitiveAndClause::Or(os) => PrimitiveAndClause::Or(duplicate_or_clauses(os)),
        }
    }

    /// The clause as a binary condition.
    pub fn into_binary(self) -> (r: BinaryExpression)
        requires
            self is Or ==> self->Or_0@.len() >= 1,
        ensures
            r@ == and_clause_binary(self@),
    {
        match self {
            PrimitiveAndClause::TestCall(t) => {
                let r = BinaryExpression::TestCall(t);
                assert(r@ == BinaryView::TestCall(test_call_view(t)));
                r
            },
            PrimitiveAndClause::NotTestCall(t) => {
                let inner = BinaryExpression::TestCall(t);
                assert(inner@ == BinaryView::TestCall(test_call_view(t)));
                BinaryExpression::Not(Box::new(inner))
            },
            PrimitiveAndClause::Or(os) => {
                let r = binary_of_or_clauses(&os, 0);
                proof {
                    assert(or_clauses_view(os@).skip(0) =~= or_clauses_view(os@));
                }
                r
            },
        }
    }

    /// The clauses of conditions, conjunctions spread out.
    pub fn concatenate_complex_and(clauses: &[PrimitiveBooleanExpression]) -> (r: Vec<PrimitiveAndClause>)
        ensures
            and_clauses_view(r@) == spread_and(primitives_view(clauses@)),
    {
        let ghost es = primitives_view(clauses@);
        let mut r: Vec<PrimitiveAndClause> = Vec::new();
        let mut i: usize = 0;
        while i < clauses.len()
            invariant
                es == primitives_view(clauses@),
                0 <= i <= clauses@.len(),
                and_clauses_view(r@) == spread_and(es.take(i as int)),
            decreases clauses@.len() - i,
        {
            proof {
                assert(es.take(i + 1).drop_last() =~= es.take(i as int));
                assert(es.take(i + 1).last() == clauses@[i as int]@);
            }
            let ghost before = and_clauses_view(r@);
            match &clauses[i] {
                PrimitiveBooleanExpression::TestCall(t) => {
                    r.push(PrimitiveAndClause::TestCall(duplicate_call(t)));
                    assert(and_clauses_view(r@) =~= before + seq![r@.last()@]);
                },
                PrimitiveBooleanExpression::NotTestCall(t) => {
                    r.push(PrimitiveAndClause::NotTestCall(duplicate_call(t)));
                    assert(and_clauses_view(r@) =~= before + seq![r@.last()@]);
                },
                PrimitiveBooleanExpression::Or(os) => {
                    r.push(PrimitiveAndClause::Or(duplicate_or_clauses(os)));
                    assert(and_clauses_view(r@) =~= before + seq![r@.last()@]);
                },
                PrimitiveBooleanExpression::And(cs) => {
                    let mut j: usize = 0;
                    while j < cs.len()
                        invariant
                            0 <= j <= cs@.len(),
                            and_clauses_view(r@) == before + and_clauses_view(cs@.take(j as int)),
                        decreases cs@.len() - j,
                    {
                        let ghost mid = r@;
                        r.push(cs[j].duplicate());
                        proof {
                            assert(and_clauses_view(r@) =~= and_clauses_view(mid).push(cs@[j as int]@));
                            assert(and_clauses_view(cs@.take(j + 1)) =~= and_clauses_view(cs@.take(j as int)).push(
                                cs@[j as int]@,
                            ));
                        }
                        j = j + 1;
                    }
                    assert(cs@.take(j as int) =~= cs@);
                },
            }
            i = i + 1;
        }
        proof {
            assert(es.take(i as int) =~= es);
        }
        r
    }
}

fn duplicate_or_clauses(os: &Vec<PrimitiveOrClause>) -> (r: Vec<PrimitiveOrClause>)
    ensures
        or_clauses_view(r@) == or_clauses_view(os@),
{
    let mut r: Vec<PrimitiveOrClause> = Vec::new();
    let mut j: usize = 0;
    while j < os.len()
        invariant
            0 <= j <= os@.len(),
            or_clauses_view(r@) == or_clauses_view(os@.take(j as int)),
        decreases os@.len() - j,
    {
        let ghost mid = r@;
        r.push(os[j].duplicate());
        proof {
            assert(or_clauses_view(r@) =~= or_clauses_view(mid).push(os@[j as int]@));
            assert(or_clauses_view(os@.take(j + 1)) =~= or_clauses_view(os@.take(j as int)).push(os@[j as int]@));
        }
        j = j + 1;
    }
    assert(os@.take(j as int) =~= os@);
    r
}

/// The literals from `start` on as a binary condition, nested to the right.
fn binary_of_or_clauses(os: &Vec<PrimitiveOrClause>, start: usize) -> (r: BinaryExpression)
    requires
        start < os@.len(),
    ensures
        r@ == or_binary(or_clauses_view(os@).skip(start as int)),
    decreases os@.len() - start,
{
    let first = os[start].duplicate().into_binary();
    if os.len() - start == 1 {
        first
    } else {
        let rest = binary_of_or_clauses(os, start + 1);
        proof {
            assert(or_clauses_view(os@).skip(start as int).drop_first() =~= or_clauses_view(os@).skip(start + 1));
        }
        BinaryExpression::Or(Box::new(first), Box::new(rest))
    }
}

/// Two literals as a vector.
fn pair_of<T>(a: T, b: T) -> (r: Vec<T>)
    ensures
        r@ == seq![a, b],
{
    let mut r: Vec<T> = Vec::new();
    r.push(a);
    r.push(b);
    assert(r@ =~= seq![a, b]);
    r
}

/// Three values as a vector.
fn triple_of<T>(a: T, b: T, c: T) -> (r: Vec<T>)
    ensures
        r@ == seq![a, b, c],
{
    let mut r: Vec<T> = Vec::new();
    r.push(a);
    r.push(b);
    r.push(c);
    assert(r@ =~= seq![a, b, c]);
    r
}

/// For each clause of a conjunction, the literals of the disjunction `o`
/// followed by those of the clause, all as clauses of one conjunction.
fn mixed(o: &Vec<PrimitiveOrClause>, a: &Vec<PrimitiveAndClause>) -> (r: Vec<PrimitiveAndClause>)
    ensures
        and_clauses_view(r@) == mixed_clauses(or_clauses_view(o@), and_clauses_view(a@)),
{
    let ghost ov = or_clauses_view(o@);
    let ghost av = and_clauses_view(a@);
    let mut r: Vec<PrimitiveAndClause> = Vec::new();
    let mut i: usize = 0;
    while i < a.len()
        invariant
            ov == or_clauses_view(o@),
            av == and_clauses_view(a@),
            0 <= i <= a@.len(),
            and_clauses_view(r@) == mixed_clauses(ov, av.take(i as int)),
        decreases a@.len() - i,
    {
        let ghost before = and_clauses_view(r@);
        let ghost c = av[i as int];
        let ghost lits = ov + spread_or(seq![c]);
        proof {
            assert(av.take(i + 1).drop_last() =~= av.take(i as int));
            assert(av.take(i + 1).last() == c);
            assert(seq![c].drop_last() =~= Seq::<AndClauseView>::empty());
            assert(spread_or(Seq::<AndClauseView>::empty()) =~= Seq::<TestLiteral>::empty());
            assert(spread_or(seq![c]) =~= match c {
                AndClauseView::Literal(l) => seq![l],
                AndClauseView::Or(ls) => ls,
            });
        }
        let mut j: usize = 0;
        while j < o.len()
            invariant
                ov == or_clauses_view(o@),
                0 <= j <= o@.len(),
                and_clauses_view(r@) == before + ov.take(j as int).map_values(|l: TestLiteral| AndClauseView::Literal(l)),
            decreases o@.len() - j,
        {
            let ghost mid = r@;
            r.push(o[j].duplicate().into_and_clause());
            proof {
                assert(and_clauses_view(r@) =~= and_clauses_view(mid).push(AndClauseView::Literal(ov[j as int])));
                assert(ov.take(j + 1).map_values(|l: TestLiteral| AndClauseView::Literal(l)) =~= ov.take(
                    j as int,
                ).map_values(|l: TestLiteral| AndClauseView::Literal(l)).push(AndClauseView::Literal(ov[j as int])));
            }
            j = j + 1;
        }
        proof {
            assert(ov.take(j as int) =~= ov);
        }
        let ghost after_o = and_clauses_view(r@);
        match &a[i] {
            PrimitiveAndClause::TestCall(t) => {
                r.push(PrimitiveAndClause::TestCall(duplicate_call(t)));
            },
            PrimitiveAndClause::NotTestCall(t) => {
                r.push(PrimitiveAndClause::NotTestCall(duplicate_call(t)));
            },
            PrimitiveAndClause::Or(os) => {
                let mut k: usize = 0;
                while k < os.len()
                    invariant
                        0 <= k <= os@.len(),
                        and_clauses_view(r@) == after_o + or_clauses_view(os@.take(k as int)).map_values(
                            |l: TestLiteral| AndClauseView::Literal(l),
                        ),
                    decreases os@.len() - k,
                {
                    let ghost mid = r@;
                    r.push(os[k].duplicate().into_and_clause());
                    proof {
                        assert(and_clauses_view(r@) =~= and_clauses_view(mid).push(AndClauseView::Literal(os@[k as int]@)));
                        assert(or_clauses_view(os@.take(k + 1)).map_values(|l: TestLiteral| AndClauseView::Literal(l))
                            =~= or_clauses_view(os@.take(k as int)).map_values(
                            |l: TestLiteral| AndClauseView::Literal(l),
                        ).push(AndClauseView::Literal(os@[k as int]@)));
                    }
                    k = k + 1;
                }
                proof {
                    assert(os@.take(k as int) =~= os@);
                }
            },
        }
        proof {
            let f = |l: TestLiteral| AndClauseView::Literal(l);
            assert(lits.map_values(f) =~= ov.map_values(f) + spread_or(seq![c]).map_values(f));
            assert(and_clauses_view(r@) =~= after_o + spread_or(seq![c]).map_values(f));
            assert(and_clauses_view(r@) =~= before + lits.map_values(f));
        }
        i = i + 1;
    }
    proof {
        assert(av.take(i as int) =~= av);
    }
    r
}

impl BinaryExpression {
    pub fn duplicate(&self) -> (r: BinaryExpression)
        ensures
            r@ == self@,
        decreases self,
    {
        match self {
            BinaryExpression::TestCall(t) => BinaryExpression::TestCall(duplicate_call(t)),
            BinaryExpression::Not(x) => BinaryExpression::Not(Box::new(x.duplicate())),
            BinaryExpression::Or(l, r) => BinaryExpression::Or(Box::new(l.duplicate()), Box::new(r.duplicate())),
            BinaryExpression::And(l, r) => BinaryExpression::And(Box::new(l.duplicate()), Box::new(r.duplicate())),
        }
    }

    /// The condition as a single test call or its negation, if it is one.
    pub fn try_to_irreducible_clause(&self) -> (r: Option<PrimitiveOrClause>)
        ensures
            match irreducible_clause(self@) {
                Some(l) => r matches Some(c) && c@ == l,
                None => r is None,
            },
        decreases self,
    {
        proof {
            reveal_with_fuel(binary_view, 3);
        }
        match self {
            BinaryExpression::TestCall(t) => Some(PrimitiveOrClause::TestCall(duplicate_call(t))),
            BinaryExpression::Not(x) => match &**x {
                BinaryExpression::TestCall(t) => Some(PrimitiveOrClause::NotTestCall(duplicate_call(t))),
                BinaryExpression::Not(y) => y.try_to_irreducible_clause(),
                _ => None,
            },
            _ => None,
        }
    }

    pub fn is_irreducible(&self) -> (r: bool)
        ensures
            r == irreducible_clause(self@) is Some,
    {
        self.try_to_irreducible_clause().is_some()
    }

    /// `(a && b) || c` or `c || (a && b)`, with `a`, `b` and `c` irreducible,
    /// as `(a || c) && (b || c)`.
    pub fn try_distribute_or_over_and(&self) -> (r: Option<PrimitiveBooleanExpression>)
        ensures
            optional_primitive(r) == distributed(self@),
    {
        proof {
            reveal_with_fuel(binary_view, 3);
        }
        let (other, a1, a2) = match self {
            BinaryExpression::Or(left, right) => match &**left {
                BinaryExpression::And(ll, lr) => match (
                    ll.try_to_irreducible_clause(),
                    lr.try_to_irreducible_clause(),
                    right.try_to_irreducible_clause(),
                ) {
                    (Some(a1), Some(a2), Some(o)) => (o, a1, a2),
                    _ => {
                        return None;
                    },
                },
                _ => match &**right {
                    BinaryExpression::And(rl, rr) => match (
                        left.try_to_irreducible_clause(),
                        rl.try_to_irreducible_clause(),
                        rr.try_to_irreducible_clause(),
                    ) {
                        (Some(o), Some(a1), Some(a2)) => (o, a1, a2),
                        _ => {
                            return None;
                        },
                    },
                    _ => {
                        return None;
                    },
                },
            },
            _ => {
                return None;
            },
        };
        let other2 = other.duplicate();
        let first = pair_of(a1, other);
        let second = pair_of(a2, other2);
        assert(or_clauses_view(first@) =~= seq![first@[0]@, first@[1]@]);
        assert(or_clauses_view(second@) =~= seq![second@[0]@, second@[1]@]);
        let r = PrimitiveBooleanExpression::And(pair_of(PrimitiveAndClause::Or(first), PrimitiveAndClause::Or(second)));
        proof {
            assert(and_clauses_view(r->And_0@) =~= distributed(self@)->0->And_0);
        }
        Some(r)
    }

    /// `(a || b) || c` or `c || (a || b)`, with `a`, `b` and `c` irreducible,
    /// as `a || b || c`.
    pub fn try_concatenate_or(&self) -> (r: Option<PrimitiveBooleanExpression>)
        ensures
            optional_primitive(r) == concatenated_or(self@),
    {
        proof {
            reveal_with_fuel(binary_view, 3);
        }
        let (other, a1, a2) = match self {
            BinaryExpression::Or(left, right) => match &**left {
                BinaryExpression::Or(ll, lr) => match (
                    ll.try_to_irreducible_clause(),
                    lr.try_to_irreducible_clause(),
                    right.try_to_irreducible_clause(),
                ) {
                    (Some(a1), Some(a2), Some(o)) => (o, a1, a2),
                    _ => {
                        return None;
                    },
                },
                _ => match &**right {
                    BinaryExpression::Or(rl, rr) => match (
                        left.try_to_irreducible_clause(),
                        rl.try_to_irreducible_clause(),
                        rr.try_to_irreducible_clause(),
                    ) {
                        (Some(o), Some(a1), Some(a2)) => (o, a1, a2),
                        _ => {
                            return None;
                        },
                    },
                    _ => {
                        return None;
                    },
                },
            },
            _ => {
                return None;
            },
        };
        let r = PrimitiveBooleanExpression::Or(triple_of(a1, a2, other));
        proof {
            assert(or_clauses_view(r->Or_0@) =~= concatenated_or(self@)->0->Or_0);
        }
        Some(r)
    }

    /// `(a && b) && c` or `c && (a && b)`, with `a`, `b` and `c` irreducible,
    /// as `a && b && c`.
    pub fn try_concatenate_and(&self) -> (r: Option<PrimitiveBooleanExpression>)
        ensures
            optional_primitive(r) == concatenated_and(self@),
    {
        proof {
            reveal_with_fuel(binary_view, 3);
        }
        let (other, a1, a2) = match self {
            BinaryExpression::And(left, right) => match &**left {
                BinaryExpression::And(ll, lr) => match (
                    ll.try_to_irreducible_clause(),
                    lr.try_to_irreducible_clause(),
                    right.try_to_irreducible_clause(),
                ) {
                    (Some(a1), Some(a2), Some(o)) => (o, a1, a2),
                    _ => {
                        return None;
                    },
                },
                _ => match &**right {
                    BinaryExpression::And(rl, rr) => match (
                        left.try_to_irreducible_clause(),
                        rl.try_to_irreducible_clause(),
                        rr.try_to_irreducible_clause(),
                    ) {
                        (Some(o), Some(a1), Some(a2)) => (o, a1, a2),
                        _ => {
                            return None;
                        },
                    },
                    _ => {
                        return None;
                    },
                },
            },
            _ => {
                return None;
            },
        };
        let r = PrimitiveBooleanExpression::And(
            triple_of(a1.into_and_clause(), a2.into_and_clause(), other.into_and_clause()),
        );
        proof {
            assert(and_clauses_view(r->And_0@) =~= concatenated_and(self@)->0->And_0);
        }
        Some(r)
    }
}

/// Appends copies of the literals of `b` to `a`.
fn append_or_clauses(a: &mut Vec<PrimitiveOrClause>, b: &Vec<PrimitiveOrClause>)
    ensures
        or_clauses_view(final(a)@) == or_clauses_view(old(a)@) + or_clauses_view(b@),
{
    let ghost start = or_clauses_view(a@);
    let mut j: usize = 0;
    while j < b.len()
        invariant
            0 <= j <= b@.len(),
            or_clauses_view(a@) == start + or_clauses_view(b@.take(j as int)),
        decreases b@.len() - j,
    {
        let ghost mid = a@;
        a.push(b[j].duplicate());
        proof {
            assert(or_clauses_view(a@) =~= or_clauses_view(mid).push(b@[j as int]@));
            assert(or_clauses_view(b@.take(j + 1)) =~= or_clauses_view(b@.take(j as int)).push(b@[j as int]@));
        }
        j = j + 1;
    }
    assert(b@.take(j as int) =~= b@);
}

/// Appends copies of the clauses of `b` to `a`.
fn append_and_clauses(a: &mut Vec<PrimitiveAndClause>, b: &Vec<PrimitiveAndClause>)
    ensures
        and_clauses_view(final(a)@) == and_clauses_view(old(a)@) + and_clauses_view(b@),
{
    let ghost start = and_clauses_view(a@);
    let mut j: usize = 0;
    while j < b.len()
        invariant
            0 <= j <= b@.len(),
            and_clauses_view(a@) == start + and_clauses_view(b@.take(j as int)),
        decreases b@.len() - j,
    {
        let ghost mid = a@;
        a.push(b[j].duplicate());
        proof {
            assert(and_clauses_view(a@) =~= and_clauses_view(mid).push(b@[j as int]@));
            assert(and_clauses_view(b@.take(j + 1)) =~= and_clauses_view(b@.take(j as int)).push(b@[j as int]@));
        }
        j = j + 1;
    }
    assert(b@.take(j as int) =~= b@);
}

impl BinaryExpression {
    /// The condition in the form the bytecode holds; see `primitive_of` for
    /// how each shape is treated.
    pub fn to_primitive_boolean_expression(&self) -> (r: PrimitiveBooleanExpression)
        requires
            primitive_of(self@) is Some,
        ensures
            Some(r@) == primitive_of(self@),
        decreases binary_weight(self@),
    {
        proof {
            reveal_with_fuel(binary_view, 3);
        }
        if let Some(c) = self.try_to_irreducible_clause() {
            return c.into_primitive();
        }
        if let Some(d) = self.try_distribute_or_over_and() {
            return d;
        }
        if let Some(d) = self.try_concatenate_or() {
            return d;
        }
        if let Some(d) = self.try_concatenate_and() {
            return d;
        }
        match self {
            BinaryExpression::Or(left, right) => {
                let il = left.try_to_irreducible_clause();
                let ir = right.try_to_irreducible_clause();
                if let (Some(a1), Some(a2)) = (il, ir) {
                    let r = PrimitiveBooleanExpression::Or(pair_of(a1, a2));
                    assert(or_clauses_view(r->Or_0@) =~= primitive_of(self@)->0->Or_0);
                    return r;
                }
                let simplified_left = left.to_primitive_boolean_expression();
                let simplified_right = right.to_primitive_boolean_expression();
                match (simplified_left, simplified_right) {
                    (PrimitiveBooleanExpression::Or(mut a1), PrimitiveBooleanExpression::Or(a2)) => {
                        append_or_clauses(&mut a1, &a2);
                        PrimitiveBooleanExpression::Or(a1)
                    },
                    (PrimitiveBooleanExpression::And(mut c1), PrimitiveBooleanExpression::And(c2)) => {
                        append_and_clauses(&mut c1, &c2);
                        PrimitiveBooleanExpression::And(c1)
                    },
                    (PrimitiveBooleanExpression::Or(o), PrimitiveBooleanExpression::And(c)) => {
                        PrimitiveBooleanExpression::And(mixed(&o, &c))
                    },
                    (PrimitiveBooleanExpression::And(c), PrimitiveBooleanExpression::Or(o)) => {
                        PrimitiveBooleanExpression::And(mixed(&o, &c))
                    },
                    _ => vstd::pervasive::unreached(),
                }
            },
            BinaryExpression::And(left, right) => {
                let il = left.try_to_irreducible_clause();
                let ir = right.try_to_irreducible_clause();
                if let (Some(a1), Some(a2)) = (il, ir) {
                    let r = PrimitiveBooleanExpression::And(pair_of(a1.into_and_clause(), a2.into_and_clause()));
                    assert(and_clauses_view(r->And_0@) =~= primitive_of(self@)->0->And_0);
                    return r;
                }
                let simplified_left = left.to_primitive_boolean_expression();
                let simplified_right = right.to_primitive_boolean_expression();
                let both = pair_of(simplified_left, simplified_right);
                assert(primitives_view(both@) =~= seq![both@[0]@, both@[1]@]);
                PrimitiveBooleanExpression::And(PrimitiveAndClause::concatenate_complex_and(both.as_slice()))
            },
            BinaryExpression::Not(x) => match &**x {
                BinaryExpression::And(l, r) => {
                    let distributed = BinaryExpression::And(
                        Box::new(BinaryExpression::Not(Box::new(l.duplicate()))),
                        Box::new(BinaryExpression::Not(Box::new(r.duplicate()))),
                    );
                    proof {
                        assert(distributed@ == BinaryView::And(
                            Box::new(BinaryView::Not(Box::new(l@))),
                            Box::new(BinaryView::Not(Box::new(r@))),
                        ));
                        assert(binary_weight(BinaryView::Not(Box::new(l@))) == 3 * binary_weight(l@));
                        assert(binary_weight(BinaryView::Not(Box::new(r@))) == 3 * binary_weight(r@));
                        assert(binary_weight(x@) == binary_weight(l@) + binary_weight(r@) + 1);
                        assert(binary_weight(self@) == 3 * binary_weight(x@));
                    }
                    distributed.to_primitive_boolean_expression()
                },
                BinaryExpression::Or(l, r) => {
                    let distributed = BinaryExpression::Or(
                        Box::new(BinaryExpression::Not(Box::new(l.duplicate()))),
                        Box::new(BinaryExpression::Not(Box::new(r.duplicate()))),
                    );
                    proof {
                        assert(distributed@ == BinaryView::Or(
                            Box::new(BinaryView::Not(Box::new(l@))),
                            Box::new(BinaryView::Not(Box::new(r@))),
                        ));
                        assert(binary_weight(BinaryView::Not(Box::new(l@))) == 3 * binary_weight(l@));
                        assert(binary_weight(BinaryView::Not(Box::new(r@))) == 3 * binary_weight(r@));
                        assert(binary_weight(x@) == binary_weight(l@) + binary_weight(r@) + 1);
                        assert(binary_weight(self@) == 3 * binary_weight(x@));
                    }
                    distributed.to_primitive_boolean_expression()
                },
                _ => vstd::pervasive::unreached(),
            },
            BinaryExpression::TestCall(_) => vstd::pervasive::unreached(),
        }
    }
}

/// A call of the test `name` on two arguments.
fn comparison_test(name: String, left: &ParsedLogicArgument, right: &ParsedLogicArgument) -> (r: LogicTestCall<
    ParsedLogicArgument,
>)
    ensures
        test_call_view(r) == comparison_call(name@, left@, right@),
{
    let args = pair_of(left.duplicate(), right.duplicate());
    assert(parsed_arguments_view(args@) =~= seq![left@, right@]);
    LogicTestCall { test_name: name, argument_list: args }
}

/// The name of a comparison test: `base` followed by `n` against a number or
/// `v` against a variable.
fn comparison_name(base: &str, numeric: bool) -> (r: String)
    ensures
        r@ == base@ + if numeric {
            "n"@
        } else {
            "v"@
        },
{
    let mut name = String::from_str(base);
    if numeric {
        name.append("n");
    } else {
        name.append("v");
    }
    name
}

impl PrimitiveAndClause {
    /// A comparison of two resolved operands as a clause of tests; see
    /// `operation_clause`.
    pub fn try_from_boolean_operation(
        operator: LogicBooleanBinaryOperator,
        left: &ResolvedBinaryOperand,
        right: &ResolvedBinaryOperand,
    ) -> (r: Result<PrimitiveAndClause, ASTGenerationError>)
        ensures
            match operation_clause(operator, left@, right@) {
                Ok(c) => r matches Ok(x) && x@ == c,
                Err(e) => r matches Err(x) && is_condition_error(x, e),
            },
            r matches Ok(x) ==> forall|env: spec_fn(Seq<char>) -> int| #[trigger] and_clause_holds(x@, holds_under(env))
                == compares(operator, operand_value(left@, env), operand_value(right@, env)),
        decreases (if left@ is Variable {
            0int
        } else {
            1int
        }),
    {
        proof {
            assert forall|env: spec_fn(Seq<char>) -> int| #![trigger holds_under(env)] operation_clause(operator, left@, right@) matches Ok(c)
                ==> and_clause_holds(c, holds_under(env)) == compares(
                operator,
                operand_value(left@, env),
                operand_value(right@, env),
            ) by {
                lemma_compiled_comparison_means_operator(operator, left@, right@, env);
            }
        }
        match left {
            ResolvedBinaryOperand::Literal(_) => match right {
                ResolvedBinaryOperand::Literal(_) => {
                    return Err(ASTGenerationError::BooleanOperationCannotHaveTwoLiteralOperands);
                },
                ResolvedBinaryOperand::VariableIdentifier { .. } => {
                    PrimitiveAndClause::try_from_boolean_operation(flip_binary_operator(operator), right, left)
                },
            },
            ResolvedBinaryOperand::VariableIdentifier { name, .. } => {
                let left_arg = ParsedLogicArgument::Identifier(LogicIdentifier { name: name.clone() });
                let (numeric, right_arg) = match right {
                    ResolvedBinaryOperand::Literal(literal) => match &literal.value {
                        LogicLiteralValue::String(_) => {
                            return Err(ASTGenerationError::StringLiteralInBooleanOperation);
                        },
                        LogicLiteralValue::Number(number) => (
                            true,
                            ParsedLogicArgument::Literal(
                                LogicLiteral { value: LogicLiteralValue::Number(LogicNumberLiteral { value: number.value }) },
                            ),
                        ),
                    },
                    ResolvedBinaryOperand::VariableIdentifier { name, .. } => (
                        false,
                        ParsedLogicArgument::Identifier(LogicIdentifier { name: name.clone() }),
                    ),
                };
                assert(numeric == right@ is Number);
                let equal = comparison_test(comparison_name("equal", numeric), &left_arg, &right_arg);
                let clause = match operator {
                    LogicBooleanBinaryOperator::Equal => PrimitiveAndClause::TestCall(equal),
                    LogicBooleanBinaryOperator::NotEqual => PrimitiveAndClause::NotTestCall(equal),
                    LogicBooleanBinaryOperator::LessThan => PrimitiveAndClause::TestCall(
                        comparison_test(comparison_name("less", numeric), &left_arg, &right_arg),
                    ),
                    LogicBooleanBinaryOperator::GreaterThan => PrimitiveAndClause::TestCall(
                        comparison_test(comparison_name("greater", numeric), &left_arg, &right_arg),
                    ),
                    LogicBooleanBinaryOperator::LessThanOrEqual => {
                        let both = pair_of(
                            PrimitiveOrClause::TestCall(
                                comparison_test(comparison_name("less", numeric), &left_arg, &right_arg),
                            ),
                            PrimitiveOrClause::TestCall(equal),
                        );
                        assert(or_clauses_view(both@) =~= seq![both@[0]@, both@[1]@]);
                        PrimitiveAndClause::Or(both)
                    },
                    LogicBooleanBinaryOperator::GreaterThanOrEqual => {
                        let both = pair_of(
                            PrimitiveOrClause::TestCall(
                                comparison_test(comparison_name("greater", numeric), &left_arg, &right_arg),
                            ),
                            PrimitiveOrClause::TestCall(equal),
                        );
                        assert(or_clauses_view(both@) =~= seq![both@[0]@, both@[1]@]);
                        PrimitiveAndClause::Or(both)
                    },
                };
                Ok(clause)
            },
        }
    }
}

impl BinaryExpression {
    /// A condition of the assembly as a binary condition; see `binary_of`.
    /// An unknown name, a comparison of two literals, or a comparison with a
    /// text is an error.
    pub fn try_from_logic_boolean_expression(
        expression: &LogicBooleanExpression<ParsedLogicArgument>,
        identifiers: &IdentifierMap,
    ) -> (r: Result<BinaryExpression, ASTGenerationError>)
        requires
            identifiers.wf(),
            binary_of(condition_expression_view(*expression), identifiers@) is Some,
        ensures
            match binary_of(condition_expression_view(*expression), identifiers@)->0 {
                Ok(b) => r matches Ok(x) && x@ == b,
                Err(e) => r matches Err(x) && is_condition_error(x, e),
            },
        decreases expression, 0int,
    {
        let ghost ids = identifiers@;
        match expression {
            LogicBooleanExpression::TestCall(test_call) => Ok(BinaryExpression::TestCall(duplicate_call(test_call))),
            LogicBooleanExpression::NotExpression(not_expression) => {
                let inner = match BinaryExpression::try_from_logic_boolean_expression(
                    &not_expression.expression,
                    identifiers,
                ) {
                    Ok(x) => x,
                    Err(e) => {
                        return Err(e);
                    },
                };
                Ok(BinaryExpression::Not(Box::new(inner)))
            },
            LogicBooleanExpression::Identifier(identifier) => {
                let isset = String::from_str("isset");
                let mut args: Vec<ParsedLogicArgument> = Vec::new();
                args.push(ParsedLogicArgument::Identifier(LogicIdentifier { name: identifier.name.clone() }));
                assert(parsed_arguments_view(args@) =~= seq![ArgumentMeaning::Name(identifier.name@)]);
                let r = BinaryExpression::TestCall(LogicTestCall { test_name: isset, argument_list: args });
                Ok(r)
            },
            LogicBooleanExpression::BinaryOperation(operation) => {
                let left = match ResolvedBinaryOperand::from_argument(&operation.left, identifiers) {
                    Ok(x) => x,
                    Err(e) => {
                        return Err(e);
                    },
                };
                let right = match ResolvedBinaryOperand::from_argument(&operation.right, identifiers) {
                    Ok(x) => x,
                    Err(e) => {
                        return Err(e);
                    },
                };
                let clause = match PrimitiveAndClause::try_from_boolean_operation(operation.operator, &left, &right) {
                    Ok(c) => c,
                    Err(e) => {
                        return Err(e);
                    },
                };
                proof {
                    lemma_operation_clause_pairs(operation.operator, left@, right@);
                }
                Ok(clause.into_binary())
            },
            LogicBooleanExpression::AndExpression(and_expression) => {
                proof {
                    lemma_condition_expressions_view(and_expression.clauses@);
                    assert(condition_expressions_view(and_expression.clauses@).skip(0) =~= condition_expressions_view(
                        and_expression.clauses@,
                    ));
                }
                joined_from(&and_expression.clauses, 0, true, identifiers)
            },
            LogicBooleanExpression::OrExpression(or_expression) => {
                proof {
                    lemma_condition_expressions_view(or_expression.clauses@);
                    assert(condition_expressions_view(or_expression.clauses@).skip(0) =~= condition_expressions_view(
                        or_expression.clauses@,
                    ));
                }
                joined_from(&or_expression.clauses, 0, false, identifiers)
            },
        }
    }
}

/// The conditions from `start` on joined by `&&` (or `||`), nested to the
/// right.
fn joined_from(
    clauses: &Vec<LogicBooleanExpression<ParsedLogicArgument>>,
    start: usize,
    and: bool,
    identifiers: &IdentifierMap,
) -> (r: Result<BinaryExpression, ASTGenerationError>)
    requires
        identifiers.wf(),
        start <= clauses@.len(),
        joined_binary(condition_expressions_view(clauses@).skip(start as int), identifiers@, and) is Some,
    ensures
        match joined_binary(condition_expressions_view(clauses@).skip(start as int), identifiers@, and)->0 {
            Ok(b) => r matches Ok(x) && x@ == b,
            Err(e) => r matches Err(x) && is_condition_error(x, e),
        },
    decreases clauses, clauses@.len() - start,
{
    let ghost es = condition_expressions_view(clauses@).skip(start as int);
    proof {
        lemma_condition_expressions_view(clauses@);
    }
    if start == clauses.len() {
        proof {
            assert(es.len() == 0);
        }
        return vstd::pervasive::unreached();
    }
    proof {
        assert(es[0] == condition_expression_view(clauses@[start as int]));
        assert(decreases_to!(clauses => clauses@[start as int]));
    }
    let first = match BinaryExpression::try_from_logic_boolean_expression(&clauses[start], identifiers) {
        Ok(x) => x,
        Err(e) => {
            return Err(e);
        },
    };
    if clauses.len() - start == 1 {
        return Ok(first);
    }
    proof {
        assert(es.subrange(1, es.len() as int) =~= condition_expressions_view(clauses@).skip(start + 1));
    }
    let rest = match joined_from(clauses, start + 1, and, identifiers) {
        Ok(x) => x,
        Err(e) => {
            return Err(e);
        },
    };
    if and {
        Ok(BinaryExpression::And(Box::new(first), Box::new(rest)))
    } else {
        Ok(BinaryExpression::Or(Box::new(first), Box::new(rest)))
    }
}

impl PrimitiveBooleanExpression {
    /// A condition of the assembly in the form the bytecode holds.
    pub fn try_from_logic_boolean_expression(
        expression: &LogicBooleanExpression<ParsedLogicArgument>,
        identifiers: &IdentifierMap,
    ) -> (r: Result<PrimitiveBooleanExpression, ASTGenerationError>)
        requires
            identifiers.wf(),
            binary_of(condition_expression_view(*expression), identifiers@) is Some,
            binary_of(condition_expression_view(*expression), identifiers@) matches Some(Ok(b)) ==> primitive_of(
                b,
            ) is Some,
        ensures
            match binary_of(condition_expression_view(*expression), identifiers@)->0 {
                Ok(b) => r matches Ok(x) && Some(x@) == primitive_of(b),
                Err(e) => r matches Err(x) && is_condition_error(x, e),
            },
    {
        let binary_expression = match BinaryExpression::try_from_logic_boolean_expression(expression, identifiers) {
            Ok(b) => b,
            Err(e) => {
                return Err(e);
            },
        };
        Ok(binary_expression.to_primitive_boolean_expression())
    }
}

// What conditions mean, given which test calls hold.

pub open spec fn literal_holds(l: TestLiteral, holds: spec_fn(TestCallView) -> bool) -> bool {
    holds(l.call) != l.negated
}

pub open spec fn some_literal_holds(ls: Seq<TestLiteral>, holds: spec_fn(TestCallView) -> bool) -> bool {
    exists|i: int| 0 <= i < ls.len() && literal_holds(#[trigger] ls[i], holds)
}

pub open spec fn and_clause_holds(c: AndClauseView, holds: spec_fn(TestCallView) -> bool) -> bool {
    match c {
        AndClauseView::Literal(l) => literal_holds(l, holds),
        AndClauseView::Or(ls) => some_literal_holds(ls, holds),
    }
}

pub open spec fn all_clauses_hold(cs: Seq<AndClauseView>, holds: spec_fn(TestCallView) -> bool) -> bool {
    forall|i: int| 0 <= i < cs.len() ==> and_clause_holds(#[trigger] cs[i], holds)
}

pub open spec fn primitive_holds(p: PrimitiveView, holds: spec_fn(TestCallView) -> bool) -> bool {
    match p {
        PrimitiveView::Literal(l) => literal_holds(l, holds),
        PrimitiveView::Or(ls) => some_literal_holds(ls, holds),
        PrimitiveView::And(cs) => all_clauses_hold(cs, holds),
    }
}

pub open spec fn binary_holds(b: BinaryView, holds: spec_fn(TestCallView) -> bool) -> bool
    decreases b,
{
    match b {
        BinaryView::TestCall(c) => holds(c),
        BinaryView::Not(x) => !binary_holds(*x, holds),
        BinaryView::Or(l, r) => binary_holds(*l, holds) || binary_holds(*r, holds),
        BinaryView::And(l, r) => binary_holds(*l, holds) && binary_holds(*r, holds),
    }
}

/// The conditions whose primitive form comes only from the rewritings that
/// keep meaning: irreducible conditions, the distributing and concatenating
/// shapes, and disjunctions and conjunctions of such, where a disjunction's
/// sides come out as disjunctions. A disjunction whose sides come out as
/// conjunctions is joined into one conjunction, and a negated conjunction or
/// disjunction has the negation moved inward without swapping `&&` and `||`;
/// those are left out.
pub open spec fn meaning_kept(b: BinaryView) -> bool
    decreases binary_weight(b),
{
    if irreducible_clause(b) is Some || distributed(b) is Some || concatenated_or(b) is Some
        || concatenated_and(b) is Some {
        true
    } else {
        match b {
            BinaryView::Or(l, r) => (irreducible_clause(*l) is Some && irreducible_clause(*r) is Some) || (
            meaning_kept(*l) && meaning_kept(*r) && (primitive_of(*l) matches Some(PrimitiveView::Or(_))) && (
            primitive_of(*r) matches Some(PrimitiveView::Or(_)))),
            BinaryView::And(l, r) => (irreducible_clause(*l) is Some && irreducible_clause(*r) is Some) || (
            meaning_kept(*l) && meaning_kept(*r)),
            _ => false,
        }
    }
}

proof fn lemma_irreducible_holds(b: BinaryView, holds: spec_fn(TestCallView) -> bool)
    requires
        irreducible_clause(b) is Some,
    ensures
        literal_holds(irreducible_clause(b)->0, holds) == binary_holds(b, holds),
    decreases b,
{
    reveal_with_fuel(binary_holds, 3);
    match b {
        BinaryView::Not(x) => match *x {
            BinaryView::Not(y) => {
                lemma_irreducible_holds(*y, holds);
            },
            _ => {},
        },
        _ => {},
    }
}

proof fn lemma_pair_holds(a: TestLiteral, c: TestLiteral, holds: spec_fn(TestCallView) -> bool)
    ensures
        some_literal_holds(seq![a, c], holds) == (literal_holds(a, holds) || literal_holds(c, holds)),
{
    let s = seq![a, c];
    if literal_holds(a, holds) {
        assert(literal_holds(s[0], holds));
    }
    if literal_holds(c, holds) {
        assert(literal_holds(s[1], holds));
    }
}

proof fn lemma_triple_holds(a: TestLiteral, c: TestLiteral, d: TestLiteral, holds: spec_fn(TestCallView) -> bool)
    ensures
        some_literal_holds(seq![a, c, d], holds) == (literal_holds(a, holds) || literal_holds(c, holds)
            || literal_holds(d, holds)),
{
    let s = seq![a, c, d];
    if literal_holds(a, holds) {
        assert(literal_holds(s[0], holds));
    }
    if literal_holds(c, holds) {
        assert(literal_holds(s[1], holds));
    }
    if literal_holds(d, holds) {
        assert(literal_holds(s[2], holds));
    }
}

proof fn lemma_concat_some_holds(a: Seq<TestLiteral>, c: Seq<TestLiteral>, holds: spec_fn(TestCallView) -> bool)
    ensures
        some_literal_holds(a + c, holds) == (some_literal_holds(a, holds) || some_literal_holds(c, holds)),
{
    let s = a + c;
    if some_literal_holds(a, holds) {
        let i = choose|i: int| 0 <= i < a.len() && literal_holds(#[trigger] a[i], holds);
        assert(s[i] == a[i]);
    }
    if some_literal_holds(c, holds) {
        let i = choose|i: int| 0 <= i < c.len() && literal_holds(#[trigger] c[i], holds);
        assert(s[a.len() + i] == c[i]);
    }
    if some_literal_holds(s, holds) {
        let i = choose|i: int| 0 <= i < s.len() && literal_holds(#[trigger] s[i], holds);
        if i < a.len() {
            assert(s[i] == a[i]);
        } else {
            assert(s[i] == c[i - a.len()]);
        }
    }
}

proof fn lemma_concat_all_hold(a: Seq<AndClauseView>, c: Seq<AndClauseView>, holds: spec_fn(TestCallView) -> bool)
    ensures
        all_clauses_hold(a + c, holds) == (all_clauses_hold(a, holds) && all_clauses_hold(c, holds)),
{
    let s = a + c;
    if all_clauses_hold(a, holds) && all_clauses_hold(c, holds) {
        assert forall|i: int| 0 <= i < s.len() implies and_clause_holds(#[trigger] s[i], holds) by {
            if i < a.len() {
                assert(s[i] == a[i]);
            } else {
                assert(s[i] == c[i - a.len()]);
            }
        }
    }
    if all_clauses_hold(s, holds) {
        assert forall|i: int| 0 <= i < a.len() implies and_clause_holds(#[trigger] a[i], holds) by {
            assert(s[i] == a[i]);
        }
        assert forall|i: int| 0 <= i < c.len() implies and_clause_holds(#[trigger] c[i], holds) by {
            assert(s[a.len() + i] == c[i]);
        }
    }
}

/// The clauses a primitive condition adds to a conjunction hold just when it does.
proof fn lemma_spread_one_holds(p: PrimitiveView, holds: spec_fn(TestCallView) -> bool)
    ensures
        all_clauses_hold(spread_and(seq![p]), holds) == primitive_holds(p, holds),
{
    assert(seq![p].drop_last() =~= Seq::<PrimitiveView>::empty());
    assert(spread_and(Seq::<PrimitiveView>::empty()) =~= Seq::<AndClauseView>::empty());
    let cs = spread_and(seq![p]);
    match p {
        PrimitiveView::Literal(l) => {
            assert(cs =~= seq![AndClauseView::Literal(l)]);
            if !primitive_holds(p, holds) {
                assert(!and_clause_holds(cs[0], holds));
            }
        },
        PrimitiveView::Or(ls) => {
            assert(cs =~= seq![AndClauseView::Or(ls)]);
            if !primitive_holds(p, holds) {
                assert(!and_clause_holds(cs[0], holds));
            }
        },
        PrimitiveView::And(c) => {
            assert(cs =~= c);
        },
    }
}

/// Where the rewritings keep meaning, a condition's primitive form holds
/// just when the condition does, whichever test calls hold.
pub proof fn lemma_primitive_form_keeps_meaning(b: BinaryView, holds: spec_fn(TestCallView) -> bool)
    requires
        primitive_of(b) is Some,
        meaning_kept(b),
    ensures
        primitive_holds(primitive_of(b)->0, holds) == binary_holds(b, holds),
    decreases binary_weight(b),
{
    if irreducible_clause(b) is Some {
        lemma_irreducible_holds(b, holds);
    } else if distributed(b) is Some {
        lemma_distributed_holds(b, holds);
    } else if concatenated_or(b) is Some {
        lemma_concatenated_or_holds(b, holds);
    } else if concatenated_and(b) is Some {
        lemma_concatenated_and_holds(b, holds);
    } else {
        match b {
            BinaryView::Or(l, r) => {
                if irreducible_clause(*l) is Some && irreducible_clause(*r) is Some {
                    lemma_irreducible_holds(*l, holds);
                    lemma_irreducible_holds(*r, holds);
                    lemma_pair_holds(irreducible_clause(*l)->0, irreducible_clause(*r)->0, holds);
                } else {
                    lemma_primitive_form_keeps_meaning(*l, holds);
                    lemma_primitive_form_keeps_meaning(*r, holds);
                    lemma_concat_some_holds(primitive_of(*l)->0->Or_0, primitive_of(*r)->0->Or_0, holds);
                }
            },
            BinaryView::And(l, r) => {
                if irreducible_clause(*l) is Some && irreducible_clause(*r) is Some {
                    lemma_irreducible_holds(*l, holds);
                    lemma_irreducible_holds(*r, holds);
                    let cs = primitive_of(b)->0->And_0;
                    assert(cs.len() == 2);
                    if !primitive_holds(primitive_of(b)->0, holds) {
                        assert(!and_clause_holds(cs[0], holds) || !and_clause_holds(cs[1], holds));
                    }
                } else {
                    lemma_primitive_form_keeps_meaning(*l, holds);
                    lemma_primitive_form_keeps_meaning(*r, holds);
                    let x = primitive_of(*l)->0;
                    let y = primitive_of(*r)->0;
                    assert(seq![x, y].drop_last() =~= seq![x]);
                    lemma_spread_one_holds(x, holds);
                    lemma_spread_one_holds(y, holds);
                    assert(seq![y].drop_last() =~= Seq::<PrimitiveView>::empty());
                    assert(spread_and(Seq::<PrimitiveView>::empty()) =~= Seq::<AndClauseView>::empty());
                    assert(spread_and(seq![y]) =~= Seq::<AndClauseView>::empty() + match y {
                        PrimitiveView::Literal(l) => seq![AndClauseView::Literal(l)],
                        PrimitiveView::Or(ls) => seq![AndClauseView::Or(ls)],
                        PrimitiveView::And(cs) => cs,
                    });
                    lemma_concat_all_hold(spread_and(seq![x]), spread_and(seq![y]), holds);
                }
            },
            _ => {},
        }
    }
}

proof fn lemma_distributed_holds(b: BinaryView, holds: spec_fn(TestCallView) -> bool)
    requires
        distributed(b) is Some,
    ensures
        primitive_holds(distributed(b)->0, holds) == binary_holds(b, holds),
{
    reveal_with_fuel(binary_holds, 3);
    let p = distributed(b)->0;
    let cs = p->And_0;
    match b {
        BinaryView::Or(l, r) => {
            match *l {
                BinaryView::And(ll, lr) => {
                    lemma_irreducible_holds(*ll, holds);
                    lemma_irreducible_holds(*lr, holds);
                    lemma_irreducible_holds(*r, holds);
                    lemma_pair_holds(irreducible_clause(*ll)->0, irreducible_clause(*r)->0, holds);
                    lemma_pair_holds(irreducible_clause(*lr)->0, irreducible_clause(*r)->0, holds);
                },
                _ => match *r {
                    BinaryView::And(rl, rr) => {
                        lemma_irreducible_holds(*l, holds);
                        lemma_irreducible_holds(*rl, holds);
                        lemma_irreducible_holds(*rr, holds);
                        lemma_pair_holds(irreducible_clause(*rl)->0, irreducible_clause(*l)->0, holds);
                        lemma_pair_holds(irreducible_clause(*rr)->0, irreducible_clause(*l)->0, holds);
                    },
                    _ => {},
                },
            }
            assert(cs.len() == 2);
            if !primitive_holds(p, holds) {
                assert(!and_clause_holds(cs[0], holds) || !and_clause_holds(cs[1], holds));
            }
        },
        _ => {},
    }
}

proof fn lemma_concatenated_or_holds(b: BinaryView, holds: spec_fn(TestCallView) -> bool)
    requires
        concatenated_or(b) is Some,
    ensures
        primitive_holds(concatenated_or(b)->0, holds) == binary_holds(b, holds),
{
    reveal_with_fuel(binary_holds, 3);
    match b {
        BinaryView::Or(l, r) => match *l {
            BinaryView::Or(ll, lr) => {
                lemma_irreducible_holds(*ll, holds);
                lemma_irreducible_holds(*lr, holds);
                lemma_irreducible_holds(*r, holds);
                lemma_triple_holds(
                    irreducible_clause(*ll)->0,
                    irreducible_clause(*lr)->0,
                    irreducible_clause(*r)->0,
                    holds,
                );
            },
            _ => match *r {
                BinaryView::Or(rl, rr) => {
                    lemma_irreducible_holds(*l, holds);
                    lemma_irreducible_holds(*rl, holds);
                    lemma_irreducible_holds(*rr, holds);
                    lemma_triple_holds(
                        irreducible_clause(*rl)->0,
                        irreducible_clause(*rr)->0,
                        irreducible_clause(*l)->0,
                        holds,
                    );
                },
                _ => {},
            },
        },
        _ => {},
    }
}

proof fn lemma_concatenated_and_holds(b: BinaryView, holds: spec_fn(TestCallView) -> bool)
    requires
        concatenated_and(b) is Some,
    ensures
        primitive_holds(concatenated_and(b)->0, holds) == binary_holds(b, holds),
{
    reveal_with_fuel(binary_holds, 3);
    let p = concatenated_and(b)->0;
    let cs = p->And_0;
    match b {
        BinaryView::And(l, r) => {
            match *l {
                BinaryView::And(ll, lr) => {
                    lemma_irreducible_holds(*ll, holds);
                    lemma_irreducible_holds(*lr, holds);
                    lemma_irreducible_holds(*r, holds);
                },
                _ => match *r {
                    BinaryView::And(rl, rr) => {
                        lemma_irreducible_holds(*l, holds);
                        lemma_irreducible_holds(*rl, holds);
                        lemma_irreducible_holds(*rr, holds);
                    },
                    _ => {},
                },
            }
            assert(cs.len() == 3);
            if !primitive_holds(p, holds) {
                assert(!and_clause_holds(cs[0], holds) || !and_clause_holds(cs[1], holds) || !and_clause_holds(
                    cs[2],
                    holds,
                ));
            }
        },
        _ => {},
    }
}

} // verus!
