use vstd::prelude::*;
use vstd::string::StringExecFns;

use crate::formatting::prefixed_number;
use crate::logic::assembly::codegen::{AsmCodeGenerationContext, AsmCodeGenerationError};
use crate::logic::assembly::expressions::{numbered_name, same_meaning, ArgumentMeaning};
use crate::logic::assembly::literals::LogicNumberLiteral;
use crate::logic::assembly::operators::LogicBinaryOperator;
use crate::logic::commands::AGICommandArgType;
use crate::logic::logic_script::literals::{LogicScriptLiteral, LogicScriptLiteralValue};
use crate::logic::logic_script::locations::{copy_range, ScriptLocationRange};
use crate::logic::logic_script::compile::primitive_expressions::{argument_value, comparison_holds, TestCallView};
use crate::logic::logic_script::operators::LogicScriptBooleanBinaryOperator;
use crate::logic::{
    clauses_view, messages_view, tests_view, ClauseView, LogicConditionClause, LogicTest,
    LogicTestView,
};

verus! {

broadcast use vstd::std_specs::hash::group_hash_axioms;

#[derive(Debug)]
pub struct LogicScriptIdentifier {
    pub name: String,
    pub location: Option<ScriptLocationRange>,
}

impl Clone for LogicScriptIdentifier {
    fn clone(&self) -> (r: Self)
        ensures
            r.name@ == self.name@,
            r.location is None <==> self.location is None,
    {
        LogicScriptIdentifier {
            name: self.name.clone(),
            location: match &self.location {
                Some(l) => Some(copy_range(l)),
                None => None,
            },
        }
    }
}

#[derive(Debug)]
pub enum LogicScriptArgument {
    Literal(LogicScriptLiteral),
    Identifier(LogicScriptIdentifier),
}

impl View for LogicScriptArgument {
    type V = ArgumentMeaning;

    open spec fn view(&self) -> ArgumentMeaning {
        match self {
            LogicScriptArgument::Literal(l) => match l.value {
                LogicScriptLiteralValue::Number(n) => ArgumentMeaning::Number(n.value as int),
                LogicScriptLiteralValue::String(s) => ArgumentMeaning::Text(s.text()),
            },
            LogicScriptArgument::Identifier(i) => ArgumentMeaning::Name(i.name@),
        }
    }
}

/// What a bytecode argument of a script means: numbers stay numbers; a
/// message is its text where the logic has it; a word is its text, and a word
/// the list lacks has no meaning; anything else is named by a letter for its
/// type and its number.
pub open spec fn script_argument_meaning(
    value: u16,
    arg_type: AGICommandArgType,
    messages: Map<u8, Seq<char>>,
    words: Map<u16, Seq<char>>,
) -> Option<ArgumentMeaning> {
    let v = value as nat;
    match arg_type {
        AGICommandArgType::Number => Some(ArgumentMeaning::Number(v as int)),
        AGICommandArgType::Variable => Some(ArgumentMeaning::Name(numbered_name('v', v))),
        AGICommandArgType::Flag => Some(ArgumentMeaning::Name(numbered_name('f', v))),
        AGICommandArgType::Object => Some(ArgumentMeaning::Name(numbered_name('o', v))),
        AGICommandArgType::Item => Some(ArgumentMeaning::Name(numbered_name('i', v))),
        AGICommandArgType::String => Some(ArgumentMeaning::Name(numbered_name('s', v))),
        AGICommandArgType::CtrlCode => Some(ArgumentMeaning::Name(numbered_name('c', v))),
        AGICommandArgType::Message => if messages.contains_key(value as u8) {
            Some(ArgumentMeaning::Text(messages[value as u8]))
        } else {
            Some(ArgumentMeaning::Name(numbered_name('m', v)))
        },
        AGICommandArgType::Word => if words.contains_key(value) {
            Some(ArgumentMeaning::Text(words[value]))
        } else {
            None
        },
    }
}

/// A name argument made of a one-letter prefix and a number.
fn numbered_argument(prefix: &str, n: u16) -> (r: LogicScriptArgument)
    ensures
        r@ == ArgumentMeaning::Name(prefix@ + crate::formatting::decimal_digits(n as nat)),
        argument_unlocated(r),
{
    LogicScriptArgument::Identifier(LogicScriptIdentifier { name: prefixed_number(prefix, n as u32), location: None })
}

/// A string literal argument.
fn text_argument(text: String) -> (r: LogicScriptArgument)
    ensures
        r@ == ArgumentMeaning::Text(text@),
        argument_unlocated(r),
{
    LogicScriptArgument::Literal(LogicScriptLiteral { value: LogicScriptLiteralValue::from_string(text) })
}

impl LogicScriptArgument {
    /// A copy with the same meaning.
    pub fn duplicate(&self) -> (r: LogicScriptArgument)
        ensures
            r@ == self@,
            argument_unlocated(*self) ==> argument_unlocated(r),
    {
        match self {
            LogicScriptArgument::Literal(l) => match &l.value {
                LogicScriptLiteralValue::Number(n) => LogicScriptArgument::Literal(
                    LogicScriptLiteral { value: LogicScriptLiteralValue::Number(LogicNumberLiteral { value: n.value }) },
                ),
                LogicScriptLiteralValue::String(s) => text_argument(s.value()),
            },
            LogicScriptArgument::Identifier(i) => LogicScriptArgument::Identifier(i.clone()),
        }
    }

    /// The argument of a script for a bytecode argument; a word that the word
    /// list lacks is an error.
    pub fn new(value: u16, arg_type: AGICommandArgType, context: &AsmCodeGenerationContext) -> (r: Result<
        LogicScriptArgument,
        AsmCodeGenerationError,
    >)
        ensures
            match script_argument_meaning(
                value,
                arg_type,
                messages_view(context.logic.messages),
                context.word_list.words_view(),
            ) {
                Some(m) => r matches Ok(a) && a@ == m && argument_unlocated(a),
                None => r matches Err(AsmCodeGenerationError::UnknownWord(w)) && w == value,
            },
    {
        match arg_type {
            AGICommandArgType::Number => Ok(
                LogicScriptArgument::Literal(
                    LogicScriptLiteral { value: LogicScriptLiteralValue::Number(LogicNumberLiteral { value: value as i32 }) },
                ),
            ),
            AGICommandArgType::Variable => {
                proof {
                    reveal_strlit("v");
                    assert("v"@ =~= seq!['v']);
                }
                Ok(numbered_argument("v", value))
            },
            AGICommandArgType::Flag => {
                proof {
                    reveal_strlit("f");
                    assert("f"@ =~= seq!['f']);
                }
                Ok(numbered_argument("f", value))
            },
            AGICommandArgType::Object => {
                proof {
                    reveal_strlit("o");
                    assert("o"@ =~= seq!['o']);
                }
                Ok(numbered_argument("o", value))
            },
            AGICommandArgType::Item => {
                proof {
                    reveal_strlit("i");
                    assert("i"@ =~= seq!['i']);
                }
                Ok(numbered_argument("i", value))
            },
            AGICommandArgType::String => {
                proof {
                    reveal_strlit("s");
                    assert("s"@ =~= seq!['s']);
                }
                Ok(numbered_argument("s", value))
            },
            AGICommandArgType::CtrlCode => {
                proof {
                    reveal_strlit("c");
                    assert("c"@ =~= seq!['c']);
                }
                Ok(numbered_argument("c", value))
            },
            AGICommandArgType::Message => {
                let key: u8 = #[verifier::truncate] (value as u8);
                match context.logic.messages.get(&key) {
                    Some(msg) => {
                        assert(messages_view(context.logic.messages)[key] == msg@);
                        Ok(text_argument(msg.clone()))
                    },
                    None => {
                        proof {
                            reveal_strlit("m");
                            assert("m"@ =~= seq!['m']);
                        }
                        Ok(numbered_argument("m", value))
                    },
                }
            },
            AGICommandArgType::Word => {
                match context.word_list.words.get(&value) {
                    Some(entry) => {
                        assert(context.word_list.words_view()[value] == entry.canonical_word@);
                        Ok(text_argument(entry.canonical_word.clone()))
                    },
                    None => Err(AsmCodeGenerationError::UnknownWord(value)),
                }
            },
        }
    }

    /// Names equal, numbers equal, or texts equal.
    pub fn value_eq(&self, other: &LogicScriptArgument) -> (r: bool)
        ensures
            r == same_meaning(self@, other@),
    {
        match (self, other) {
            (LogicScriptArgument::Identifier(left), LogicScriptArgument::Identifier(right)) => left.name
                == right.name,
            (LogicScriptArgument::Literal(left), LogicScriptArgument::Literal(right)) => {
                match (&left.value, &right.value) {
                    (LogicScriptLiteralValue::Number(l), LogicScriptLiteralValue::Number(r)) => l.value == r.value,
                    (LogicScriptLiteralValue::String(l), LogicScriptLiteralValue::String(r)) => l.value()
                        == r.value(),
                    _ => false,
                }
            },
            _ => false,
        }
    }
}

#[derive(Debug)]
pub struct LogicScriptAndExpression {
    pub clauses: Vec<LogicScriptBooleanExpression>,
    pub location: Option<ScriptLocationRange>,
}

#[derive(Debug)]
pub struct LogicScriptOrExpression {
    pub clauses: Vec<LogicScriptBooleanExpression>,
    pub location: Option<ScriptLocationRange>,
}

#[derive(Debug)]
pub struct LogicScriptNotExpression {
    pub expression: Box<LogicScriptBooleanExpression>,
    pub location: Option<ScriptLocationRange>,
}

#[derive(Debug)]
pub struct LogicScriptBooleanBinaryOperation {
    pub left: LogicScriptArgument,
    pub operator: LogicScriptBooleanBinaryOperator,
    pub right: LogicScriptArgument,
    pub location: Option<ScriptLocationRange>,
}

/// Two comparisons say the same: the same operator on the same operands, or
/// on swapped operands where the operator commutes.
pub open spec fn comparisons_equivalent(
    l1: ArgumentMeaning,
    op1: LogicScriptBooleanBinaryOperator,
    r1: ArgumentMeaning,
    l2: ArgumentMeaning,
    op2: LogicScriptBooleanBinaryOperator,
    r2: ArgumentMeaning,
) -> bool {
    ||| (same_meaning(l1, l2) && same_meaning(r1, r2) && op1 == op2)
    ||| (op1.commutes() && same_meaning(l1, r2) && same_meaning(r1, l2) && op1 == op2)
}

impl LogicScriptBooleanBinaryOperation {
    pub fn logically_equivalent(&self, other: &LogicScriptBooleanBinaryOperation) -> (r: bool)
        ensures
            r == comparisons_equivalent(self.left@, self.operator, self.right@, other.left@, other.operator, other.right@),
    {
        if self.left.value_eq(&other.left) && self.right.value_eq(&other.right) && self.operator == other.operator {
            return true;
        }
        if self.operator.is_commutative() {
            self.left.value_eq(&other.right) && self.right.value_eq(&other.left) && self.operator == other.operator
        } else {
            false
        }
    }
}

#[derive(Debug)]
pub struct LogicScriptTestCall {
    pub test_name: String,
    pub argument_list: Vec<LogicScriptArgument>,
    pub location: Option<ScriptLocationRange>,
    pub test_name_location: Option<ScriptLocationRange>,
}

#[derive(Debug)]
pub enum LogicScriptBooleanExpression {
    BinaryOperation(LogicScriptBooleanBinaryOperation),
    AndExpression(LogicScriptAndExpression),
    OrExpression(LogicScriptOrExpression),
    NotExpression(LogicScriptNotExpression),
    TestCall(LogicScriptTestCall),
    Identifier(LogicScriptIdentifier),
}

/// What a condition of a script says.
pub enum BooleanExpressionView {
    Binary(ArgumentMeaning, LogicScriptBooleanBinaryOperator, ArgumentMeaning),
    And(Seq<BooleanExpressionView>),
    Or(Seq<BooleanExpressionView>),
    Not(Box<BooleanExpressionView>),
    TestCall(Seq<char>, Seq<ArgumentMeaning>),
    Identifier(Seq<char>),
}

pub open spec fn arguments_view(s: Seq<LogicScriptArgument>) -> Seq<ArgumentMeaning> {
    s.map_values(|a: LogicScriptArgument| a@)
}

pub open spec fn expression_view(e: LogicScriptBooleanExpression) -> BooleanExpressionView
    decreases e,
{
    match e {
        LogicScriptBooleanExpression::BinaryOperation(b) => BooleanExpressionView::Binary(
            b.left@,
            b.operator,
            b.right@,
        ),
        LogicScriptBooleanExpression::AndExpression(a) => BooleanExpressionView::And(expressions_view(a.clauses@)),
        LogicScriptBooleanExpression::OrExpression(o) => BooleanExpressionView::Or(expressions_view(o.clauses@)),
        LogicScriptBooleanExpression::NotExpression(n) => BooleanExpressionView::Not(
            Box::new(expression_view(*n.expression)),
        ),
        LogicScriptBooleanExpression::TestCall(t) => BooleanExpressionView::TestCall(
            t.test_name@,
            arguments_view(t.argument_list@),
        ),
        LogicScriptBooleanExpression::Identifier(i) => BooleanExpressionView::Identifier(i.name@),
    }
}

/// The argument carries no place in a script.
pub open spec fn argument_unlocated(a: LogicScriptArgument) -> bool {
    match a {
        LogicScriptArgument::Identifier(i) => i.location is None,
        LogicScriptArgument::Literal(_) => true,
    }
}

pub open spec fn arguments_unlocated(s: Seq<LogicScriptArgument>) -> bool {
    forall|i: int| 0 <= i < s.len() ==> argument_unlocated(#[trigger] s[i])
}

/// The expression, and every part of it, carries no place in a script.
pub open spec fn expression_unlocated(e: LogicScriptBooleanExpression) -> bool
    decreases e,
{
    match e {
        LogicScriptBooleanExpression::BinaryOperation(b) => b.location is None && argument_unlocated(b.left)
            && argument_unlocated(b.right),
        LogicScriptBooleanExpression::AndExpression(a) => a.location is None && expressions_unlocated(a.clauses@),
        LogicScriptBooleanExpression::OrExpression(o) => o.location is None && expressions_unlocated(o.clauses@),
        LogicScriptBooleanExpression::NotExpression(n) => n.location is None && expression_unlocated(*n.expression),
        LogicScriptBooleanExpression::TestCall(t) => t.location is None && t.test_name_location is None
            && arguments_unlocated(t.argument_list@),
        LogicScriptBooleanExpression::Identifier(i) => i.location is None,
    }
}

pub open spec fn expressions_unlocated(s: Seq<LogicScriptBooleanExpression>) -> bool
    decreases s,
{
    if s.len() == 0 {
        true
    } else {
        expression_unlocated(s[0]) && expressions_unlocated(s.subrange(1, s.len() as int))
    }
}

pub proof fn lemma_expressions_unlocated(s: Seq<LogicScriptBooleanExpression>)
    requires
        forall|i: int| 0 <= i < s.len() ==> expression_unlocated(#[trigger] s[i]),
    ensures
        expressions_unlocated(s),
    decreases s.len(),
{
    if s.len() > 0 {
        let tail = s.subrange(1, s.len() as int);
        assert forall|i: int| 0 <= i < tail.len() implies expression_unlocated(#[trigger] tail[i]) by {
            assert(tail[i] == s[i + 1]);
        }
        lemma_expressions_unlocated(tail);
    }
}

pub open spec fn expressions_view(s: Seq<LogicScriptBooleanExpression>) -> Seq<BooleanExpressionView>
    decreases s,
{
    if s.len() == 0 {
        Seq::empty()
    } else {
        seq![expression_view(s[0])] + expressions_view(s.subrange(1, s.len() as int))
    }
}

/// What a comparison of the script says of two numbers.
pub open spec fn script_compares(op: LogicScriptBooleanBinaryOperator, a: int, b: int) -> bool {
    match op {
        LogicScriptBooleanBinaryOperator::LessThan => a < b,
        LogicScriptBooleanBinaryOperator::LessThanOrEqual => a <= b,
        LogicScriptBooleanBinaryOperator::GreaterThan => a > b,
        LogicScriptBooleanBinaryOperator::GreaterThanOrEqual => a >= b,
        LogicScriptBooleanBinaryOperator::Equal => a == b,
        LogicScriptBooleanBinaryOperator::NotEqual => a != b,
    }
}

/// The arguments of a test, paired with the command's argument types as far as
/// both reach; the first word the list lacks is the error.
pub open spec fn script_arguments(
    values: Seq<u16>,
    types: Seq<AGICommandArgType>,
    messages: Map<u8, Seq<char>>,
    words: Map<u16, Seq<char>>,
) -> Result<Seq<ArgumentMeaning>, u16>
    decreases values.len(),
{
    if values.len() == 0 || types.len() == 0 {
        Ok(Seq::empty())
    } else {
        match script_argument_meaning(values[0], types[0], messages, words) {
            None => Err(values[0]),
            Some(a) => match script_arguments(values.drop_first(), types.drop_first(), messages, words) {
                Ok(rest) => Ok(seq![a] + rest),
                Err(e) => Err(e),
            },
        }
    }
}

/// A test that is not negated: comparisons for `lessn`/`lessv` and
/// `greatern`/`greaterv` with two arguments, a call otherwise.
pub open spec fn positive_test_view(name: Seq<char>, args: Seq<ArgumentMeaning>) -> BooleanExpressionView {
    if (name == "lessn"@ || name == "lessv"@) && args.len() == 2 {
        BooleanExpressionView::Binary(args[0], LogicScriptBooleanBinaryOperator::LessThan, args[1])
    } else if (name == "greatern"@ || name == "greaterv"@) && args.len() == 2 {
        BooleanExpressionView::Binary(args[0], LogicScriptBooleanBinaryOperator::GreaterThan, args[1])
    } else {
        BooleanExpressionView::TestCall(name, args)
    }
}

/// A test that is not negated and reads as a comparison (`lessn`, `lessv`,
/// `greatern`, `greaterv` with two arguments) reads as one that holds, with
/// the names valued by `env`, exactly when the interpreter's test does.
pub proof fn lemma_decompiled_comparison_means_test(name: Seq<char>, args: Seq<ArgumentMeaning>, env: spec_fn(Seq<char>) -> int)
    ensures
        positive_test_view(name, args) matches BooleanExpressionView::Binary(l, op, r) ==> script_compares(
            op,
            argument_value(l, env),
            argument_value(r, env),
        ) == comparison_holds(TestCallView { name, args }, env),
{
    reveal_strlit("lessn");
    reveal_strlit("lessv");
    reveal_strlit("greatern");
    reveal_strlit("greaterv");
    assert("greatern"@.len() == 8 && "greaterv"@.len() == 8 && "lessn"@.len() == 5 && "lessv"@.len() == 5);
}

/// A test: `equaln`/`equalv` with two arguments is a comparison whose operator
/// is `==` when the test is negated and `!=` when it is not; any other
/// negated test is the negation of the test without it.
pub open spec fn test_view(
    t: LogicTestView,
    messages: Map<u8, Seq<char>>,
    words: Map<u16, Seq<char>>,
) -> Result<BooleanExpressionView, u16> {
    match script_arguments(t.args, t.command.arg_types, messages, words) {
        Err(e) => Err(e),
        Ok(args) => {
            let name = t.command.name;
            if (name == "equaln"@ || name == "equalv"@) && args.len() == 2 {
                Ok(
                    BooleanExpressionView::Binary(
                        args[0],
                        if t.negate {
                            LogicScriptBooleanBinaryOperator::Equal
                        } else {
                            LogicScriptBooleanBinaryOperator::NotEqual
                        },
                        args[1],
                    ),
                )
            } else if t.negate {
                Ok(BooleanExpressionView::Not(Box::new(positive_test_view(name, args))))
            } else {
                Ok(positive_test_view(name, args))
            }
        },
    }
}

/// The tests of a disjunction, in order; the first error stops.
pub open spec fn tests_expressions(
    ts: Seq<LogicTestView>,
    messages: Map<u8, Seq<char>>,
    words: Map<u16, Seq<char>>,
) -> Result<Seq<BooleanExpressionView>, u16>
    decreases ts.len(),
{
    if ts.len() == 0 {
        Ok(Seq::empty())
    } else {
        match tests_expressions(ts.drop_last(), messages, words) {
            Err(e) => Err(e),
            Ok(front) => match test_view(ts.last(), messages, words) {
                Err(e) => Err(e),
                Ok(v) => Ok(front.push(v)),
            },
        }
    }
}

/// Whether two comparisons have matching operands, either way round when one
/// of them commutes.
pub open spec fn operands_match(a: BooleanExpressionView, b: BooleanExpressionView) -> bool {
    match (a, b) {
        (BooleanExpressionView::Binary(al, ao, ar), BooleanExpressionView::Binary(bl, bo, br)) => {
            ||| (same_meaning(al, bl) && same_meaning(ar, br))
            ||| ((ao.commutes() || bo.commutes()) && same_meaning(al, br) && same_meaning(ar, bl))
        },
        _ => false,
    }
}

/// Whether two expressions are comparisons with operators `x` and `y`.
pub open spec fn operators_are(
    a: BooleanExpressionView,
    x: LogicScriptBooleanBinaryOperator,
    b: BooleanExpressionView,
    y: LogicScriptBooleanBinaryOperator,
) -> bool {
    &&& (a matches BooleanExpressionView::Binary(_, ao, _) && ao == x)
    &&& (b matches BooleanExpressionView::Binary(_, bo, _) && bo == y)
}

/// A disjunction: two comparisons `<` and `==` become `<=`, and `>` and `==`
/// become `>=`, taking the first comparison's operands. As the conditions are
/// written, the `<` (or `>`) first needs no match of operands; `==` first does.
pub open spec fn or_view(
    ts: Seq<LogicTestView>,
    messages: Map<u8, Seq<char>>,
    words: Map<u16, Seq<char>>,
) -> Result<BooleanExpressionView, u16> {
    match tests_expressions(ts, messages, words) {
        Err(e) => Err(e),
        Ok(cs) => if cs.len() == 2 && cs[0] is Binary && cs[1] is Binary {
            let l = cs[0];
            let r = cs[1];
            if operators_are(l, LogicScriptBooleanBinaryOperator::LessThan, r, LogicScriptBooleanBinaryOperator::Equal)
                || (operators_are(l, LogicScriptBooleanBinaryOperator::Equal, r, LogicScriptBooleanBinaryOperator::LessThan)
                && operands_match(l, r)) {
                Ok(BooleanExpressionView::Binary(l->Binary_0, LogicScriptBooleanBinaryOperator::LessThanOrEqual, l->Binary_2))
            } else if operators_are(l, LogicScriptBooleanBinaryOperator::GreaterThan, r, LogicScriptBooleanBinaryOperator::Equal)
                || (operators_are(l, LogicScriptBooleanBinaryOperator::Equal, r, LogicScriptBooleanBinaryOperator::GreaterThan)
                && operands_match(l, r)) {
                Ok(BooleanExpressionView::Binary(l->Binary_0, LogicScriptBooleanBinaryOperator::GreaterThanOrEqual, l->Binary_2))
            } else {
                Ok(BooleanExpressionView::Or(cs))
            }
        } else {
            Ok(BooleanExpressionView::Or(cs))
        },
    }
}

pub open spec fn clause_view(
    c: ClauseView,
    messages: Map<u8, Seq<char>>,
    words: Map<u16, Seq<char>>,
) -> Result<BooleanExpressionView, u16> {
    match c {
        ClauseView::Test(t) => test_view(t, messages, words),
        ClauseView::Or(ts) => or_view(ts, messages, words),
    }
}

/// The clauses in order; the first error stops.
pub open spec fn clauses_expressions(
    cs: Seq<ClauseView>,
    messages: Map<u8, Seq<char>>,
    words: Map<u16, Seq<char>>,
) -> Result<Seq<BooleanExpressionView>, u16>
    decreases cs.len(),
{
    if cs.len() == 0 {
        Ok(Seq::empty())
    } else {
        match clauses_expressions(cs.drop_last(), messages, words) {
            Err(e) => Err(e),
            Ok(front) => match clause_view(cs.last(), messages, words) {
                Err(e) => Err(e),
                Ok(v) => Ok(front.push(v)),
            },
        }
    }
}

/// A condition: one clause stands alone; more make a conjunction.
pub open spec fn condition_view(
    cs: Seq<ClauseView>,
    messages: Map<u8, Seq<char>>,
    words: Map<u16, Seq<char>>,
) -> Result<BooleanExpressionView, u16> {
    if cs.len() > 1 {
        match clauses_expressions(cs, messages, words) {
            Err(e) => Err(e),
            Ok(es) => Ok(BooleanExpressionView::And(es)),
        }
    } else {
        clause_view(cs[0], messages, words)
    }
}

proof fn lemma_clauses_expressions_each(cs: Seq<ClauseView>, messages: Map<u8, Seq<char>>, words: Map<u16, Seq<char>>)
    ensures
        (forall|i: int| 0 <= i < cs.len() ==> #[trigger] clause_view(cs[i], messages, words) is Ok) ==> clauses_expressions(
            cs,
            messages,
            words,
        ) == Ok::<Seq<BooleanExpressionView>, u16>(
            Seq::new(cs.len(), |i: int| clause_view(cs[i], messages, words)->Ok_0),
        ),
        forall|i: int|
            0 <= i < cs.len() && #[trigger] clause_view(cs[i], messages, words) is Err && (forall|j: int|
                0 <= j < i ==> clause_view(cs[j], messages, words) is Ok) ==> clauses_expressions(cs, messages, words)
                == Err::<Seq<BooleanExpressionView>, u16>(clause_view(cs[i], messages, words)->Err_0),
    decreases cs.len(),
{
    if cs.len() > 0 {
        let front = cs.drop_last();
        lemma_clauses_expressions_each(front, messages, words);
        if forall|i: int| 0 <= i < cs.len() ==> #[trigger] clause_view(cs[i], messages, words) is Ok {
            assert forall|i: int| 0 <= i < front.len() implies #[trigger] clause_view(front[i], messages, words) is Ok by {
                assert(front[i] == cs[i]);
                assert(clause_view(cs[i], messages, words) is Ok);
            }
            assert(clause_view(cs[cs.len() - 1], messages, words) is Ok);
            assert(Seq::new(front.len(), |i: int| clause_view(front[i], messages, words)->Ok_0).push(
                clause_view(cs.last(), messages, words)->Ok_0,
            ) =~= Seq::new(cs.len(), |i: int| clause_view(cs[i], messages, words)->Ok_0));
        }
        assert forall|i: int|
            0 <= i < cs.len() && #[trigger] clause_view(cs[i], messages, words) is Err && (forall|j: int|
                0 <= j < i ==> clause_view(cs[j], messages, words) is Ok) implies clauses_expressions(cs, messages, words)
            == Err::<Seq<BooleanExpressionView>, u16>(clause_view(cs[i], messages, words)->Err_0) by {
            if i < cs.len() - 1 {
                assert(front[i] == cs[i]);
                assert forall|j: int| 0 <= j < i implies clause_view(front[j], messages, words) is Ok by {
                    assert(front[j] == cs[j]);
                }
            } else {
                assert forall|j: int| 0 <= j < front.len() implies #[trigger] clause_view(front[j], messages, words) is Ok by {
                    assert(front[j] == cs[j]);
                }
            }
        }
    } else {
        assert(Seq::new(cs.len(), |i: int| clause_view(cs[i], messages, words)->Ok_0) =~= Seq::<BooleanExpressionView>::empty());
    }
}

/// A condition of several clauses is the conjunction of what each clause
/// alone reads as, in order; where a clause fails, the first that fails
/// gives the error. `from_clauses` returns the condition `condition_view`
/// gives, so on a slice of one clause `c` it returns what
/// `condition_view(seq![c@])` gives: the conjunction holds each of those,
/// unlocated, and the error is that of the first clause that fails alone.
pub proof fn lemma_condition_is_conjunction(cs: Seq<ClauseView>, messages: Map<u8, Seq<char>>, words: Map<u16, Seq<char>>)
    requires
        cs.len() > 1,
    ensures
        (forall|i: int| 0 <= i < cs.len() ==> #[trigger] condition_view(seq![cs[i]], messages, words) is Ok)
            ==> condition_view(cs, messages, words) == Ok::<BooleanExpressionView, u16>(
            BooleanExpressionView::And(
                Seq::new(cs.len(), |i: int| condition_view(seq![cs[i]], messages, words)->Ok_0),
            ),
        ),
        forall|i: int|
            0 <= i < cs.len() && #[trigger] condition_view(seq![cs[i]], messages, words) is Err && (forall|j: int|
                0 <= j < i ==> condition_view(seq![cs[j]], messages, words) is Ok) ==> condition_view(cs, messages, words)
                == condition_view(seq![cs[i]], messages, words),
{
    lemma_clauses_expressions_each(cs, messages, words);
    assert forall|i: int| 0 <= i < cs.len() implies #[trigger] condition_view(seq![cs[i]], messages, words) == clause_view(
        cs[i],
        messages,
        words,
    ) by {
        assert(seq![cs[i]][0] == cs[i]);
    }
    if forall|i: int| 0 <= i < cs.len() ==> #[trigger] condition_view(seq![cs[i]], messages, words) is Ok {
        assert forall|i: int| 0 <= i < cs.len() implies #[trigger] clause_view(cs[i], messages, words) is Ok by {
            assert(condition_view(seq![cs[i]], messages, words) is Ok);
        }
        assert(Seq::new(cs.len(), |i: int| condition_view(seq![cs[i]], messages, words)->Ok_0) =~= Seq::new(
            cs.len(),
            |i: int| clause_view(cs[i], messages, words)->Ok_0,
        ));
    }
    assert forall|i: int|
        0 <= i < cs.len() && #[trigger] condition_view(seq![cs[i]], messages, words) is Err && (forall|j: int|
            0 <= j < i ==> condition_view(seq![cs[j]], messages, words) is Ok) implies condition_view(cs, messages, words)
        == condition_view(seq![cs[i]], messages, words) by {
        assert(clause_view(cs[i], messages, words) is Err);
        assert forall|j: int| 0 <= j < i implies clause_view(cs[j], messages, words) is Ok by {
            assert(condition_view(seq![cs[j]], messages, words) is Ok);
        }
    }
}

/// The views of a sequence of expressions, one by one.
pub proof fn lemma_expressions_view(s: Seq<LogicScriptBooleanExpression>)
    ensures
        expressions_view(s).len() == s.len(),
        forall|i: int| 0 <= i < s.len() ==> #[trigger] expressions_view(s)[i] == expression_view(s[i]),
    decreases s.len(),
{
    if s.len() > 0 {
        let tail = s.subrange(1, s.len() as int);
        lemma_expressions_view(tail);
        assert forall|i: int| 0 <= i < s.len() implies #[trigger] expressions_view(s)[i] == expression_view(
            s[i],
        ) by {
            if i > 0 {
                assert(tail[i - 1] == s[i]);
            }
        }
    }
}

/// Appending an expression appends its view.
pub proof fn lemma_expressions_view_push(s: Seq<LogicScriptBooleanExpression>, e: LogicScriptBooleanExpression)
    ensures
        expressions_view(s.push(e)) == expressions_view(s).push(expression_view(e)),
{
    lemma_expressions_view(s);
    lemma_expressions_view(s.push(e));
    assert(expressions_view(s.push(e)) =~= expressions_view(s).push(expression_view(e)));
}

/// Whether a name is the given one.
fn name_is(name: &String, expected: &str) -> (r: bool)
    ensures
        r == (name@ == expected@),
{
    *name == String::from_str(expected)
}

/// A result of arguments already read, then the rest.
pub open spec fn after_arguments(prefix: Seq<ArgumentMeaning>, rest: Result<Seq<ArgumentMeaning>, u16>) -> Result<
    Seq<ArgumentMeaning>,
    u16,
> {
    match rest {
        Ok(r) => Ok(prefix + r),
        Err(e) => Err(e),
    }
}

/// The script arguments of a test.
fn test_arguments(test: &LogicTest, context: &AsmCodeGenerationContext) -> (r: Result<
    Vec<LogicScriptArgument>,
    AsmCodeGenerationError,
>)
    ensures
        match script_arguments(
            test.args@,
            test.test_command.arg_types@,
            messages_view(context.logic.messages),
            context.word_list.words_view(),
        ) {
            Ok(a) => r matches Ok(v) && arguments_view(v@) == a && arguments_unlocated(v@),
            Err(w) => r matches Err(AsmCodeGenerationError::UnknownWord(x)) && x == w,
        },
{
    let ghost m = messages_view(context.logic.messages);
    let ghost w = context.word_list.words_view();
    let ghost values = test.args@;
    let ghost types = test.test_command.arg_types@;
    let mut out: Vec<LogicScriptArgument> = Vec::new();
    let mut i: usize = 0;
    proof {
        assert(values.skip(0) =~= values);
        assert(types.skip(0) =~= types);
        match script_arguments(values, types, m, w) {
            Ok(r) => {
                assert(arguments_view(out@) + r =~= r);
            },
            Err(_) => {},
        }
    }
    while i < test.args.len() && i < test.test_command.arg_types.len()
        invariant
            m == messages_view(context.logic.messages),
            w == context.word_list.words_view(),
            values == test.args@,
            types == test.test_command.arg_types@,
            0 <= i <= values.len(),
            i <= types.len(),
            after_arguments(arguments_view(out@), script_arguments(values.skip(i as int), types.skip(i as int), m, w))
                == script_arguments(values, types, m, w),
            arguments_unlocated(out@),
        decreases values.len() - i,
    {
        let ghost vs = values.skip(i as int);
        let ghost ts = types.skip(i as int);
        proof {
            assert(vs.drop_first() =~= values.skip(i + 1));
            assert(ts.drop_first() =~= types.skip(i + 1));
        }
        let a = match LogicScriptArgument::new(test.args[i], test.test_command.arg_types[i], context) {
            Ok(a) => a,
            Err(e) => {
                return Err(e);
            },
        };
        let ghost before = out@;
        out.push(a);
        proof {
            assert(arguments_view(out@) =~= arguments_view(before).push(a@));
            match script_arguments(values.skip(i + 1), types.skip(i + 1), m, w) {
                Ok(rest) => {
                    assert(arguments_view(out@) + rest =~= arguments_view(before) + (seq![a@] + rest));
                },
                Err(_) => {},
            }
        }
        i = i + 1;
    }
    proof {
        assert(values.skip(i as int).len() == 0 || types.skip(i as int).len() == 0);
        assert(arguments_view(out@) + Seq::<ArgumentMeaning>::empty() =~= arguments_view(out@));
    }
    Ok(out)
}

/// A comparison of two arguments.
fn comparison(
    left: &LogicScriptArgument,
    operator: LogicScriptBooleanBinaryOperator,
    right: &LogicScriptArgument,
) -> (r: LogicScriptBooleanExpression)
    ensures
        expression_view(r) == BooleanExpressionView::Binary(left@, operator, right@),
        argument_unlocated(*left) && argument_unlocated(*right) ==> expression_unlocated(r),
{
    LogicScriptBooleanExpression::BinaryOperation(
        LogicScriptBooleanBinaryOperation {
            left: left.duplicate(),
            operator,
            right: right.duplicate(),
            location: None,
        },
    )
}

/// A test that is not negated.
fn positive_test_expression(name: &String, argument_list: Vec<LogicScriptArgument>) -> (r: LogicScriptBooleanExpression)
    ensures
        expression_view(r) == positive_test_view(name@, arguments_view(argument_list@)),
        arguments_unlocated(argument_list@) ==> expression_unlocated(r),
{
    if (name_is(name, "lessn") || name_is(name, "lessv")) && argument_list.len() == 2 {
        return comparison(&argument_list[0], LogicScriptBooleanBinaryOperator::LessThan, &argument_list[1]);
    }
    if (name_is(name, "greatern") || name_is(name, "greaterv")) && argument_list.len() == 2 {
        return comparison(&argument_list[0], LogicScriptBooleanBinaryOperator::GreaterThan, &argument_list[1]);
    }
    LogicScriptBooleanExpression::TestCall(
        LogicScriptTestCall { test_name: name.clone(), argument_list, location: None, test_name_location: None },
    )
}

/// One test as a script condition.
fn test_expression(test: &LogicTest, context: &AsmCodeGenerationContext) -> (r: Result<
    LogicScriptBooleanExpression,
    AsmCodeGenerationError,
>)
    ensures
        match test_view(test@, messages_view(context.logic.messages), context.word_list.words_view()) {
            Ok(v) => r matches Ok(e) && expression_view(e) == v && expression_unlocated(e),
            Err(w) => r matches Err(AsmCodeGenerationError::UnknownWord(x)) && x == w,
        },
{
    let argument_list = match test_arguments(test, context) {
        Ok(a) => a,
        Err(e) => {
            return Err(e);
        },
    };
    let name = &test.test_command.name;
    if (name_is(name, "equaln") || name_is(name, "equalv")) && argument_list.len() == 2 {
        let operator = if test.negate {
            LogicScriptBooleanBinaryOperator::Equal
        } else {
            LogicScriptBooleanBinaryOperator::NotEqual
        };
        return Ok(comparison(&argument_list[0], operator, &argument_list[1]));
    }
    if test.negate {
        let inner = positive_test_expression(name, argument_list);
        return Ok(
            LogicScriptBooleanExpression::NotExpression(
                LogicScriptNotExpression { expression: Box::new(inner), location: None },
            ),
        );
    }
    Ok(positive_test_expression(name, argument_list))
}

/// Whether two comparisons have matching operands.
fn operands_match_exec(a: &LogicScriptBooleanBinaryOperation, b: &LogicScriptBooleanBinaryOperation) -> (r: bool)
    ensures
        r == operands_match(
            BooleanExpressionView::Binary(a.left@, a.operator, a.right@),
            BooleanExpressionView::Binary(b.left@, b.operator, b.right@),
        ),
{
    if a.left.value_eq(&b.left) && a.right.value_eq(&b.right) {
        return true;
    }
    if a.operator.is_commutative() || b.operator.is_commutative() {
        a.left.value_eq(&b.right) && a.right.value_eq(&b.left)
    } else {
        false
    }
}

/// A disjunction of tests as a script condition.
fn or_expression(tests: &Vec<LogicTest>, context: &AsmCodeGenerationContext) -> (r: Result<
    LogicScriptBooleanExpression,
    AsmCodeGenerationError,
>)
    ensures
        match or_view(tests_view(tests@), messages_view(context.logic.messages), context.word_list.words_view()) {
            Ok(v) => r matches Ok(e) && expression_view(e) == v && expression_unlocated(e),
            Err(w) => r matches Err(AsmCodeGenerationError::UnknownWord(x)) && x == w,
        },
{
    let ghost m = messages_view(context.logic.messages);
    let ghost w = context.word_list.words_view();
    let mut clauses: Vec<LogicScriptBooleanExpression> = Vec::new();
    let mut i: usize = 0;
    while i < tests.len()
        invariant
            m == messages_view(context.logic.messages),
            w == context.word_list.words_view(),
            0 <= i <= tests@.len(),
            tests_expressions(tests_view(tests@.take(i as int)), m, w) == Ok::<Seq<BooleanExpressionView>, u16>(
                expressions_view(clauses@),
            ),
            forall|k: int| 0 <= k < clauses@.len() ==> expression_unlocated(#[trigger] clauses@[k]),
        decreases tests@.len() - i,
    {
        proof {
            assert(tests_view(tests@.take(i + 1)).drop_last() =~= tests_view(tests@.take(i as int)));
            assert(tests_view(tests@.take(i + 1)).last() == tests@[i as int]@);
        }
        let e = match test_expression(&tests[i], context) {
            Ok(e) => e,
            Err(err) => {
                proof {
                    lemma_tests_expressions_error_stays(tests_view(tests@), i as int + 1, m, w);
                    assert(tests_view(tests@).take(i + 1) =~= tests_view(tests@.take(i + 1)));
                }
                return Err(err);
            },
        };
        proof {
            lemma_expressions_view_push(clauses@, e);
        }
        clauses.push(e);
        i = i + 1;
    }
    proof {
        assert(tests@.take(tests@.len() as int) =~= tests@);
        lemma_expressions_view(clauses@);
    }
    if clauses.len() == 2 {
        match (&clauses[0], &clauses[1]) {
            (LogicScriptBooleanExpression::BinaryOperation(left), LogicScriptBooleanExpression::BinaryOperation(right)) => {
                if (left.operator == LogicScriptBooleanBinaryOperator::LessThan && right.operator
                    == LogicScriptBooleanBinaryOperator::Equal) || ((left.operator
                    == LogicScriptBooleanBinaryOperator::Equal && right.operator
                    == LogicScriptBooleanBinaryOperator::LessThan) && operands_match_exec(left, right)) {
                    return Ok(
                        comparison(&left.left, LogicScriptBooleanBinaryOperator::LessThanOrEqual, &left.right),
                    );
                }
                if (left.operator == LogicScriptBooleanBinaryOperator::GreaterThan && right.operator
                    == LogicScriptBooleanBinaryOperator::Equal) || ((left.operator
                    == LogicScriptBooleanBinaryOperator::Equal && right.operator
                    == LogicScriptBooleanBinaryOperator::GreaterThan) && operands_match_exec(left, right)) {
                    return Ok(
                        comparison(&left.left, LogicScriptBooleanBinaryOperator::GreaterThanOrEqual, &left.right),
                    );
                }
            },
            _ => {},
        }
    }
    proof {
        lemma_expressions_unlocated(clauses@);
    }
    Ok(LogicScriptBooleanExpression::OrExpression(LogicScriptOrExpression { clauses, location: None }))
}

/// Once the tests up to `i` fail, so do all of them.
proof fn lemma_tests_expressions_error_stays(
    ts: Seq<LogicTestView>,
    i: int,
    m: Map<u8, Seq<char>>,
    w: Map<u16, Seq<char>>,
)
    requires
        0 <= i <= ts.len(),
        tests_expressions(ts.take(i), m, w) is Err,
    ensures
        tests_expressions(ts, m, w) == tests_expressions(ts.take(i), m, w),
    decreases ts.len() - i,
{
    if i < ts.len() {
        assert(ts.take(i + 1).drop_last() =~= ts.take(i));
        lemma_tests_expressions_error_stays(ts, i + 1, m, w);
    } else {
        assert(ts.take(i) =~= ts);
    }
}

/// Once the clauses up to `i` fail, so do all of them.
proof fn lemma_clauses_expressions_error_stays(
    cs: Seq<ClauseView>,
    i: int,
    m: Map<u8, Seq<char>>,
    w: Map<u16, Seq<char>>,
)
    requires
        0 <= i <= cs.len(),
        clauses_expressions(cs.take(i), m, w) is Err,
    ensures
        clauses_expressions(cs, m, w) == clauses_expressions(cs.take(i), m, w),
    decreases cs.len() - i,
{
    if i < cs.len() {
        assert(cs.take(i + 1).drop_last() =~= cs.take(i));
        lemma_clauses_expressions_error_stays(cs, i + 1, m, w);
    } else {
        assert(cs.take(i) =~= cs);
    }
}

/// One clause as a script condition.
fn clause_expression(clause: &LogicConditionClause, context: &AsmCodeGenerationContext) -> (r: Result<
    LogicScriptBooleanExpression,
    AsmCodeGenerationError,
>)
    ensures
        match clause_view(clause@, messages_view(context.logic.messages), context.word_list.words_view()) {
            Ok(v) => r matches Ok(e) && expression_view(e) == v && expression_unlocated(e),
            Err(w) => r matches Err(AsmCodeGenerationError::UnknownWord(x)) && x == w,
        },
{
    match clause {
        LogicConditionClause::Test(t) => test_expression(t, context),
        LogicConditionClause::Or(o) => or_expression(&o.or_tests, context),
    }
}

impl LogicScriptBooleanExpression {
    /// The condition of an `if` as a script writes it: a single clause alone,
    /// several joined by `&&`. The first word the word list lacks is an error.
    pub fn from_clauses(clauses: &[LogicConditionClause], context: &AsmCodeGenerationContext) -> (r: Result<
        LogicScriptBooleanExpression,
        AsmCodeGenerationError,
    >)
        requires
            clauses@.len() >= 1,
        ensures
            match condition_view(
                clauses_view(clauses@),
                messages_view(context.logic.messages),
                context.word_list.words_view(),
            ) {
                Ok(v) => r matches Ok(e) && expression_view(e) == v && expression_unlocated(e),
                Err(w) => r matches Err(AsmCodeGenerationError::UnknownWord(x)) && x == w,
            },
    {
        if clauses.len() > 1 {
            let ghost m = messages_view(context.logic.messages);
            let ghost w = context.word_list.words_view();
            let mut out: Vec<LogicScriptBooleanExpression> = Vec::new();
            let mut i: usize = 0;
            while i < clauses.len()
                invariant
                    m == messages_view(context.logic.messages),
                    w == context.word_list.words_view(),
                    0 <= i <= clauses@.len(),
                    clauses_expressions(clauses_view(clauses@.take(i as int)), m, w) == Ok::<
                        Seq<BooleanExpressionView>,
                        u16,
                    >(expressions_view(out@)),
                    forall|k: int| 0 <= k < out@.len() ==> expression_unlocated(#[trigger] out@[k]),
                decreases clauses@.len() - i,
            {
                proof {
                    assert(clauses_view(clauses@.take(i + 1)).drop_last() =~= clauses_view(clauses@.take(i as int)));
                    assert(clauses_view(clauses@.take(i + 1)).last() == clauses@[i as int]@);
                }
                let e = match clause_expression(&clauses[i], context) {
                    Ok(e) => e,
                    Err(err) => {
                        proof {
                            lemma_clauses_expressions_error_stays(clauses_view(clauses@), i as int + 1, m, w);
                            assert(clauses_view(clauses@).take(i + 1) =~= clauses_view(clauses@.take(i + 1)));
                        }
                        return Err(err);
                    },
                };
                proof {
                    lemma_expressions_view_push(out@, e);
                }
                out.push(e);
                i = i + 1;
            }
            proof {
                assert(clauses@.take(clauses@.len() as int) =~= clauses@);
                lemma_expressions_unlocated(out@);
            }
            return Ok(LogicScriptBooleanExpression::AndExpression(LogicScriptAndExpression { clauses: out, location: None }));
        }
        clause_expression(&clauses[0], context)
    }
}

} // verus!
