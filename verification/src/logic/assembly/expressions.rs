use vstd::prelude::*;
use vstd::string::StringExecFns;

use crate::formatting::{decimal_digits, prefixed_number};
use crate::logic::assembly::codegen::{AsmCodeGenerationContext, AsmCodeGenerationError};
use crate::logic::assembly::literals::{LogicLiteral, LogicLiteralValue, LogicNumberLiteral, LogicStringLiteral};
use crate::logic::assembly::operators::{LogicBinaryOperator, LogicBooleanBinaryOperator};
use crate::logic::commands::AGICommandArgType;
use crate::logic::{
    clauses_view, messages_view, tests_view, ClauseView, LogicConditionClause, LogicTest, LogicTestView,
};

verus! {

broadcast use vstd::std_specs::hash::group_hash_axioms;

#[derive(Debug, Clone, PartialEq, Eq)]
pub struct LogicIdentifier {
    pub name: String,
}

/// A raw bytecode argument with the type the command gives it.
#[derive(Debug, Clone, Copy, PartialEq, Eq, Structural)]
pub struct AsmLogicArgument {
    pub value: u16,
    pub arg_type: AGICommandArgType,
}

/// An argument as a script shows it: a literal or a name.
#[derive(Debug, Clone, PartialEq, Eq)]
pub enum ParsedLogicArgument {
    Literal(LogicLiteral),
    Identifier(LogicIdentifier),
}

/// What an argument stands for: a number, a string, or a name.
pub enum ArgumentMeaning {
    Number(int),
    Text(Seq<char>),
    Name(Seq<char>),
}

impl View for ParsedLogicArgument {
    type V = ArgumentMeaning;

    open spec fn view(&self) -> ArgumentMeaning {
        match self {
            ParsedLogicArgument::Literal(l) => match &l.value {
                LogicLiteralValue::Number(n) => ArgumentMeaning::Number(n.value as int),
                LogicLiteralValue::String(s) => ArgumentMeaning::Text(s.value@),
            },
            ParsedLogicArgument::Identifier(i) => ArgumentMeaning::Name(i.name@),
        }
    }
}

/// The name of the `n`th resource of the kind `prefix` stands for: `v3`, `f12`, ...
pub open spec fn numbered_name(prefix: char, n: nat) -> Seq<char> {
    seq![prefix] + decimal_digits(n)
}

/// What a bytecode argument of each type means: numbers stay numbers; messages
/// and words are their text where the logic or the word list has it; anything
/// else is named by a letter for its type and its number. A message argument
/// counts from one.
pub open spec fn asm_argument_meaning(
    arg: AsmLogicArgument,
    messages: Map<u8, Seq<char>>,
    words: Map<u16, Seq<char>>,
) -> ArgumentMeaning {
    let v = arg.value as nat;
    match arg.arg_type {
        AGICommandArgType::Number => ArgumentMeaning::Number(v as int),
        AGICommandArgType::Variable => ArgumentMeaning::Name(numbered_name('v', v)),
        AGICommandArgType::Flag => ArgumentMeaning::Name(numbered_name('f', v)),
        AGICommandArgType::Object => ArgumentMeaning::Name(numbered_name('o', v)),
        AGICommandArgType::Item => ArgumentMeaning::Name(numbered_name('i', v)),
        AGICommandArgType::String => ArgumentMeaning::Name(numbered_name('s', v)),
        AGICommandArgType::CtrlCode => ArgumentMeaning::Name(numbered_name('c', v)),
        AGICommandArgType::Message => {
            let key = ((arg.value as u8) - 1) as u8;
            if messages.contains_key(key) {
                ArgumentMeaning::Text(messages[key])
            } else {
                ArgumentMeaning::Name(numbered_name('m', v))
            }
        },
        AGICommandArgType::Word => if words.contains_key(arg.value) {
            ArgumentMeaning::Text(words[arg.value])
        } else {
            ArgumentMeaning::Name(numbered_name('w', v))
        },
    }
}

/// A name made of a one-letter prefix and a number.
fn numbered_identifier(prefix: &str, n: u16) -> (r: ParsedLogicArgument)
    ensures
        r@ == ArgumentMeaning::Name(prefix@ + decimal_digits(n as nat)),
{
    ParsedLogicArgument::Identifier(LogicIdentifier { name: prefixed_number(prefix, n as u32) })
}

impl AsmLogicArgument {
    pub fn new(value: u16, arg_type: AGICommandArgType) -> (r: AsmLogicArgument)
        ensures
            r.value == value,
            r.arg_type == arg_type,
    {
        AsmLogicArgument { value, arg_type }
    }

    /// Same value and same type.
    pub fn value_eq(&self, other: &AsmLogicArgument) -> (r: bool)
        ensures
            r == (self.value == other.value && self.arg_type == other.arg_type),
    {
        self.value == other.value && self.arg_type == other.arg_type
    }

    /// The argument as a script shows it.
    pub fn try_parse(&self, context: &AsmCodeGenerationContext) -> (r: Result<ParsedLogicArgument, AsmCodeGenerationError>)
        requires
            self.arg_type == AGICommandArgType::Message ==> self.value as u8 >= 1,
        ensures
            r matches Ok(p) && p@ == asm_argument_meaning(
                *self,
                messages_view(context.logic.messages),
                context.word_list.words_view(),
            ),
    {
        proof {
            reveal_strlit("v");
            reveal_strlit("f");
            reveal_strlit("o");
            reveal_strlit("i");
            reveal_strlit("s");
            reveal_strlit("c");
            reveal_strlit("m");
            reveal_strlit("w");
        }
        match self.arg_type {
            AGICommandArgType::Number => Ok(
                ParsedLogicArgument::Literal(
                    LogicLiteral { value: LogicLiteralValue::Number(LogicNumberLiteral { value: self.value as i32 }) },
                ),
            ),
            AGICommandArgType::Variable => Ok({
                assert("v"@ =~= seq!['v']);
                numbered_identifier("v", self.value)
            }),
            AGICommandArgType::Flag => Ok({
                assert("f"@ =~= seq!['f']);
                numbered_identifier("f", self.value)
            }),
            AGICommandArgType::Object => Ok({
                assert("o"@ =~= seq!['o']);
                numbered_identifier("o", self.value)
            }),
            AGICommandArgType::Item => Ok({
                assert("i"@ =~= seq!['i']);
                numbered_identifier("i", self.value)
            }),
            AGICommandArgType::String => Ok({
                assert("s"@ =~= seq!['s']);
                numbered_identifier("s", self.value)
            }),
            AGICommandArgType::CtrlCode => Ok({
                assert("c"@ =~= seq!['c']);
                numbered_identifier("c", self.value)
            }),
            AGICommandArgType::Message => {
                let key: u8 = #[verifier::truncate] (self.value as u8) - 1;
                match context.logic.messages.get(&key) {
                    Some(msg) => {
                        assert(messages_view(context.logic.messages)[key] == msg@);
                        Ok(ParsedLogicArgument::Literal(LogicLiteral { value: LogicLiteralValue::from_string(msg.clone()) }))
                    },
                    None => Ok({
                assert("m"@ =~= seq!['m']);
                numbered_identifier("m", self.value)
            }),
                }
            },
            AGICommandArgType::Word => {
                match context.word_list.words.get(&self.value) {
                    Some(entry) => {
                        assert(context.word_list.words_view()[self.value] == entry.canonical_word@);
                        Ok(
                            ParsedLogicArgument::Literal(
                                LogicLiteral { value: LogicLiteralValue::from_string(entry.canonical_word.clone()) },
                            ),
                        )
                    },
                    None => Ok({
                assert("w"@ =~= seq!['w']);
                numbered_identifier("w", self.value)
            }),
                }
            },
        }
    }
}

/// Two arguments mean the same: names equal, numbers equal, or texts equal.
pub open spec fn same_meaning(a: ArgumentMeaning, b: ArgumentMeaning) -> bool {
    match (a, b) {
        (ArgumentMeaning::Name(x), ArgumentMeaning::Name(y)) => x == y,
        (ArgumentMeaning::Number(x), ArgumentMeaning::Number(y)) => x == y,
        (ArgumentMeaning::Text(x), ArgumentMeaning::Text(y)) => x == y,
        _ => false,
    }
}

impl ParsedLogicArgument {
    pub fn value_eq(&self, other: &ParsedLogicArgument) -> (r: bool)
        ensures
            r == same_meaning(self@, other@),
    {
        match (self, other) {
            (ParsedLogicArgument::Identifier(left), ParsedLogicArgument::Identifier(right)) => left.name
                == right.name,
            (ParsedLogicArgument::Literal(left), ParsedLogicArgument::Literal(right)) => {
                match (&left.value, &right.value) {
                    (LogicLiteralValue::Number(l), LogicLiteralValue::Number(r)) => l.value == r.value,
                    (LogicLiteralValue::String(l), LogicLiteralValue::String(r)) => l.value == r.value,
                    _ => false,
                }
            },
            _ => false,
        }
    }
}

impl ParsedLogicArgument {
    /// Whether the argument is a name.
    pub fn is_identifier(&self) -> (r: bool)
        ensures
            r == self@ is Name,
    {
        match self {
            ParsedLogicArgument::Identifier(_) => true,
            ParsedLogicArgument::Literal(_) => false,
        }
    }

    /// A copy of the argument.
    pub fn duplicate(&self) -> (r: ParsedLogicArgument)
        ensures
            r@ == self@,
    {
        match self {
            ParsedLogicArgument::Literal(l) => match &l.value {
                LogicLiteralValue::Number(n) => ParsedLogicArgument::Literal(
                    LogicLiteral { value: LogicLiteralValue::Number(LogicNumberLiteral { value: n.value }) },
                ),
                LogicLiteralValue::String(t) => ParsedLogicArgument::Literal(
                    LogicLiteral { value: LogicLiteralValue::String(LogicStringLiteral { value: t.value.clone() }) },
                ),
            },
            ParsedLogicArgument::Identifier(i) => ParsedLogicArgument::Identifier(
                LogicIdentifier { name: i.name.clone() },
            ),
        }
    }
}

#[derive(Debug)]
pub struct LogicAndExpression<Arg> {
    pub clauses: Vec<LogicBooleanExpression<Arg>>,
}

#[derive(Debug)]
pub struct LogicOrExpression<Arg> {
    pub clauses: Vec<LogicBooleanExpression<Arg>>,
}

#[derive(Debug)]
pub struct LogicNotExpression<Arg> {
    pub expression: Box<LogicBooleanExpression<Arg>>,
}

#[derive(Debug, Clone, PartialEq, Eq)]
pub struct LogicBooleanBinaryOperation<Arg> {
    pub left: Arg,
    pub operator: LogicBooleanBinaryOperator,
    pub right: Arg,
}

#[derive(Debug, Clone, PartialEq, Eq)]
pub struct LogicTestCall<Arg> {
    pub test_name: String,
    pub argument_list: Vec<Arg>,
}

/// A condition as the assembly shows it.
#[derive(Debug)]
pub enum LogicBooleanExpression<Arg> {
    BinaryOperation(LogicBooleanBinaryOperation<Arg>),
    AndExpression(LogicAndExpression<Arg>),
    OrExpression(LogicOrExpression<Arg>),
    NotExpression(LogicNotExpression<Arg>),
    TestCall(LogicTestCall<Arg>),
    Identifier(LogicIdentifier),
}

/// What a condition of the assembly says.
pub enum AsmConditionView {
    Binary(ArgumentMeaning, LogicBooleanBinaryOperator, ArgumentMeaning),
    And(Seq<AsmConditionView>),
    Or(Seq<AsmConditionView>),
    Not(Box<AsmConditionView>),
    TestCall(Seq<char>, Seq<ArgumentMeaning>),
    Identifier(Seq<char>),
}

pub open spec fn parsed_arguments_view(s: Seq<ParsedLogicArgument>) -> Seq<ArgumentMeaning> {
    s.map_values(|a: ParsedLogicArgument| a@)
}

pub open spec fn condition_expression_view(e: LogicBooleanExpression<ParsedLogicArgument>) -> AsmConditionView
    decreases e,
{
    match e {
        LogicBooleanExpression::BinaryOperation(b) => AsmConditionView::Binary(b.left@, b.operator, b.right@),
        LogicBooleanExpression::AndExpression(a) => AsmConditionView::And(condition_expressions_view(a.clauses@)),
        LogicBooleanExpression::OrExpression(o) => AsmConditionView::Or(condition_expressions_view(o.clauses@)),
        LogicBooleanExpression::NotExpression(n) => AsmConditionView::Not(
            Box::new(condition_expression_view(*n.expression)),
        ),
        LogicBooleanExpression::TestCall(t) => AsmConditionView::TestCall(
            t.test_name@,
            parsed_arguments_view(t.argument_list@),
        ),
        LogicBooleanExpression::Identifier(i) => AsmConditionView::Identifier(i.name@),
    }
}

pub open spec fn condition_expressions_view(s: Seq<LogicBooleanExpression<ParsedLogicArgument>>) -> Seq<
    AsmConditionView,
>
    decreases s,
{
    if s.len() == 0 {
        Seq::empty()
    } else {
        seq![condition_expression_view(s[0])] + condition_expressions_view(s.subrange(1, s.len() as int))
    }
}

/// The views of a sequence of conditions, one by one.
pub proof fn lemma_condition_expressions_view(s: Seq<LogicBooleanExpression<ParsedLogicArgument>>)
    ensures
        condition_expressions_view(s).len() == s.len(),
        forall|i: int| 0 <= i < s.len() ==> #[trigger] condition_expressions_view(s)[i] == condition_expression_view(s[i]),
    decreases s.len(),
{
    if s.len() > 0 {
        let tail = s.subrange(1, s.len() as int);
        lemma_condition_expressions_view(tail);
        assert forall|i: int| 0 <= i < s.len() implies #[trigger] condition_expressions_view(s)[i]
            == condition_expression_view(s[i]) by {
            if i > 0 {
                assert(tail[i - 1] == s[i]);
            }
        }
    }
}

/// Appending a condition appends its view.
pub proof fn lemma_condition_expressions_view_push(
    s: Seq<LogicBooleanExpression<ParsedLogicArgument>>,
    e: LogicBooleanExpression<ParsedLogicArgument>,
)
    ensures
        condition_expressions_view(s.push(e)) == condition_expressions_view(s).push(condition_expression_view(e)),
{
    lemma_condition_expressions_view(s);
    lemma_condition_expressions_view(s.push(e));
    assert(condition_expressions_view(s.push(e)) =~= condition_expressions_view(s).push(condition_expression_view(e)));
}

/// Two comparisons say the same: the same operator on the same operands, or
/// on swapped operands where the operator commutes.
pub open spec fn asm_comparisons_equivalent(
    l1: ArgumentMeaning,
    op1: LogicBooleanBinaryOperator,
    r1: ArgumentMeaning,
    l2: ArgumentMeaning,
    op2: LogicBooleanBinaryOperator,
    r2: ArgumentMeaning,
) -> bool {
    ||| (same_meaning(l1, l2) && same_meaning(r1, r2) && op1 == op2)
    ||| (op1.commutes() && same_meaning(l1, r2) && same_meaning(r1, l2) && op1 == op2)
}

impl LogicBooleanBinaryOperation<ParsedLogicArgument> {
    pub fn logically_equivalent(&self, other: &LogicBooleanBinaryOperation<ParsedLogicArgument>) -> (r: bool)
        ensures
            r == asm_comparisons_equivalent(
                self.left@,
                self.operator,
                self.right@,
                other.left@,
                other.operator,
                other.right@,
            ),
    {
        if self.left.value_eq(&other.left) && self.right.value_eq(&other.right) && self.operator == other.operator {
            return true;
        }
        if self.operator.is_commutative() {
            self.left.value_eq(&other.right) && self.right.value_eq(&other.left) && self.operator == other.operator
        } else {
            false
        }
    }
}

/// The types a test's arguments are read as: all words for a test that takes
/// any number of them, else the test's own types.
pub open spec fn test_argument_types(t: LogicTestView) -> Seq<AGICommandArgType> {
    if t.command.var_args {
        Seq::new(t.args.len(), |i: int| AGICommandArgType::Word)
    } else {
        t.command.arg_types
    }
}

/// A test's arguments with their types, as far as both reach.
pub open spec fn test_asm_arguments(t: LogicTestView) -> Seq<AsmLogicArgument> {
    let types = test_argument_types(t);
    let n = if t.args.len() <= types.len() {
        t.args.len()
    } else {
        types.len()
    };
    Seq::new(n, |i: int| AsmLogicArgument { value: t.args[i], arg_type: types[i] })
}

/// Each message argument of the test counts from one.
pub open spec fn test_messages_numbered(t: LogicTestView) -> bool {
    forall|i: int|
        0 <= i < test_asm_arguments(t).len() ==> (#[trigger] test_asm_arguments(t)[i]).arg_type
            == AGICommandArgType::Message ==> test_asm_arguments(t)[i].value as u8 >= 1
}

/// Each message argument of each test of the clauses counts from one.
pub open spec fn clauses_messages_numbered(cs: Seq<ClauseView>) -> bool {
    forall|k: int|
        0 <= k < cs.len() ==> match #[trigger] cs[k] {
            ClauseView::Test(t) => test_messages_numbered(t),
            ClauseView::Or(ts) => forall|j: int| 0 <= j < ts.len() ==> test_messages_numbered(#[trigger] ts[j]),
        }
}

/// The meanings of a test's arguments.
pub open spec fn test_meanings(
    t: LogicTestView,
    messages: Map<u8, Seq<char>>,
    words: Map<u16, Seq<char>>,
) -> Seq<ArgumentMeaning> {
    test_asm_arguments(t).map_values(|a: AsmLogicArgument| asm_argument_meaning(a, messages, words))
}

/// A test that is not negated: comparisons for `lessn`/`lessv` and
/// `greatern`/`greaterv` with two arguments, a call otherwise.
pub open spec fn positive_asm_test_view(name: Seq<char>, args: Seq<ArgumentMeaning>) -> AsmConditionView {
    if (name == "lessn"@ || name == "lessv"@) && args.len() == 2 {
        AsmConditionView::Binary(args[0], LogicBooleanBinaryOperator::LessThan, args[1])
    } else if (name == "greatern"@ || name == "greaterv"@) && args.len() == 2 {
        AsmConditionView::Binary(args[0], LogicBooleanBinaryOperator::GreaterThan, args[1])
    } else {
        AsmConditionView::TestCall(name, args)
    }
}

/// A test: `equaln`/`equalv` with two arguments is `==`, or `!=` when
/// negated; any other negated test is the negation of the test without it.
pub open spec fn asm_test_view(
    t: LogicTestView,
    messages: Map<u8, Seq<char>>,
    words: Map<u16, Seq<char>>,
) -> AsmConditionView {
    let args = test_meanings(t, messages, words);
    let name = t.command.name;
    if (name == "equaln"@ || name == "equalv"@) && args.len() == 2 {
        AsmConditionView::Binary(
            args[0],
            if t.negate {
                LogicBooleanBinaryOperator::NotEqual
            } else {
                LogicBooleanBinaryOperator::Equal
            },
            args[1],
        )
    } else if t.negate {
        AsmConditionView::Not(Box::new(positive_asm_test_view(name, args)))
    } else {
        positive_asm_test_view(name, args)
    }
}

/// Whether two comparisons have matching operands, either way round when one
/// of them commutes.
pub open spec fn asm_operands_match(a: AsmConditionView, b: AsmConditionView) -> bool {
    match (a, b) {
        (AsmConditionView::Binary(al, ao, ar), AsmConditionView::Binary(bl, bo, br)) => {
            ||| (same_meaning(al, bl) && same_meaning(ar, br))
            ||| ((ao.commutes() || bo.commutes()) && same_meaning(al, br) && same_meaning(ar, bl))
        },
        _ => false,
    }
}

/// Whether two conditions are comparisons with operators `x` and `y`.
pub open spec fn asm_operators_are(
    a: AsmConditionView,
    x: LogicBooleanBinaryOperator,
    b: AsmConditionView,
    y: LogicBooleanBinaryOperator,
) -> bool {
    &&& (a matches AsmConditionView::Binary(_, ao, _) && ao == x)
    &&& (b matches AsmConditionView::Binary(_, bo, _) && bo == y)
}

/// A disjunction: two comparisons `<` and `==` become `<=`, and `>` and `==`
/// become `>=`, taking the first comparison's operands. As the conditions are
/// written, the `<` (or `>`) first needs no match of operands; `==` first does.
pub open spec fn asm_or_view(
    ts: Seq<LogicTestView>,
    messages: Map<u8, Seq<char>>,
    words: Map<u16, Seq<char>>,
) -> AsmConditionView {
    let cs = ts.map_values(|t: LogicTestView| asm_test_view(t, messages, words));
    if cs.len() == 2 && cs[0] is Binary && cs[1] is Binary {
        let l = cs[0];
        let r = cs[1];
        if asm_operators_are(l, LogicBooleanBinaryOperator::LessThan, r, LogicBooleanBinaryOperator::Equal) || (
        asm_operators_are(l, LogicBooleanBinaryOperator::Equal, r, LogicBooleanBinaryOperator::LessThan)
            && asm_operands_match(l, r)) {
            AsmConditionView::Binary(l->Binary_0, LogicBooleanBinaryOperator::LessThanOrEqual, l->Binary_2)
        } else if asm_operators_are(l, LogicBooleanBinaryOperator::GreaterThan, r, LogicBooleanBinaryOperator::Equal)
            || (asm_operators_are(l, LogicBooleanBinaryOperator::Equal, r, LogicBooleanBinaryOperator::GreaterThan)
            && asm_operands_match(l, r)) {
            AsmConditionView::Binary(l->Binary_0, LogicBooleanBinaryOperator::GreaterThanOrEqual, l->Binary_2)
        } else {
            AsmConditionView::Or(cs)
        }
    } else {
        AsmConditionView::Or(cs)
    }
}

pub open spec fn asm_clause_view(
    c: ClauseView,
    messages: Map<u8, Seq<char>>,
    words: Map<u16, Seq<char>>,
) -> AsmConditionView {
    match c {
        ClauseView::Test(t) => asm_test_view(t, messages, words),
        ClauseView::Or(ts) => asm_or_view(ts, messages, words),
    }
}

/// A condition: one clause stands alone; more make a conjunction.
pub open spec fn asm_condition_view(
    cs: Seq<ClauseView>,
    messages: Map<u8, Seq<char>>,
    words: Map<u16, Seq<char>>,
) -> AsmConditionView {
    if cs.len() > 1 {
        AsmConditionView::And(cs.map_values(|c: ClauseView| asm_clause_view(c, messages, words)))
    } else {
        asm_clause_view(cs[0], messages, words)
    }
}

/// Whether a name is the given one.
fn name_is(name: &String, expected: &str) -> (r: bool)
    ensures
        r == (name@ == expected@),
{
    *name == String::from_str(expected)
}

/// The arguments of a test as the assembly shows them.
fn test_parsed_arguments(test: &LogicTest, context: &AsmCodeGenerationContext) -> (r: Vec<ParsedLogicArgument>)
    requires
        test_messages_numbered(test@),
    ensures
        parsed_arguments_view(r@) == test_meanings(
            test@,
            messages_view(context.logic.messages),
            context.word_list.words_view(),
        ),
{
    let ghost m = messages_view(context.logic.messages);
    let ghost w = context.word_list.words_view();
    let ghost all = test_asm_arguments(test@);
    let mut out: Vec<ParsedLogicArgument> = Vec::new();
    let mut i: usize = 0;
    while i < test.args.len() && (test.test_command.var_args || i < test.test_command.arg_types.len())
        invariant
            m == messages_view(context.logic.messages),
            w == context.word_list.words_view(),
            all == test_asm_arguments(test@),
            test_messages_numbered(test@),
            0 <= i <= all.len(),
            parsed_arguments_view(out@) == all.take(i as int).map_values(
                |a: AsmLogicArgument| asm_argument_meaning(a, m, w),
            ),
        decreases test.args@.len() - i,
    {
        let arg_type = if test.test_command.var_args {
            AGICommandArgType::Word
        } else {
            test.test_command.arg_types[i]
        };
        let arg = AsmLogicArgument::new(test.args[i], arg_type);
        assert(arg == all[i as int]);
        let parsed = match arg.try_parse(context) {
            Ok(p) => p,
            Err(e) => {
                return out;
            },
        };
        let ghost before = out@;
        out.push(parsed);
        proof {
            assert(parsed@ == asm_argument_meaning(all[i as int], m, w));
            assert(parsed_arguments_view(out@) =~= parsed_arguments_view(before).push(parsed@));
            assert(all.take(i + 1).map_values(|a: AsmLogicArgument| asm_argument_meaning(a, m, w)) =~= all.take(
                i as int,
            ).map_values(|a: AsmLogicArgument| asm_argument_meaning(a, m, w)).push(asm_argument_meaning(all[i as int], m, w)));
        }
        i = i + 1;
    }
    proof {
        assert(all.take(i as int) =~= all);
    }
    out
}

/// A comparison of two arguments.
fn asm_comparison(
    left: &ParsedLogicArgument,
    operator: LogicBooleanBinaryOperator,
    right: &ParsedLogicArgument,
) -> (r: LogicBooleanExpression<ParsedLogicArgument>)
    ensures
        condition_expression_view(r) == AsmConditionView::Binary(left@, operator, right@),
{
    LogicBooleanExpression::BinaryOperation(
        LogicBooleanBinaryOperation { left: left.duplicate(), operator, right: right.duplicate() },
    )
}

/// A test that is not negated.
fn positive_asm_test(name: &String, argument_list: Vec<ParsedLogicArgument>) -> (r: LogicBooleanExpression<
    ParsedLogicArgument,
>)
    ensures
        condition_expression_view(r) == positive_asm_test_view(name@, parsed_arguments_view(argument_list@)),
{
    if (name_is(name, "lessn") || name_is(name, "lessv")) && argument_list.len() == 2 {
        return asm_comparison(&argument_list[0], LogicBooleanBinaryOperator::LessThan, &argument_list[1]);
    }
    if (name_is(name, "greatern") || name_is(name, "greaterv")) && argument_list.len() == 2 {
        return asm_comparison(&argument_list[0], LogicBooleanBinaryOperator::GreaterThan, &argument_list[1]);
    }
    LogicBooleanExpression::TestCall(LogicTestCall { test_name: name.clone(), argument_list })
}

/// One test as an assembly condition.
fn asm_test(test: &LogicTest, context: &AsmCodeGenerationContext) -> (r: LogicBooleanExpression<ParsedLogicArgument>)
    requires
        test_messages_numbered(test@),
    ensures
        condition_expression_view(r) == asm_test_view(
            test@,
            messages_view(context.logic.messages),
            context.word_list.words_view(),
        ),
{
    let argument_list = test_parsed_arguments(test, context);
    let name = &test.test_command.name;
    if (name_is(name, "equaln") || name_is(name, "equalv")) && argument_list.len() == 2 {
        let operator = if test.negate {
            LogicBooleanBinaryOperator::NotEqual
        } else {
            LogicBooleanBinaryOperator::Equal
        };
        return asm_comparison(&argument_list[0], operator, &argument_list[1]);
    }
    if test.negate {
        let inner = positive_asm_test(name, argument_list);
        return LogicBooleanExpression::NotExpression(LogicNotExpression { expression: Box::new(inner) });
    }
    positive_asm_test(name, argument_list)
}

/// Whether two comparisons have matching operands.
fn asm_operands_match_exec(
    a: &LogicBooleanBinaryOperation<ParsedLogicArgument>,
    b: &LogicBooleanBinaryOperation<ParsedLogicArgument>,
) -> (r: bool)
    ensures
        r == asm_operands_match(
            AsmConditionView::Binary(a.left@, a.operator, a.right@),
            AsmConditionView::Binary(b.left@, b.operator, b.right@),
        ),
{
    if a.left.value_eq(&b.left) && a.right.value_eq(&b.right) {
        return true;
    }
    if a.operator.is_commutative() || b.operator.is_commutative() {
        a.left.value_eq(&b.right) && a.right.value_eq(&b.left)
    } else {
        false
    }
}

/// A disjunction of tests as an assembly condition.
fn asm_or(tests: &Vec<LogicTest>, context: &AsmCodeGenerationContext) -> (r: LogicBooleanExpression<ParsedLogicArgument>)
    requires
        forall|j: int| 0 <= j < tests@.len() ==> test_messages_numbered(#[trigger] tests@[j]@),
    ensures
        condition_expression_view(r) == asm_or_view(
            tests_view(tests@),
            messages_view(context.logic.messages),
            context.word_list.words_view(),
        ),
{
    let ghost m = messages_view(context.logic.messages);
    let ghost w = context.word_list.words_view();
    let ghost all = tests_view(tests@).map_values(|t: LogicTestView| asm_test_view(t, m, w));
    let mut clauses: Vec<LogicBooleanExpression<ParsedLogicArgument>> = Vec::new();
    let mut i: usize = 0;
    while i < tests.len()
        invariant
            m == messages_view(context.logic.messages),
            w == context.word_list.words_view(),
            all == tests_view(tests@).map_values(|t: LogicTestView| asm_test_view(t, m, w)),
            forall|j: int| 0 <= j < tests@.len() ==> test_messages_numbered(#[trigger] tests@[j]@),
            0 <= i <= tests@.len(),
            condition_expressions_view(clauses@) == all.take(i as int),
        decreases tests@.len() - i,
    {
        let e = asm_test(&tests[i], context);
        proof {
            lemma_condition_expressions_view_push(clauses@, e);
            assert(all.take(i + 1) =~= all.take(i as int).push(condition_expression_view(e)));
        }
        clauses.push(e);
        i = i + 1;
    }
    proof {
        assert(all.take(i as int) =~= all);
        lemma_condition_expressions_view(clauses@);
    }
    if clauses.len() == 2 {
        match (&clauses[0], &clauses[1]) {
            (LogicBooleanExpression::BinaryOperation(left), LogicBooleanExpression::BinaryOperation(right)) => {
                if (left.operator == LogicBooleanBinaryOperator::LessThan && right.operator
                    == LogicBooleanBinaryOperator::Equal) || ((left.operator == LogicBooleanBinaryOperator::Equal
                    && right.operator == LogicBooleanBinaryOperator::LessThan) && asm_operands_match_exec(left, right)) {
                    return asm_comparison(&left.left, LogicBooleanBinaryOperator::LessThanOrEqual, &left.right);
                }
                if (left.operator == LogicBooleanBinaryOperator::GreaterThan && right.operator
                    == LogicBooleanBinaryOperator::Equal) || ((left.operator == LogicBooleanBinaryOperator::Equal
                    && right.operator == LogicBooleanBinaryOperator::GreaterThan) && asm_operands_match_exec(
                    left,
                    right,
                )) {
                    return asm_comparison(&left.left, LogicBooleanBinaryOperator::GreaterThanOrEqual, &left.right);
                }
            },
            _ => {},
        }
    }
    LogicBooleanExpression::OrExpression(LogicOrExpression { clauses })
}

/// One clause as an assembly condition.
fn asm_clause(clause: &LogicConditionClause, context: &AsmCodeGenerationContext) -> (r: LogicBooleanExpression<
    ParsedLogicArgument,
>)
    requires
        clauses_messages_numbered(seq![clause@]),
    ensures
        condition_expression_view(r) == asm_clause_view(
            clause@,
            messages_view(context.logic.messages),
            context.word_list.words_view(),
        ),
{
    assert(seq![clause@][0] == clause@);
    match clause {
        LogicConditionClause::Test(t) => asm_test(t, context),
        LogicConditionClause::Or(o) => {
            assert forall|j: int| 0 <= j < o.or_tests@.len() implies test_messages_numbered(
                #[trigger] o.or_tests@[j]@,
            ) by {
                assert(tests_view(o.or_tests@)[j] == o.or_tests@[j]@);
            }
            asm_or(&o.or_tests, context)
        },
    }
}

impl LogicBooleanExpression<ParsedLogicArgument> {
    /// The condition of a conditional as the assembly writes it: a single
    /// clause alone, several joined by `&&`.
    pub fn from_clauses(clauses: &[LogicConditionClause], context: &AsmCodeGenerationContext) -> (r: Result<
        LogicBooleanExpression<ParsedLogicArgument>,
        AsmCodeGenerationError,
    >)
        requires
            clauses@.len() >= 1,
            clauses_messages_numbered(clauses_view(clauses@)),
        ensures
            r matches Ok(e) && condition_expression_view(e) == asm_condition_view(
                clauses_view(clauses@),
                messages_view(context.logic.messages),
                context.word_list.words_view(),
            ),
    {
        let ghost m = messages_view(context.logic.messages);
        let ghost w = context.word_list.words_view();
        let ghost cs = clauses_view(clauses@);
        if clauses.len() > 1 {
            let ghost all = cs.map_values(|c: ClauseView| asm_clause_view(c, m, w));
            let mut out: Vec<LogicBooleanExpression<ParsedLogicArgument>> = Vec::new();
            let mut i: usize = 0;
            while i < clauses.len()
                invariant
                    m == messages_view(context.logic.messages),
                    w == context.word_list.words_view(),
                    cs == clauses_view(clauses@),
                    all == cs.map_values(|c: ClauseView| asm_clause_view(c, m, w)),
                    clauses_messages_numbered(cs),
                    0 <= i <= clauses@.len(),
                    condition_expressions_view(out@) == all.take(i as int),
                decreases clauses@.len() - i,
            {
                proof {
                    assert(cs[i as int] == clauses@[i as int]@);
                    assert(seq![clauses@[i as int]@][0] == cs[i as int]);
                }
                let e = asm_clause(&clauses[i], context);
                proof {
                    lemma_condition_expressions_view_push(out@, e);
                    assert(all.take(i + 1) =~= all.take(i as int).push(condition_expression_view(e)));
                }
                out.push(e);
                i = i + 1;
            }
            proof {
                assert(all.take(i as int) =~= all);
            }
            return Ok(LogicBooleanExpression::AndExpression(LogicAndExpression { clauses: out }));
        }
        proof {
            assert(cs[0] == clauses@[0]@);
            assert(seq![clauses@[0]@][0] == cs[0]);
        }
        Ok(asm_clause(&clauses[0], context))
    }
}

impl LogicBooleanExpression<ParsedLogicArgument> {
    /// The condition with its arguments as the assembly shows them: a copy.
    pub fn to_parsed(&self) -> (r: LogicBooleanExpression<ParsedLogicArgument>)
        ensures
            condition_expression_view(r) == condition_expression_view(*self),
        decreases self,
    {
        match self {
            LogicBooleanExpression::BinaryOperation(e) => LogicBooleanExpression::BinaryOperation(
                LogicBooleanBinaryOperation { left: e.left.duplicate(), operator: e.operator, right: e.right.duplicate() },
            ),
            LogicBooleanExpression::AndExpression(e) => {
                let clauses = parsed_conditions(&e.clauses);
                LogicBooleanExpression::AndExpression(LogicAndExpression { clauses })
            },
            LogicBooleanExpression::OrExpression(e) => {
                let clauses = parsed_conditions(&e.clauses);
                LogicBooleanExpression::OrExpression(LogicOrExpression { clauses })
            },
            LogicBooleanExpression::NotExpression(e) => LogicBooleanExpression::NotExpression(
                LogicNotExpression { expression: Box::new(e.expression.to_parsed()) },
            ),
            LogicBooleanExpression::TestCall(e) => {
                let mut args: Vec<ParsedLogicArgument> = Vec::new();
                let mut i: usize = 0;
                while i < e.argument_list.len()
                    invariant
                        0 <= i <= e.argument_list@.len(),
                        parsed_arguments_view(args@) == parsed_arguments_view(e.argument_list@.take(i as int)),
                    decreases e.argument_list@.len() - i,
                {
                    let ghost before = args@;
                    args.push(e.argument_list[i].duplicate());
                    proof {
                        assert(parsed_arguments_view(args@) =~= parsed_arguments_view(before).push(
                            e.argument_list@[i as int]@,
                        ));
                        assert(parsed_arguments_view(e.argument_list@.take(i + 1)) =~= parsed_arguments_view(
                            e.argument_list@.take(i as int),
                        ).push(e.argument_list@[i as int]@));
                    }
                    i = i + 1;
                }
                proof {
                    assert(e.argument_list@.take(i as int) =~= e.argument_list@);
                }
                LogicBooleanExpression::TestCall(LogicTestCall { test_name: e.test_name.clone(), argument_list: args })
            },
            LogicBooleanExpression::Identifier(i) => LogicBooleanExpression::Identifier(
                LogicIdentifier { name: i.name.clone() },
            ),
        }
    }
}

/// Copies of conditions.
fn parsed_conditions(cs: &Vec<LogicBooleanExpression<ParsedLogicArgument>>) -> (r: Vec<
    LogicBooleanExpression<ParsedLogicArgument>,
>)
    ensures
        condition_expressions_view(r@) == condition_expressions_view(cs@),
    decreases cs,
{
    let mut r: Vec<LogicBooleanExpression<ParsedLogicArgument>> = Vec::new();
    let mut i: usize = 0;
    proof {
        lemma_condition_expressions_view(cs@);
    }
    while i < cs.len()
        invariant
            0 <= i <= cs@.len(),
            condition_expressions_view(r@) == condition_expressions_view(cs@.take(i as int)),
        decreases cs@.len() - i,
    {
        proof {
            assert(decreases_to!(cs => cs@[i as int]));
        }
        let c = cs[i].to_parsed();
        proof {
            lemma_condition_expressions_view_push(r@, c);
            assert(cs@.take(i + 1) =~= cs@.take(i as int).push(cs@[i as int]));
            lemma_condition_expressions_view_push(cs@.take(i as int), cs@[i as int]);
        }
        r.push(c);
        i = i + 1;
    }
    proof {
        assert(cs@.take(i as int) =~= cs@);
    }
    r
}

} // verus!
