use vstd::prelude::*;

use crate::logic::assembly::expressions::{ArgumentMeaning, AsmConditionView, LogicIdentifier, ParsedLogicArgument};
use crate::logic::assembly::literals::{LogicLiteral, LogicLiteralValue, LogicNumberLiteral};
use crate::logic::logic_script::directives::{
    DefineValueView, Directive, DirectiveType, DirectiveView, LogicScriptDefineValue, LogicScriptDirective,
    LogicScriptDirectiveKeyword,
};
use crate::logic::logic_script::literals::{LiteralView, LogicScriptLiteral};
use crate::logic::logic_script::locations::{location_range, WithLocation};
use crate::logic::logic_script::operators::{LogicScriptArithmeticOperator, LogicScriptUnaryAssignmentOperator};
use crate::logic::logic_script::parsing::conditions::{expression_view, parenthesized, parenthesized_at};
use crate::logic::logic_script::parsing::lexical::{
    char_at, char_is, comment, comment_at, decimal_literal, decimal_literal_at, identifier, identifier_at,
    keyword_at, keyword_is, numeric_literal, numeric_literal_at, text_at, text_is, white_space_end,
    read_with, white_space_end_at, wsc_end, wsc_end_at, Panicked, Parse,
};
use crate::logic::logic_script::parsing::values::{
    command_call, command_call_at, literal, literal_at, string_literal, string_literal_at,
};
use crate::logic::logic_script::statements::{
    lemma_statements_view, statement_body_view, statement_view, statements_view, KeywordType,
    LogicScriptArithmeticAssignmentStatement, LogicScriptComment, LogicScriptIfStatement, LogicScriptKeyword,
    LogicScriptLeftIndirectAssignmentStatement, LogicScriptRightIndirectAssignmentStatement, LogicScriptStatement,
    LogicScriptStatementBody, LogicScriptUnaryOperationStatement, LogicScriptValueAssignmentStatement,
    StatementBodyView, StatementView, StatementWithOrWithoutLocation,
};

verus! {

/// A statement read, with the span it was read from.
pub type LocatedStatementView = (StatementView, int, int);

/// A label before a statement: a name and `:`.
pub open spec fn label(s: Seq<char>, p: int) -> Option<(Seq<char>, int)> {
    match identifier(s, p) {
        Some((name, e)) => if char_at(s, e, ':') {
            Some((name, e + 1))
        } else {
            None
        },
        None => None,
    }
}

/// The end of the spaces from `q` on.
pub open spec fn spaces_end(s: Seq<char>, q: int) -> int
    decreases s.len() - q,
{
    if char_at(s, q, ' ') {
        spaces_end(s, q + 1)
    } else {
        q
    }
}

/// At least one space at `q`: the position after the spaces.
pub open spec fn spaces(s: Seq<char>, q: int) -> Option<int> {
    if char_at(s, q, ' ') {
        Some(spaces_end(s, q + 1))
    } else {
        None
    }
}

pub open spec fn message_keyword() -> Seq<char> {
    seq!['#', 'm', 'e', 's', 's', 'a', 'g', 'e']
}

pub open spec fn include_keyword() -> Seq<char> {
    seq!['#', 'i', 'n', 'c', 'l', 'u', 'd', 'e']
}

pub open spec fn define_keyword() -> Seq<char> {
    seq!['#', 'd', 'e', 'f', 'i', 'n', 'e']
}

pub open spec fn directive_statement(kind: DirectiveType, d: DirectiveView) -> StatementBodyView {
    StatementBodyView::Directive(LogicScriptDirectiveKeyword { keyword: kind }, d)
}

pub open spec fn define_statement(identifier: Seq<char>, value: DefineValueView) -> StatementBodyView {
    directive_statement(DirectiveType::Define, DirectiveView::Define { identifier, value })
}

/// `#message`, spaces, the number, spaces, the text.
pub open spec fn message_directive(s: Seq<char>, p: int) -> Parse<StatementBodyView> {
    if keyword_at(s, p, message_keyword()) {
        match spaces(s, p + 8) {
            Some(q) => match decimal_literal(s, q) {
                Parse::Matched(n, e) => match spaces(s, e) {
                    Some(t) => match string_literal(s, t) {
                        Some((parts, f)) => Parse::Matched(
                            directive_statement(DirectiveType::Message, DirectiveView::Message { number: n, message: parts }),
                            f,
                        ),
                        None => Parse::Unmatched,
                    },
                    None => Parse::Unmatched,
                },
                Parse::Unmatched => Parse::Unmatched,
                Parse::Panics => Parse::Panics,
            },
            None => Parse::Unmatched,
        }
    } else {
        Parse::Unmatched
    }
}

/// `#include`, spaces, the file's name.
pub open spec fn include_directive(s: Seq<char>, p: int) -> Option<(StatementBodyView, int)> {
    if keyword_at(s, p, include_keyword()) {
        match spaces(s, p + 8) {
            Some(q) => match string_literal(s, q) {
                Some((parts, f)) => Some(
                    (directive_statement(DirectiveType::Include, DirectiveView::Include { filename: parts }), f),
                ),
                None => None,
            },
            None => None,
        }
    } else {
        None
    }
}

/// `#define`, spaces, the name, spaces, then a name or a literal.
pub open spec fn define_directive(s: Seq<char>, p: int) -> Parse<StatementBodyView> {
    if keyword_at(s, p, define_keyword()) {
        match spaces(s, p + 7) {
            Some(q) => match identifier(s, q) {
                Some((name, e)) => match spaces(s, e) {
                    Some(t) => match identifier(s, t) {
                        Some((value, f)) => Parse::Matched(
                            define_statement(name, DefineValueView::Identifier(value)),
                            f,
                        ),
                        None => match literal(s, t) {
                            Parse::Matched(l, f) => Parse::Matched(
                                define_statement(name, DefineValueView::Literal(l)),
                                f,
                            ),
                            Parse::Unmatched => Parse::Unmatched,
                            Parse::Panics => Parse::Panics,
                        },
                    },
                    None => Parse::Unmatched,
                },
                None => Parse::Unmatched,
            },
            None => Parse::Unmatched,
        }
    } else {
        Parse::Unmatched
    }
}

/// `;` after spacing: the position after it.
pub open spec fn semicolon(s: Seq<char>, q: int) -> Option<int> {
    let t = wsc_end(s, q);
    if char_at(s, t, ';') {
        Some(t + 1)
    } else {
        None
    }
}

/// `=` after spacing, and the spacing after it: the position after both.
pub open spec fn equals(s: Seq<char>, q: int) -> Option<int> {
    let t = wsc_end(s, q);
    if char_at(s, t, '=') {
        Some(wsc_end(s, t + 1))
    } else {
        None
    }
}

/// A name followed by `++` or `--`, then `;`.
pub open spec fn unary_operation(s: Seq<char>, p: int) -> Option<(StatementBodyView, int)> {
    match identifier(s, p) {
        Some((name, e)) => {
            let q = wsc_end(s, e);
            let op = if text_at(s, q, seq!['+', '+']) {
                Some(LogicScriptUnaryAssignmentOperator::Increment)
            } else if text_at(s, q, seq!['-', '-']) {
                Some(LogicScriptUnaryAssignmentOperator::Decrement)
            } else {
                None
            };
            match op {
                Some(o) => match semicolon(s, q + 2) {
                    Some(f) => Some((StatementBodyView::UnaryOperation { operation: o, identifier: name }, f)),
                    None => None,
                },
                None => None,
            }
        },
        None => None,
    }
}

/// A value that arithmetic takes: a name, else a number.
pub open spec fn numeric_argument(s: Seq<char>, p: int) -> Parse<ArgumentMeaning> {
    match identifier(s, p) {
        Some((name, e)) => Parse::Matched(ArgumentMeaning::Name(name), e),
        None => match numeric_literal(s, p) {
            Parse::Matched(n, e) => Parse::Matched(ArgumentMeaning::Number(n), e),
            Parse::Unmatched => Parse::Unmatched,
            Parse::Panics => Parse::Panics,
        },
    }
}

/// A name, `=`, a value and `;`.
pub open spec fn value_assignment(s: Seq<char>, p: int) -> Parse<StatementBodyView> {
    match identifier(s, p) {
        Some((name, e)) => match equals(s, e) {
            Some(q) => match numeric_argument(s, q) {
                Parse::Matched(v, f) => match semicolon(s, f) {
                    Some(g) => Parse::Matched(StatementBodyView::ValueAssignment { assignee: name, value: v }, g),
                    None => Parse::Unmatched,
                },
                Parse::Unmatched => Parse::Unmatched,
                Parse::Panics => Parse::Panics,
            },
            None => Parse::Unmatched,
        },
        None => Parse::Unmatched,
    }
}

pub open spec fn arithmetic_operator(s: Seq<char>, p: int) -> Option<(LogicScriptArithmeticOperator, int)> {
    if char_at(s, p, '+') {
        Some((LogicScriptArithmeticOperator::Add, p + 1))
    } else if char_at(s, p, '-') {
        Some((LogicScriptArithmeticOperator::Subtract, p + 1))
    } else if char_at(s, p, '*') {
        Some((LogicScriptArithmeticOperator::Multiply, p + 1))
    } else if char_at(s, p, '/') {
        Some((LogicScriptArithmeticOperator::Divide, p + 1))
    } else {
        None
    }
}

/// The assignee's name again at `q`. Reading it takes as many characters
/// as the name has, and panics where the script has fewer left.
pub open spec fn name_again(s: Seq<char>, q: int, name: Seq<char>) -> Parse<()> {
    if q + name.len() > s.len() {
        Parse::Panics
    } else if s.subrange(q, q + name.len()) == name {
        Parse::Matched((), q + name.len())
    } else {
        Parse::Unmatched
    }
}

pub open spec fn arithmetic_view(
    operator: LogicScriptArithmeticOperator,
    assignee: Seq<char>,
    value: ArgumentMeaning,
) -> StatementBodyView {
    StatementBodyView::ArithmeticAssignment { operator, assignee, value }
}

/// `a = a op value;`
pub open spec fn long_arithmetic_left(s: Seq<char>, p: int) -> Parse<StatementBodyView> {
    match identifier(s, p) {
        Some((name, e)) => match equals(s, e) {
            Some(q) => match name_again(s, q, name) {
                Parse::Matched(_, r) => match arithmetic_operator(s, wsc_end(s, r)) {
                    Some((o, t)) => match numeric_argument(s, wsc_end(s, t)) {
                        Parse::Matched(v, f) => match semicolon(s, f) {
                            Some(g) => Parse::Matched(arithmetic_view(o, name, v), g),
                            None => Parse::Unmatched,
                        },
                        Parse::Unmatched => Parse::Unmatched,
                        Parse::Panics => Parse::Panics,
                    },
                    None => Parse::Unmatched,
                },
                Parse::Unmatched => Parse::Unmatched,
                Parse::Panics => Parse::Panics,
            },
            None => Parse::Unmatched,
        },
        None => Parse::Unmatched,
    }
}

/// `a = value op a;`
pub open spec fn long_arithmetic_right(s: Seq<char>, p: int) -> Parse<StatementBodyView> {
    match identifier(s, p) {
        Some((name, e)) => match equals(s, e) {
            Some(q) => match numeric_argument(s, q) {
                Parse::Matched(v, f) => match arithmetic_operator(s, wsc_end(s, f)) {
                    Some((o, t)) => match name_again(s, wsc_end(s, t), name) {
                        Parse::Matched(_, r) => match semicolon(s, r) {
                            Some(g) => Parse::Matched(arithmetic_view(o, name, v), g),
                            None => Parse::Unmatched,
                        },
                        Parse::Unmatched => Parse::Unmatched,
                        Parse::Panics => Parse::Panics,
                    },
                    None => Parse::Unmatched,
                },
                Parse::Unmatched => Parse::Unmatched,
                Parse::Panics => Parse::Panics,
            },
            None => Parse::Unmatched,
        },
        None => Parse::Unmatched,
    }
}

/// `a op= value;`
pub open spec fn short_arithmetic(s: Seq<char>, p: int) -> Parse<StatementBodyView> {
    match identifier(s, p) {
        Some((name, e)) => match arithmetic_operator(s, wsc_end(s, e)) {
            Some((o, r)) => if char_at(s, r, '=') {
                match numeric_argument(s, wsc_end(s, r + 1)) {
                    Parse::Matched(v, f) => match semicolon(s, f) {
                        Some(g) => Parse::Matched(arithmetic_view(o, name, v), g),
                        None => Parse::Unmatched,
                    },
                    Parse::Unmatched => Parse::Unmatched,
                    Parse::Panics => Parse::Panics,
                }
            } else {
                Parse::Unmatched
            },
            None => Parse::Unmatched,
        },
        None => Parse::Unmatched,
    }
}

/// An arithmetic assignment, in one of its three forms.
pub open spec fn arithmetic_assignment(s: Seq<char>, p: int) -> Parse<StatementBodyView> {
    match long_arithmetic_left(s, p) {
        Parse::Unmatched => match long_arithmetic_right(s, p) {
            Parse::Unmatched => short_arithmetic(s, p),
            other => other,
        },
        other => other,
    }
}

/// `*pointer = value;`
pub open spec fn left_indirect_assignment(s: Seq<char>, p: int) -> Parse<StatementBodyView> {
    if char_at(s, p, '*') {
        match identifier(s, wsc_end(s, p + 1)) {
            Some((name, e)) => match equals(s, e) {
                Some(q) => match numeric_argument(s, q) {
                    Parse::Matched(v, f) => match semicolon(s, f) {
                        Some(g) => Parse::Matched(
                            StatementBodyView::LeftIndirectAssignment { assignee_pointer: name, value: v },
                            g,
                        ),
                        None => Parse::Unmatched,
                    },
                    Parse::Unmatched => Parse::Unmatched,
                    Parse::Panics => Parse::Panics,
                },
                None => Parse::Unmatched,
            },
            None => Parse::Unmatched,
        }
    } else {
        Parse::Unmatched
    }
}

/// `name = *pointer;`
pub open spec fn right_indirect_assignment(s: Seq<char>, p: int) -> Option<(StatementBodyView, int)> {
    match identifier(s, p) {
        Some((name, e)) => match equals(s, e) {
            Some(q) => if char_at(s, q, '*') {
                match identifier(s, wsc_end(s, q + 1)) {
                    Some((pointer, f)) => match semicolon(s, f) {
                        Some(g) => Some(
                            (StatementBodyView::RightIndirectAssignment { assignee: name, value_pointer: pointer }, g),
                        ),
                        None => None,
                    },
                    None => None,
                }
            } else {
                None
            },
            None => None,
        },
        None => None,
    }
}

pub open spec fn else_keyword() -> Seq<char> {
    seq!['e', 'l', 's', 'e']
}

pub open spec fn first_of(l: Seq<LocatedStatementView>) -> Seq<StatementView> {
    l.map_values(|x: LocatedStatementView| x.0)
}

/// A block: `{`, spacing, statements, spacing, `}`.
pub open spec fn block(s: Seq<char>, q: int) -> Parse<Seq<LocatedStatementView>>
    decreases s.len() - q, 0int,
{
    if char_at(s, q, '{') {
        let u = wsc_end(s, q + 1);
        if q < u <= s.len() {
            match statement_list(s, u) {
                Parse::Matched(l, f) => {
                    let g = wsc_end(s, f);
                    if char_at(s, g, '}') {
                        Parse::Matched(l, g + 1)
                    } else {
                        Parse::Unmatched
                    }
                },
                other => other,
            }
        } else {
            Parse::Unmatched
        }
    } else {
        Parse::Unmatched
    }
}

/// `if`, a condition in parentheses, a block, and perhaps `else` and a block.
pub open spec fn if_statement(s: Seq<char>, p: int) -> Parse<StatementBodyView>
    decreases s.len() - p, 1int,
{
    if keyword_at(s, p, seq!['i', 'f']) {
        match parenthesized(s, wsc_end(s, p + 2)) {
            Parse::Matched(c, r) => {
                let t = wsc_end(s, r);
                if p < t <= s.len() {
                    match block(s, t) {
                        Parse::Matched(then_list, h) => {
                            let x = wsc_end(s, h);
                            let else_part = if keyword_at(s, x, else_keyword()) {
                                let y = wsc_end(s, x + 4);
                                if p < y <= s.len() {
                                    block(s, y)
                                } else {
                                    Parse::Unmatched
                                }
                            } else {
                                Parse::Unmatched
                            };
                            match else_part {
                                Parse::Matched(else_list, k) => Parse::Matched(
                                    StatementBodyView::If {
                                        conditions: c,
                                        then_statements: first_of(then_list),
                                        else_statements: first_of(else_list),
                                        if_keyword: LogicScriptKeyword { keyword: KeywordType::If },
                                        else_keyword: Some(LogicScriptKeyword { keyword: KeywordType::Else }),
                                    },
                                    k,
                                ),
                                Parse::Unmatched => Parse::Matched(
                                    StatementBodyView::If {
                                        conditions: c,
                                        then_statements: first_of(then_list),
                                        else_statements: Seq::empty(),
                                        if_keyword: LogicScriptKeyword { keyword: KeywordType::If },
                                        else_keyword: None,
                                    },
                                    h,
                                ),
                                Parse::Panics => Parse::Panics,
                            }
                        },
                        Parse::Unmatched => Parse::Unmatched,
                        Parse::Panics => Parse::Panics,
                    }
                } else {
                    Parse::Unmatched
                }
            },
            Parse::Unmatched => Parse::Unmatched,
            Parse::Panics => Parse::Panics,
        }
    } else {
        Parse::Unmatched
    }
}

/// The body of a statement: a comment, a directive, a command call, an
/// `if`, or one of the assignments, tried in that order.
pub open spec fn statement_body(s: Seq<char>, p: int) -> Parse<StatementBodyView>
    decreases s.len() - p, 2int,
{
    match comment(s, p) {
        Some((text, e)) => Parse::Matched(StatementBodyView::Comment(text), e),
        None => match message_directive(s, p) {
            Parse::Unmatched => match include_directive(s, p) {
                Some((d, e)) => Parse::Matched(d, e),
                None => match define_directive(s, p) {
                    Parse::Unmatched => match command_call(s, p) {
                        Parse::Matched((name, args), e) => Parse::Matched(
                            StatementBodyView::CommandCall { name, args },
                            e,
                        ),
                        Parse::Panics => Parse::Panics,
                        Parse::Unmatched => match if_statement(s, p) {
                            Parse::Unmatched => assignment_statement(s, p),
                            other => other,
                        },
                    },
                    other => other,
                },
            },
            other => other,
        },
    }
}

/// The statements that change a variable.
pub open spec fn assignment_statement(s: Seq<char>, p: int) -> Parse<StatementBodyView> {
    match unary_operation(s, p) {
        Some((b, e)) => Parse::Matched(b, e),
        None => match value_assignment(s, p) {
            Parse::Unmatched => match arithmetic_assignment(s, p) {
                Parse::Unmatched => match left_indirect_assignment(s, p) {
                    Parse::Unmatched => match right_indirect_assignment(s, p) {
                        Some((b, e)) => Parse::Matched(b, e),
                        None => Parse::Unmatched,
                    },
                    other => other,
                },
                other => other,
            },
            other => other,
        },
    }
}

/// A statement: perhaps a label and white space, then a body.
pub open spec fn statement(s: Seq<char>, p: int) -> Parse<StatementView>
    decreases s.len() - p, 3int,
{
    match label(s, p) {
        Some((l, e)) => {
            let q = white_space_end(s, e);
            if p < q <= s.len() {
                match statement_body(s, q) {
                    Parse::Matched(b, f) => Parse::Matched(StatementView { body: b, label: Some(l) }, f),
                    Parse::Unmatched => Parse::Unmatched,
                    Parse::Panics => Parse::Panics,
                }
            } else {
                Parse::Unmatched
            }
        },
        None => match statement_body(s, p) {
            Parse::Matched(b, f) => Parse::Matched(StatementView { body: b, label: None }, f),
            Parse::Unmatched => Parse::Unmatched,
            Parse::Panics => Parse::Panics,
        },
    }
}

/// Further statements after `acc`, each after white space.
pub open spec fn more_statements(s: Seq<char>, e: int, acc: Seq<LocatedStatementView>) -> Parse<
    Seq<LocatedStatementView>,
>
    decreases s.len() - e, 4int,
{
    let q = white_space_end(s, e);
    if e <= q <= s.len() {
        match statement(s, q) {
            Parse::Matched(st, f) => if q < f <= s.len() {
                more_statements(s, f, acc.push((st, q, f)))
            } else {
                Parse::Matched(acc, e)
            },
            Parse::Unmatched => Parse::Matched(acc, e),
            Parse::Panics => Parse::Panics,
        }
    } else {
        Parse::Matched(acc, e)
    }
}

/// One or more statements, separated by white space.
pub open spec fn statement_list(s: Seq<char>, p: int) -> Parse<Seq<LocatedStatementView>>
    decreases s.len() - p, 5int,
{
    match statement(s, p) {
        Parse::Matched(st, e) => if p < e <= s.len() {
            more_statements(s, e, seq![(st, p, e)])
        } else {
            Parse::Unmatched
        },
        Parse::Unmatched => Parse::Unmatched,
        Parse::Panics => Parse::Panics,
    }
}

/// How reading a whole script ends: its statements, the position where
/// reading stopped short of the end, or a panic.
pub enum ProgramParse {
    Parsed(Seq<LocatedStatementView>),
    StoppedAt(int),
    Panics,
}

/// A script: white space, statements, white space, and nothing more.
pub open spec fn program(s: Seq<char>) -> ProgramParse {
    let p0 = white_space_end(s, 0);
    match statement_list(s, p0) {
        Parse::Matched(l, e) => {
            let q = white_space_end(s, e);
            if q == s.len() {
                ProgramParse::Parsed(l)
            } else {
                ProgramParse::StoppedAt(q)
            }
        },
        Parse::Unmatched => ProgramParse::StoppedAt(p0),
        Parse::Panics => ProgramParse::Panics,
    }
}

pub open spec fn body_view(b: LogicScriptStatementBody<ParsedLogicArgument>) -> StatementBodyView {
    statement_body_view(b)
}

/// `r` is what the reading `sp` of an optional rule describes.
pub open spec fn read_as(r: Option<(LogicScriptStatementBody<ParsedLogicArgument>, usize)>, sp: Option<(StatementBodyView, int)>) -> bool {
    match sp {
        Some((v, q)) => r matches Some((x, e)) && body_view(x) == v && e == q,
        None => r is None,
    }
}

/// A statement body read at a position, if one stands there, or a panic.
pub type BodyRead = Result<Option<(LogicScriptStatementBody<ParsedLogicArgument>, usize)>, Panicked>;

/// `r` is the position that the reading `sp` ends at, if any.
pub open spec fn ends_as(r: Option<usize>, sp: Option<int>) -> bool {
    match sp {
        Some(q) => r matches Some(x) && x == q,
        None => r is None,
    }
}

fn label_at(s: &[char], p: usize) -> (r: Option<(String, usize)>)
    ensures
        match label(s@, p as int) {
            Some((l, q)) => r matches Some((x, e)) && x@ == l && e == q,
            None => r is None,
        },
{
    let _len = s.len();
    match identifier_at(s, p) {
        Some((name, e)) => if char_is(s, e, ':') {
            Some((name, e + 1))
        } else {
            None
        },
        None => None,
    }
}

fn spaces_at(s: &[char], q: usize) -> (r: Option<usize>)
    ensures
        ends_as(r, spaces(s@, q as int)),
{
    let _len = s.len();
    if !char_is(s, q, ' ') {
        return None;
    }
    let mut e = q + 1;
    while char_is(s, e, ' ')
        invariant
            q < e <= s@.len(),
            s@.len() <= usize::MAX,
            spaces_end(s@, q + 1) == spaces_end(s@, e as int),
        decreases s@.len() - e,
    {
        e = e + 1;
    }
    Some(e)
}

fn semicolon_at(s: &[char], q: usize) -> (r: Option<usize>)
    ensures
        ends_as(r, semicolon(s@, q as int)),
{
    let _len = s.len();
    let t = wsc_end_at(s, q);
    if char_is(s, t, ';') {
        Some(t + 1)
    } else {
        None
    }
}

fn equals_at(s: &[char], q: usize) -> (r: Option<usize>)
    ensures
        ends_as(r, equals(s@, q as int)),
{
    let _len = s.len();
    let t = wsc_end_at(s, q);
    if char_is(s, t, '=') {
        Some(wsc_end_at(s, t + 1))
    } else {
        None
    }
}

fn directive_body(directive: Directive, keyword: DirectiveType) -> (r: LogicScriptStatementBody<ParsedLogicArgument>)
    ensures
        r == LogicScriptStatementBody::<ParsedLogicArgument>::Directive(
            LogicScriptDirective { directive, keyword: LogicScriptDirectiveKeyword { keyword } },
        ),
{
    LogicScriptStatementBody::Directive(LogicScriptDirective { directive, keyword: LogicScriptDirectiveKeyword { keyword } })
}

fn message_directive_at(s: &[char], p: usize) -> (r: BodyRead)
    ensures
        read_with(r, message_directive(s@, p as int), |b: LogicScriptStatementBody<ParsedLogicArgument>| body_view(b)),
{
    let _len = s.len();
    assert(['#', 'm', 'e', 's', 's', 'a', 'g', 'e']@ =~= message_keyword());
    if !keyword_is(s, p, &['#', 'm', 'e', 's', 's', 'a', 'g', 'e']) {
        return Ok(None);
    }
    let q = match spaces_at(s, p + 8) {
        Some(q) => q,
        None => {
            return Ok(None);
        },
    };
    let (n, e) = match decimal_literal_at(s, q)? {
        Some(x) => x,
        None => {
            return Ok(None);
        },
    };
    let t = match spaces_at(s, e) {
        Some(t) => t,
        None => {
            return Ok(None);
        },
    };
    match string_literal_at(s, t) {
        Some((message, f)) => Ok(Some((
            directive_body(Directive::Message { number: LogicNumberLiteral { value: n }, message }, DirectiveType::Message),
            f,
        ))),
        None => Ok(None),
    }
}

fn include_directive_at(s: &[char], p: usize) -> (r: Option<(LogicScriptStatementBody<ParsedLogicArgument>, usize)>)
    ensures
        read_as(r, include_directive(s@, p as int)),
{
    let _len = s.len();
    assert(['#', 'i', 'n', 'c', 'l', 'u', 'd', 'e']@ =~= include_keyword());
    if !keyword_is(s, p, &['#', 'i', 'n', 'c', 'l', 'u', 'd', 'e']) {
        return None;
    }
    let q = match spaces_at(s, p + 8) {
        Some(q) => q,
        None => {
            return None;
        },
    };
    match string_literal_at(s, q) {
        Some((filename, f)) => Some((directive_body(Directive::Include { filename }, DirectiveType::Include), f)),
        None => None,
    }
}

fn define_directive_at(s: &[char], p: usize) -> (r: BodyRead)
    ensures
        read_with(r, define_directive(s@, p as int), |b: LogicScriptStatementBody<ParsedLogicArgument>| body_view(b)),
{
    let _len = s.len();
    assert(['#', 'd', 'e', 'f', 'i', 'n', 'e']@ =~= define_keyword());
    if !keyword_is(s, p, &['#', 'd', 'e', 'f', 'i', 'n', 'e']) {
        return Ok(None);
    }
    let q = match spaces_at(s, p + 7) {
        Some(q) => q,
        None => {
            return Ok(None);
        },
    };
    let (name, e) = match identifier_at(s, q) {
        Some(x) => x,
        None => {
            return Ok(None);
        },
    };
    let t = match spaces_at(s, e) {
        Some(t) => t,
        None => {
            return Ok(None);
        },
    };
    let identifier = LogicIdentifier { name };
    match identifier_at(s, t) {
        Some((value, f)) => Ok(Some((
            directive_body(
                Directive::Define { identifier, value: LogicScriptDefineValue::Identifier(LogicIdentifier { name: value }) },
                DirectiveType::Define,
            ),
            f,
        ))),
        None => match literal_at(s, t)? {
            Some((l, f)) => Ok(Some((
                directive_body(
                    Directive::Define { identifier, value: LogicScriptDefineValue::Literal(l) },
                    DirectiveType::Define,
                ),
                f,
            ))),
            None => Ok(None),
        },
    }
}

fn numeric_argument_at(s: &[char], p: usize) -> (r: Result<Option<(ParsedLogicArgument, usize)>, Panicked>)
    ensures
        read_with(r, numeric_argument(s@, p as int), |a: ParsedLogicArgument| a@),
{
    match identifier_at(s, p) {
        Some((name, e)) => Ok(Some((ParsedLogicArgument::Identifier(LogicIdentifier { name }), e))),
        None => match numeric_literal_at(s, p)? {
            Some((n, e)) => Ok(Some((
                ParsedLogicArgument::Literal(
                    LogicLiteral { value: LogicLiteralValue::Number(LogicNumberLiteral { value: n }) },
                ),
                e,
            ))),
            None => Ok(None),
        },
    }
}

fn unary_operation_at(s: &[char], p: usize) -> (r: Option<(LogicScriptStatementBody<ParsedLogicArgument>, usize)>)
    ensures
        read_as(r, unary_operation(s@, p as int)),
{
    let _len = s.len();
    let (name, e) = match identifier_at(s, p) {
        Some(x) => x,
        None => {
            return None;
        },
    };
    let q = wsc_end_at(s, e);
    assert(['+', '+']@ =~= seq!['+', '+']);
    assert(['-', '-']@ =~= seq!['-', '-']);
    let operation = if text_is(s, q, &['+', '+']) {
        LogicScriptUnaryAssignmentOperator::Increment
    } else if text_is(s, q, &['-', '-']) {
        LogicScriptUnaryAssignmentOperator::Decrement
    } else {
        return None;
    };
    match semicolon_at(s, q + 2) {
        Some(f) => Some((
            LogicScriptStatementBody::UnaryOperation(
                LogicScriptUnaryOperationStatement { operation, identifier: LogicIdentifier { name } },
            ),
            f,
        )),
        None => None,
    }
}

fn value_assignment_at(s: &[char], p: usize) -> (r: BodyRead)
    ensures
        read_with(r, value_assignment(s@, p as int), |b: LogicScriptStatementBody<ParsedLogicArgument>| body_view(b)),
{
    let (name, e) = match identifier_at(s, p) {
        Some(x) => x,
        None => {
            return Ok(None);
        },
    };
    let q = match equals_at(s, e) {
        Some(q) => q,
        None => {
            return Ok(None);
        },
    };
    let (value, f) = match numeric_argument_at(s, q)? {
        Some(x) => x,
        None => {
            return Ok(None);
        },
    };
    match semicolon_at(s, f) {
        Some(g) => Ok(Some((
            LogicScriptStatementBody::ValueAssignment(
                LogicScriptValueAssignmentStatement { assignee: LogicIdentifier { name }, value },
            ),
            g,
        ))),
        None => Ok(None),
    }
}

fn arithmetic_operator_at(s: &[char], p: usize) -> (r: Option<(LogicScriptArithmeticOperator, usize)>)
    ensures
        match arithmetic_operator(s@, p as int) {
            Some((o, q)) => r matches Some((x, e)) && x == o && e == q,
            None => r is None,
        },
{
    let _len = s.len();
    if char_is(s, p, '+') {
        Some((LogicScriptArithmeticOperator::Add, p + 1))
    } else if char_is(s, p, '-') {
        Some((LogicScriptArithmeticOperator::Subtract, p + 1))
    } else if char_is(s, p, '*') {
        Some((LogicScriptArithmeticOperator::Multiply, p + 1))
    } else if char_is(s, p, '/') {
        Some((LogicScriptArithmeticOperator::Divide, p + 1))
    } else {
        None
    }
}

/// Whether the characters from `a` to `b` stand again at `q`.
fn name_again_at(s: &[char], q: usize, a: usize, b: usize) -> (r: Result<Option<usize>, Panicked>)
    requires
        a <= b <= s@.len(),
    ensures
        match name_again(s@, q as int, s@.subrange(a as int, b as int)) {
            Parse::Matched(_, e) => r matches Ok(Some(x)) && x == e,
            Parse::Unmatched => r matches Ok(None),
            Parse::Panics => r is Err,
        },
{
    let _len = s.len();
    let n = b - a;
    if q > s.len() || s.len() - q < n {
        return Err(Panicked);
    }
    let ghost name = s@.subrange(a as int, b as int);
    let mut k: usize = 0;
    while k < n
        invariant
            a <= b <= s@.len(),
            name == s@.subrange(a as int, b as int),
            s@.len() <= usize::MAX,
            n == b - a,
            q + n <= s@.len(),
            0 <= k <= n,
            s@.subrange(q as int, q + k) == name.subrange(0, k as int),
        decreases n - k,
    {
        if s[q + k] != s[a + k] {
            assert(s@.subrange(q as int, q + n)[k as int] != name[k as int]);
            return Ok(None);
        }
        k = k + 1;
        assert(s@.subrange(q as int, q + k) =~= name.subrange(0, k as int));
    }
    assert(name.subrange(0, n as int) =~= name);
    Ok(Some(q + n))
}

fn arithmetic_body(
    operator: LogicScriptArithmeticOperator,
    name: String,
    value: ParsedLogicArgument,
) -> (r: LogicScriptStatementBody<ParsedLogicArgument>)
    ensures
        body_view(r) == arithmetic_view(operator, name@, value@),
{
    LogicScriptStatementBody::ArithmeticAssignment(
        LogicScriptArithmeticAssignmentStatement { operator, assignee: LogicIdentifier { name }, value },
    )
}

fn long_arithmetic_left_at(s: &[char], p: usize) -> (r: BodyRead)
    ensures
        read_with(
            r,
            long_arithmetic_left(s@, p as int),
            |b: LogicScriptStatementBody<ParsedLogicArgument>| body_view(b),
        ),
{
    let (name, e) = match identifier_at(s, p) {
        Some(x) => x,
        None => {
            return Ok(None);
        },
    };
    let q = match equals_at(s, e) {
        Some(q) => q,
        None => {
            return Ok(None);
        },
    };
    let r = match name_again_at(s, q, p, e)? {
        Some(r) => r,
        None => {
            return Ok(None);
        },
    };
    let (operator, t) = match arithmetic_operator_at(s, wsc_end_at(s, r)) {
        Some(x) => x,
        None => {
            return Ok(None);
        },
    };
    let (value, f) = match numeric_argument_at(s, wsc_end_at(s, t))? {
        Some(x) => x,
        None => {
            return Ok(None);
        },
    };
    match semicolon_at(s, f) {
        Some(g) => Ok(Some((arithmetic_body(operator, name, value), g))),
        None => Ok(None),
    }
}

fn long_arithmetic_right_at(s: &[char], p: usize) -> (r: BodyRead)
    ensures
        read_with(
            r,
            long_arithmetic_right(s@, p as int),
            |b: LogicScriptStatementBody<ParsedLogicArgument>| body_view(b),
        ),
{
    let (name, e) = match identifier_at(s, p) {
        Some(x) => x,
        None => {
            return Ok(None);
        },
    };
    let q = match equals_at(s, e) {
        Some(q) => q,
        None => {
            return Ok(None);
        },
    };
    let (value, f) = match numeric_argument_at(s, q)? {
        Some(x) => x,
        None => {
            return Ok(None);
        },
    };
    let (operator, t) = match arithmetic_operator_at(s, wsc_end_at(s, f)) {
        Some(x) => x,
        None => {
            return Ok(None);
        },
    };
    let r = match name_again_at(s, wsc_end_at(s, t), p, e)? {
        Some(r) => r,
        None => {
            return Ok(None);
        },
    };
    match semicolon_at(s, r) {
        Some(g) => Ok(Some((arithmetic_body(operator, name, value), g))),
        None => Ok(None),
    }
}

fn short_arithmetic_at(s: &[char], p: usize) -> (r: BodyRead)
    ensures
        read_with(r, short_arithmetic(s@, p as int), |b: LogicScriptStatementBody<ParsedLogicArgument>| body_view(b)),
{
    let _len = s.len();
    let (name, e) = match identifier_at(s, p) {
        Some(x) => x,
        None => {
            return Ok(None);
        },
    };
    let (operator, r) = match arithmetic_operator_at(s, wsc_end_at(s, e)) {
        Some(x) => x,
        None => {
            return Ok(None);
        },
    };
    if !char_is(s, r, '=') {
        return Ok(None);
    }
    let (value, f) = match numeric_argument_at(s, wsc_end_at(s, r + 1))? {
        Some(x) => x,
        None => {
            return Ok(None);
        },
    };
    match semicolon_at(s, f) {
        Some(g) => Ok(Some((arithmetic_body(operator, name, value), g))),
        None => Ok(None),
    }
}

fn left_indirect_assignment_at(s: &[char], p: usize) -> (r: BodyRead)
    ensures
        read_with(
            r,
            left_indirect_assignment(s@, p as int),
            |b: LogicScriptStatementBody<ParsedLogicArgument>| body_view(b),
        ),
{
    let _len = s.len();
    if !char_is(s, p, '*') {
        return Ok(None);
    }
    let (name, e) = match identifier_at(s, wsc_end_at(s, p + 1)) {
        Some(x) => x,
        None => {
            return Ok(None);
        },
    };
    let q = match equals_at(s, e) {
        Some(q) => q,
        None => {
            return Ok(None);
        },
    };
    let (value, f) = match numeric_argument_at(s, q)? {
        Some(x) => x,
        None => {
            return Ok(None);
        },
    };
    match semicolon_at(s, f) {
        Some(g) => Ok(Some((
            LogicScriptStatementBody::LeftIndirectAssignment(
                LogicScriptLeftIndirectAssignmentStatement { assignee_pointer: LogicIdentifier { name }, value },
            ),
            g,
        ))),
        None => Ok(None),
    }
}

fn right_indirect_assignment_at(s: &[char], p: usize) -> (r: Option<(LogicScriptStatementBody<ParsedLogicArgument>, usize)>)
    ensures
        read_as(r, right_indirect_assignment(s@, p as int)),
{
    let _len = s.len();
    let (name, e) = match identifier_at(s, p) {
        Some(x) => x,
        None => {
            return None;
        },
    };
    let q = match equals_at(s, e) {
        Some(q) => q,
        None => {
            return None;
        },
    };
    if !char_is(s, q, '*') {
        return None;
    }
    let (pointer, f) = match identifier_at(s, wsc_end_at(s, q + 1)) {
        Some(x) => x,
        None => {
            return None;
        },
    };
    match semicolon_at(s, f) {
        Some(g) => Some((
            LogicScriptStatementBody::RightIndirectAssignment(
                LogicScriptRightIndirectAssignmentStatement {
                    assignee: LogicIdentifier { name },
                    value_pointer: LogicIdentifier { name: pointer },
                },
            ),
            g,
        )),
        None => None,
    }
}

fn assignment_statement_at(s: &[char], p: usize) -> (r: BodyRead)
    ensures
        read_with(
            r,
            assignment_statement(s@, p as int),
            |b: LogicScriptStatementBody<ParsedLogicArgument>| body_view(b),
        ),
{
    match unary_operation_at(s, p) {
        Some(x) => {
            return Ok(Some(x));
        },
        None => {},
    }
    match value_assignment_at(s, p)? {
        Some(x) => {
            return Ok(Some(x));
        },
        None => {},
    }
    match long_arithmetic_left_at(s, p)? {
        Some(x) => {
            return Ok(Some(x));
        },
        None => {},
    }
    match long_arithmetic_right_at(s, p)? {
        Some(x) => {
            return Ok(Some(x));
        },
        None => {},
    }
    match short_arithmetic_at(s, p)? {
        Some(x) => {
            return Ok(Some(x));
        },
        None => {},
    }
    match left_indirect_assignment_at(s, p)? {
        Some(x) => {
            return Ok(Some(x));
        },
        None => {},
    }
    Ok(right_indirect_assignment_at(s, p))
}

/// A statement read, with its span.
pub open spec fn located_statement_view(w: WithLocation<LogicScriptStatement<ParsedLogicArgument>>) -> LocatedStatementView {
    (statement_view(w.value), w.location.start.offset as int, w.location.end.offset as int)
}

pub open spec fn located_statements_view(v: Seq<WithLocation<LogicScriptStatement<ParsedLogicArgument>>>) -> Seq<
    LocatedStatementView,
> {
    v.map_values(|w: WithLocation<LogicScriptStatement<ParsedLogicArgument>>| located_statement_view(w))
}

/// The statements of a block, each kept with its span.
pub(crate) fn into_located<T>(v: Vec<WithLocation<LogicScriptStatement<T>>>) -> (r: Vec<StatementWithOrWithoutLocation<T>>)
    ensures
        r@.len() == v@.len(),
        forall|i: int| 0 <= i < v@.len() ==> r@[i] == StatementWithOrWithoutLocation::WithLocation(#[trigger] v@[i]),
{
    let ghost orig = v@;
    let mut v = v;
    let mut rev: Vec<WithLocation<LogicScriptStatement<T>>> = Vec::new();
    while v.len() > 0
        invariant
            rev@.len() + v@.len() == orig.len(),
            forall|i: int| 0 <= i < v@.len() ==> v@[i] == orig[i],
            forall|j: int| 0 <= j < rev@.len() ==> rev@[j] == orig[orig.len() - 1 - j],
        decreases v@.len(),
    {
        match v.pop() {
            Some(x) => {
                rev.push(x);
            },
            None => {},
        }
    }
    let mut out: Vec<StatementWithOrWithoutLocation<T>> = Vec::new();
    while rev.len() > 0
        invariant
            out@.len() + rev@.len() == orig.len(),
            forall|j: int| 0 <= j < rev@.len() ==> rev@[j] == orig[orig.len() - 1 - j],
            forall|i: int| 0 <= i < out@.len() ==> out@[i] == StatementWithOrWithoutLocation::WithLocation(orig[i]),
        decreases rev@.len(),
    {
        match rev.pop() {
            Some(x) => {
                out.push(StatementWithOrWithoutLocation::WithLocation(x));
            },
            None => {},
        }
    }
    out
}

pub(crate) proof fn lemma_block_view(
    v: Seq<WithLocation<LogicScriptStatement<ParsedLogicArgument>>>,
    r: Seq<StatementWithOrWithoutLocation<ParsedLogicArgument>>,
)
    requires
        r.len() == v.len(),
        forall|i: int| 0 <= i < v.len() ==> r[i] == StatementWithOrWithoutLocation::WithLocation(#[trigger] v[i]),
    ensures
        statements_view(r) == first_of(located_statements_view(v)),
{
    lemma_statements_view(r);
    assert forall|i: int| 0 <= i < r.len() implies statements_view(r)[i] == first_of(located_statements_view(v))[i] by {
        assert(r[i] == StatementWithOrWithoutLocation::WithLocation(v[i]));
    }
    assert(statements_view(r) =~= first_of(located_statements_view(v)));
}

fn block_at(s: &[char], q: usize) -> (r: Result<
    Option<(Vec<StatementWithOrWithoutLocation<ParsedLogicArgument>>, usize)>,
    Panicked,
>)
    ensures
        match block(s@, q as int) {
            Parse::Matched(l, e) => r matches Ok(Some((v, f))) && statements_view(v@) == first_of(l) && f == e,
            Parse::Unmatched => r matches Ok(None),
            Parse::Panics => r is Err,
        },
    decreases s@.len() - q, 0int,
{
    let _len = s.len();
    if !char_is(s, q, '{') {
        return Ok(None);
    }
    let u = wsc_end_at(s, q + 1);
    if !(q < u && u <= s.len()) {
        return Ok(None);
    }
    let (list, f) = match statement_list_at(s, u)? {
        Some(x) => x,
        None => {
            return Ok(None);
        },
    };
    let g = wsc_end_at(s, f);
    if char_is(s, g, '}') {
        let ghost lv = list@;
        let located = into_located(list);
        proof {
            lemma_block_view(lv, located@);
        }
        Ok(Some((located, g + 1)))
    } else {
        Ok(None)
    }
}

fn if_statement_at(s: &[char], p: usize) -> (r: BodyRead)
    ensures
        read_with(r, if_statement(s@, p as int), |b: LogicScriptStatementBody<ParsedLogicArgument>| body_view(b)),
    decreases s@.len() - p, 1int,
{
    let _len = s.len();
    assert(['i', 'f']@ =~= seq!['i', 'f']);
    assert(['e', 'l', 's', 'e']@ =~= else_keyword());
    if !keyword_is(s, p, &['i', 'f']) {
        return Ok(None);
    }
    let (conditions, r) = match parenthesized_at(s, wsc_end_at(s, p + 2))? {
        Some(x) => x,
        None => {
            return Ok(None);
        },
    };
    let t = wsc_end_at(s, r);
    if !(p < t && t <= s.len()) {
        return Ok(None);
    }
    let (then_statements, h) = match block_at(s, t)? {
        Some(x) => x,
        None => {
            return Ok(None);
        },
    };
    let x = wsc_end_at(s, h);
    let else_part = if keyword_is(s, x, &['e', 'l', 's', 'e']) {
        let y = wsc_end_at(s, x + 4);
        if p < y && y <= s.len() {
            block_at(s, y)?
        } else {
            None
        }
    } else {
        None
    };
    let if_keyword = LogicScriptKeyword { keyword: KeywordType::If };
    match else_part {
        Some((else_statements, k)) => Ok(Some((
            LogicScriptStatementBody::IfStatement(
                LogicScriptIfStatement {
                    conditions,
                    then_statements,
                    else_statements,
                    if_keyword,
                    else_keyword: Some(LogicScriptKeyword { keyword: KeywordType::Else }),
                },
            ),
            k,
        ))),
        None => {
            let else_statements: Vec<StatementWithOrWithoutLocation<ParsedLogicArgument>> = Vec::new();
            assert(statements_view(else_statements@) =~= Seq::<StatementView>::empty());
            Ok(Some((
                LogicScriptStatementBody::IfStatement(
                    LogicScriptIfStatement { conditions, then_statements, else_statements, if_keyword, else_keyword: None },
                ),
                h,
            )))
        },
    }
}

fn statement_body_at(s: &[char], p: usize) -> (r: BodyRead)
    ensures
        read_with(r, statement_body(s@, p as int), |b: LogicScriptStatementBody<ParsedLogicArgument>| body_view(b)),
    decreases s@.len() - p, 2int,
{
    match comment_at(s, p) {
        Some((comment, e)) => {
            return Ok(Some((LogicScriptStatementBody::Comment(LogicScriptComment { comment }), e)));
        },
        None => {},
    }
    match message_directive_at(s, p)? {
        Some(x) => {
            return Ok(Some(x));
        },
        None => {},
    }
    match include_directive_at(s, p) {
        Some(x) => {
            return Ok(Some(x));
        },
        None => {},
    }
    match define_directive_at(s, p)? {
        Some(x) => {
            return Ok(Some(x));
        },
        None => {},
    }
    match command_call_at(s, p)? {
        Some((c, e)) => {
            return Ok(Some((LogicScriptStatementBody::CommandCall(c), e)));
        },
        None => {},
    }
    match if_statement_at(s, p)? {
        Some(x) => {
            return Ok(Some(x));
        },
        None => {},
    }
    assignment_statement_at(s, p)
}

fn statement_at(s: &[char], p: usize) -> (r: Result<Option<(LogicScriptStatement<ParsedLogicArgument>, usize)>, Panicked>)
    ensures
        read_with(r, statement(s@, p as int), |st: LogicScriptStatement<ParsedLogicArgument>| statement_view(st)),
    decreases s@.len() - p, 3int,
{
    let _len = s.len();
    match label_at(s, p) {
        Some((l, e)) => {
            let q = white_space_end_at(s, e);
            if !(p < q && q <= s.len()) {
                return Ok(None);
            }
            match statement_body_at(s, q)? {
                Some((body, f)) => Ok(Some((LogicScriptStatement { body, label: Some(l) }, f))),
                None => Ok(None),
            }
        },
        None => match statement_body_at(s, p)? {
            Some((body, f)) => Ok(Some((LogicScriptStatement { body, label: None }, f))),
            None => Ok(None),
        },
    }
}

fn statement_list_at(s: &[char], p: usize) -> (r: Result<
    Option<(Vec<WithLocation<LogicScriptStatement<ParsedLogicArgument>>>, usize)>,
    Panicked,
>)
    ensures
        match statement_list(s@, p as int) {
            Parse::Matched(l, e) => r matches Ok(Some((v, f))) && located_statements_view(v@) == l && f == e,
            Parse::Unmatched => r matches Ok(None),
            Parse::Panics => r is Err,
        },
    decreases s@.len() - p, 5int,
{
    let _len = s.len();
    let (first, e0) = match statement_at(s, p)? {
        Some(x) => x,
        None => {
            return Ok(None);
        },
    };
    if !(p < e0 && e0 <= s.len()) {
        return Ok(None);
    }
    let mut list: Vec<WithLocation<LogicScriptStatement<ParsedLogicArgument>>> = Vec::new();
    let w = WithLocation { value: first, location: location_range(p, e0) };
    let ghost wv = located_statement_view(w);
    list.push(w);
    assert(located_statements_view(list@) =~= seq![wv]);
    let mut e = e0;
    loop
        invariant
            p < e <= s@.len(),
            s@.len() <= usize::MAX,
            statement_list(s@, p as int) == more_statements(s@, e as int, located_statements_view(list@)),
        ensures
            p < e <= s@.len(),
            statement_list(s@, p as int) == Parse::Matched(located_statements_view(list@), e as int),
        decreases s@.len() - e,
    {
        let q = white_space_end_at(s, e);
        if !(e <= q && q <= s.len()) {
            break;
        }
        match statement_at(s, q)? {
            Some((st, f)) => {
                if q < f && f <= s.len() {
                    let w = WithLocation { value: st, location: location_range(q, f) };
                    let ghost before = located_statements_view(list@);
                    let ghost wv = located_statement_view(w);
                    list.push(w);
                    assert(located_statements_view(list@) =~= before.push(wv));
                    e = f;
                } else {
                    break;
                }
            },
            None => {
                break;
            },
        }
    }
    Ok(Some((list, e)))
}

/// Reads a whole script: its statements, each with its span, or the position
/// where reading stopped short of the end; `Err` where the grammar's own
/// reader panics.
pub fn parse_program(s: &[char]) -> (r: Result<
    Result<Vec<WithLocation<LogicScriptStatement<ParsedLogicArgument>>>, usize>,
    Panicked,
>)
    ensures
        match program(s@) {
            ProgramParse::Parsed(l) => r matches Ok(Ok(v)) && located_statements_view(v@) == l,
            ProgramParse::StoppedAt(q) => r matches Ok(Err(x)) && x == q,
            ProgramParse::Panics => r is Err,
        },
{
    let p0 = white_space_end_at(s, 0);
    match statement_list_at(s, p0)? {
        Some((list, e)) => {
            let q = white_space_end_at(s, e);
            if q == s.len() {
                Ok(Ok(list))
            } else {
                Ok(Err(q))
            }
        },
        None => Ok(Err(p0)),
    }
}

} // verus!
