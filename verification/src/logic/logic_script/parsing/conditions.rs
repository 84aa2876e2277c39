use vstd::prelude::*;

use crate::logic::assembly::expressions::{
    condition_expression_view, condition_expressions_view, lemma_condition_expressions_view,
    parsed_arguments_view, ArgumentMeaning, AsmConditionView, LogicAndExpression, LogicBooleanBinaryOperation,
    LogicBooleanExpression, LogicIdentifier, LogicNotExpression, LogicOrExpression, ParsedLogicArgument,
};
use crate::logic::assembly::operators::LogicBooleanBinaryOperator;
use crate::logic::logic_script::parsing::lexical::{
    char_at, char_is, identifier, identifier_at, read_with, text_at, text_is, wsc_end, wsc_end_at, Panicked, Parse,
};
use crate::logic::logic_script::parsing::values::{argument, argument_at, call, test_call_at};

verus! {

/// A comparison operator. `<` and `>` are tried before `<=` and `>=`, so
/// the longer two never match.
pub open spec fn boolean_binary_operator(s: Seq<char>, p: int) -> Option<(LogicBooleanBinaryOperator, int)> {
    if char_at(s, p, '<') {
        Some((LogicBooleanBinaryOperator::LessThan, p + 1))
    } else if char_at(s, p, '>') {
        Some((LogicBooleanBinaryOperator::GreaterThan, p + 1))
    } else if text_at(s, p, seq!['=', '=']) {
        Some((LogicBooleanBinaryOperator::Equal, p + 2))
    } else if text_at(s, p, seq!['!', '=']) {
        Some((LogicBooleanBinaryOperator::NotEqual, p + 2))
    } else {
        None
    }
}

/// A comparison: an argument, an operator and an argument.
pub open spec fn boolean_binary_operation(s: Seq<char>, p: int) -> Parse<AsmConditionView> {
    match argument(s, p) {
        Parse::Matched(l, e) => match boolean_binary_operator(s, wsc_end(s, e)) {
            Some((o, r)) => match argument(s, wsc_end(s, r)) {
                Parse::Matched(rt, f) => Parse::Matched(AsmConditionView::Binary(l, o, rt), f),
                Parse::Unmatched => Parse::Unmatched,
                Parse::Panics => Parse::Panics,
            },
            None => Parse::Unmatched,
        },
        Parse::Unmatched => Parse::Unmatched,
        Parse::Panics => Parse::Panics,
    }
}

/// A condition in parentheses.
pub open spec fn parenthesized(s: Seq<char>, p: int) -> Parse<AsmConditionView>
    decreases s.len() - p, 1int,
{
    if char_at(s, p, '(') {
        let q = wsc_end(s, p + 1);
        if p < q <= s.len() {
            match boolean_expression(s, q) {
                Parse::Matched(x, r) => {
                    let t = wsc_end(s, r);
                    if char_at(s, t, ')') {
                        Parse::Matched(x, t + 1)
                    } else {
                        Parse::Unmatched
                    }
                },
                other => other,
            }
        } else {
            Parse::Unmatched
        }
    } else {
        Parse::Unmatched
    }
}

/// `!` before a single clause.
pub open spec fn not_expression(s: Seq<char>, p: int) -> Parse<AsmConditionView>
    decreases s.len() - p, 1int,
{
    if char_at(s, p, '!') {
        let q = wsc_end(s, p + 1);
        if p < q <= s.len() {
            match single_boolean_clause(s, q) {
                Parse::Matched(x, r) => Parse::Matched(AsmConditionView::Not(Box::new(x)), r),
                other => other,
            }
        } else {
            Parse::Unmatched
        }
    } else {
        Parse::Unmatched
    }
}

/// A clause of a conjunction or disjunction: a test call, a comparison, a
/// condition in parentheses, a negation, or a name.
pub open spec fn single_boolean_clause(s: Seq<char>, p: int) -> Parse<AsmConditionView>
    decreases s.len() - p, 3int,
{
    match call(s, p) {
        Parse::Matched((n, a), e) => Parse::Matched(AsmConditionView::TestCall(n, a), e),
        Parse::Panics => Parse::Panics,
        Parse::Unmatched => match boolean_binary_operation(s, p) {
            Parse::Unmatched => match parenthesized(s, p) {
                Parse::Unmatched => match not_expression(s, p) {
                    Parse::Unmatched => match identifier(s, p) {
                        Some((n, e)) => Parse::Matched(AsmConditionView::Identifier(n), e),
                        None => Parse::Unmatched,
                    },
                    other => other,
                },
                other => other,
            },
            other => other,
        },
    }
}

/// The separator of a conjunction (`&&`) or a disjunction (`||`).
pub open spec fn joiner(and: bool) -> Seq<char> {
    if and {
        seq!['&', '&']
    } else {
        seq!['|', '|']
    }
}

/// Further clauses after `acc`, each after the separator. A separator with
/// no clause after it is left unread.
pub open spec fn joined_clauses(s: Seq<char>, e: int, and: bool, acc: Seq<AsmConditionView>) -> Parse<
    Seq<AsmConditionView>,
>
    decreases s.len() - e, 2int,
{
    let q = wsc_end(s, e);
    if text_at(s, q, joiner(and)) {
        let r = wsc_end(s, q + 2);
        if e < r <= s.len() {
            match single_boolean_clause(s, r) {
                Parse::Matched(c, f) => if r < f <= s.len() {
                    joined_clauses(s, f, and, acc.push(c))
                } else {
                    Parse::Matched(acc, e)
                },
                Parse::Unmatched => Parse::Matched(acc, e),
                Parse::Panics => Parse::Panics,
            }
        } else {
            Parse::Matched(acc, e)
        }
    } else {
        Parse::Matched(acc, e)
    }
}

/// Clauses read with their separators, as a conjunction or a disjunction
/// where there are at least two.
pub open spec fn joined_condition(r: Parse<Seq<AsmConditionView>>, and: bool) -> Parse<AsmConditionView> {
    match r {
        Parse::Matched(cs, f) => if cs.len() >= 2 {
            Parse::Matched(
                if and {
                    AsmConditionView::And(cs)
                } else {
                    AsmConditionView::Or(cs)
                },
                f,
            )
        } else {
            Parse::Unmatched
        },
        Parse::Unmatched => Parse::Unmatched,
        Parse::Panics => Parse::Panics,
    }
}

/// Two or more clauses joined by `&&` (or by `||`).
pub open spec fn and_or_expression(s: Seq<char>, p: int, and: bool) -> Parse<AsmConditionView>
    decreases s.len() - p, 4int,
{
    match single_boolean_clause(s, p) {
        Parse::Matched(c, e) => if p < e <= s.len() {
            joined_condition(joined_clauses(s, e, and, seq![c]), and)
        } else {
            Parse::Unmatched
        },
        Parse::Unmatched => Parse::Unmatched,
        Parse::Panics => Parse::Panics,
    }
}

/// A condition: a conjunction, a disjunction, a comparison, a negation, a
/// test call, a name, or a condition in parentheses, tried in that order.
pub open spec fn boolean_expression(s: Seq<char>, p: int) -> Parse<AsmConditionView>
    decreases s.len() - p, 5int,
{
    match and_or_expression(s, p, true) {
        Parse::Unmatched => match and_or_expression(s, p, false) {
            Parse::Unmatched => match boolean_binary_operation(s, p) {
                Parse::Unmatched => match not_expression(s, p) {
                    Parse::Unmatched => match call(s, p) {
                        Parse::Matched((n, a), e) => Parse::Matched(AsmConditionView::TestCall(n, a), e),
                        Parse::Panics => Parse::Panics,
                        Parse::Unmatched => match identifier(s, p) {
                            Some((n, e)) => Parse::Matched(AsmConditionView::Identifier(n), e),
                            None => parenthesized(s, p),
                        },
                    },
                    other => other,
                },
                other => other,
            },
            other => other,
        },
        other => other,
    }
}

pub open spec fn expression_view(e: LogicBooleanExpression<ParsedLogicArgument>) -> AsmConditionView {
    condition_expression_view(e)
}

proof fn lemma_views_push(v: Seq<LogicBooleanExpression<ParsedLogicArgument>>, x: LogicBooleanExpression<ParsedLogicArgument>)
    ensures
        condition_expressions_view(v.push(x)) == condition_expressions_view(v).push(condition_expression_view(x)),
{
    lemma_condition_expressions_view(v);
    lemma_condition_expressions_view(v.push(x));
    assert(condition_expressions_view(v.push(x)) =~= condition_expressions_view(v).push(condition_expression_view(x))) by {
        assert forall|i: int| 0 <= i < v.len() implies v.push(x)[i] == v[i] by {}
    }
}

fn boolean_binary_operator_at(s: &[char], p: usize) -> (r: Option<(LogicBooleanBinaryOperator, usize)>)
    ensures
        match boolean_binary_operator(s@, p as int) {
            Some((o, q)) => r matches Some((x, e)) && x == o && e == q,
            None => r is None,
        },
{
    let _len = s.len();
    assert(['=', '=']@ =~= seq!['=', '=']);
    assert(['!', '=']@ =~= seq!['!', '=']);
    if char_is(s, p, '<') {
        Some((LogicBooleanBinaryOperator::LessThan, p + 1))
    } else if char_is(s, p, '>') {
        Some((LogicBooleanBinaryOperator::GreaterThan, p + 1))
    } else if text_is(s, p, &['=', '=']) {
        Some((LogicBooleanBinaryOperator::Equal, p + 2))
    } else if text_is(s, p, &['!', '=']) {
        Some((LogicBooleanBinaryOperator::NotEqual, p + 2))
    } else {
        None
    }
}

/// Reads a comparison at `p`.
pub fn boolean_binary_operation_at(s: &[char], p: usize) -> (r: Result<
    Option<(LogicBooleanBinaryOperation<ParsedLogicArgument>, usize)>,
    Panicked,
>)
    ensures
        read_with(
            r,
            boolean_binary_operation(s@, p as int),
            |b: LogicBooleanBinaryOperation<ParsedLogicArgument>| AsmConditionView::Binary(b.left@, b.operator, b.right@),
        ),
{
    let (left, e) = match argument_at(s, p)? {
        Some(x) => x,
        None => {
            return Ok(None);
        },
    };
    let (operator, q) = match boolean_binary_operator_at(s, wsc_end_at(s, e)) {
        Some(x) => x,
        None => {
            return Ok(None);
        },
    };
    match argument_at(s, wsc_end_at(s, q))? {
        Some((right, f)) => Ok(Some((LogicBooleanBinaryOperation { left, operator, right }, f))),
        None => Ok(None),
    }
}

/// Reads a condition in parentheses at `p`.
pub fn parenthesized_at(s: &[char], p: usize) -> (r: Result<
    Option<(LogicBooleanExpression<ParsedLogicArgument>, usize)>,
    Panicked,
>)
    ensures
        read_with(r, parenthesized(s@, p as int), |e: LogicBooleanExpression<ParsedLogicArgument>| expression_view(e)),
    decreases s@.len() - p, 1int,
{
    let _len = s.len();
    if !char_is(s, p, '(') {
        return Ok(None);
    }
    let q = wsc_end_at(s, p + 1);
    if !(p < q && q <= s.len()) {
        return Ok(None);
    }
    let (x, r) = match boolean_expression_at(s, q)? {
        Some(x) => x,
        None => {
            return Ok(None);
        },
    };
    let t = wsc_end_at(s, r);
    if char_is(s, t, ')') {
        Ok(Some((x, t + 1)))
    } else {
        Ok(None)
    }
}

/// Reads a negation at `p`.
pub fn not_expression_at(s: &[char], p: usize) -> (r: Result<
    Option<(LogicBooleanExpression<ParsedLogicArgument>, usize)>,
    Panicked,
>)
    ensures
        read_with(r, not_expression(s@, p as int), |e: LogicBooleanExpression<ParsedLogicArgument>| expression_view(e)),
    decreases s@.len() - p, 1int,
{
    let _len = s.len();
    if !char_is(s, p, '!') {
        return Ok(None);
    }
    let q = wsc_end_at(s, p + 1);
    if !(p < q && q <= s.len()) {
        return Ok(None);
    }
    match single_boolean_clause_at(s, q)? {
        Some((x, r)) => Ok(
            Some((LogicBooleanExpression::NotExpression(LogicNotExpression { expression: Box::new(x) }), r)),
        ),
        None => Ok(None),
    }
}

/// Reads a single clause at `p`.
pub fn single_boolean_clause_at(s: &[char], p: usize) -> (r: Result<
    Option<(LogicBooleanExpression<ParsedLogicArgument>, usize)>,
    Panicked,
>)
    ensures
        read_with(
            r,
            single_boolean_clause(s@, p as int),
            |e: LogicBooleanExpression<ParsedLogicArgument>| expression_view(e),
        ),
    decreases s@.len() - p, 3int,
{
    if let Some((t, e)) = test_call_at(s, p)? {
        return Ok(Some((LogicBooleanExpression::TestCall(t), e)));
    }
    if let Some((b, e)) = boolean_binary_operation_at(s, p)? {
        return Ok(Some((LogicBooleanExpression::BinaryOperation(b), e)));
    }
    if let Some(x) = parenthesized_at(s, p)? {
        return Ok(Some(x));
    }
    if let Some(x) = not_expression_at(s, p)? {
        return Ok(Some(x));
    }
    match identifier_at(s, p) {
        Some((name, e)) => Ok(Some((LogicBooleanExpression::Identifier(LogicIdentifier { name }), e))),
        None => Ok(None),
    }
}

fn joined_expression(clauses: Vec<LogicBooleanExpression<ParsedLogicArgument>>, and: bool) -> (r:
    LogicBooleanExpression<ParsedLogicArgument>)
    ensures
        expression_view(r) == (if and {
            AsmConditionView::And(condition_expressions_view(clauses@))
        } else {
            AsmConditionView::Or(condition_expressions_view(clauses@))
        }),
{
    if and {
        LogicBooleanExpression::AndExpression(LogicAndExpression { clauses })
    } else {
        LogicBooleanExpression::OrExpression(LogicOrExpression { clauses })
    }
}

/// Reads two or more clauses joined by `&&` (or by `||`) at `p`.
pub fn and_or_expression_at(s: &[char], p: usize, and: bool) -> (r: Result<
    Option<(LogicBooleanExpression<ParsedLogicArgument>, usize)>,
    Panicked,
>)
    ensures
        read_with(
            r,
            and_or_expression(s@, p as int, and),
            |e: LogicBooleanExpression<ParsedLogicArgument>| expression_view(e),
        ),
    decreases s@.len() - p, 4int,
{
    let _len = s.len();
    let (first, e0) = match single_boolean_clause_at(s, p)? {
        Some(x) => x,
        None => {
            return Ok(None);
        },
    };
    if !(p < e0 && e0 <= s.len()) {
        return Ok(None);
    }
    let ghost fv = expression_view(first);
    let mut clauses: Vec<LogicBooleanExpression<ParsedLogicArgument>> = Vec::new();
    clauses.push(first);
    proof {
        lemma_condition_expressions_view(clauses@);
        assert(condition_expressions_view(clauses@) =~= seq![fv]);
    }
    let mut e = e0;
    assert(['&', '&']@ =~= seq!['&', '&']);
    assert(['|', '|']@ =~= seq!['|', '|']);
    loop
        invariant
            p < e <= s@.len(),
            s@.len() <= usize::MAX,
            and_or_expression(s@, p as int, and) == joined_condition(
                joined_clauses(s@, e as int, and, condition_expressions_view(clauses@)),
                and,
            ),
            ['&', '&']@ == seq!['&', '&'],
            ['|', '|']@ == seq!['|', '|'],
        ensures
            p < e <= s@.len(),
            and_or_expression(s@, p as int, and) == joined_condition(
                Parse::Matched(condition_expressions_view(clauses@), e as int),
                and,
            ),
        decreases s@.len() - e,
    {
        let q = wsc_end_at(s, e);
        let found = if and {
            text_is(s, q, &['&', '&'])
        } else {
            text_is(s, q, &['|', '|'])
        };
        if !found {
            break;
        }
        let r = wsc_end_at(s, q + 2);
        if !(e < r && r <= s.len()) {
            break;
        }
        match single_boolean_clause_at(s, r)? {
            Some((c, f)) => {
                if r < f && f <= s.len() {
                    proof {
                        lemma_views_push(clauses@, c);
                    }
                    clauses.push(c);
                    e = f;
                } else {
                    break;
                }
            },
            None => {
                break;
            },
        }
    }
    proof {
        lemma_condition_expressions_view(clauses@);
    }
    if clauses.len() >= 2 {
        Ok(Some((joined_expression(clauses, and), e)))
    } else {
        Ok(None)
    }
}

/// Reads a condition at `p`.
pub fn boolean_expression_at(s: &[char], p: usize) -> (r: Result<
    Option<(LogicBooleanExpression<ParsedLogicArgument>, usize)>,
    Panicked,
>)
    ensures
        read_with(
            r,
            boolean_expression(s@, p as int),
            |e: LogicBooleanExpression<ParsedLogicArgument>| expression_view(e),
        ),
    decreases s@.len() - p, 5int,
{
    if let Some(x) = and_or_expression_at(s, p, true)? {
        return Ok(Some(x));
    }
    if let Some(x) = and_or_expression_at(s, p, false)? {
        return Ok(Some(x));
    }
    if let Some((b, e)) = boolean_binary_operation_at(s, p)? {
        return Ok(Some((LogicBooleanExpression::BinaryOperation(b), e)));
    }
    if let Some(x) = not_expression_at(s, p)? {
        return Ok(Some(x));
    }
    if let Some((t, e)) = test_call_at(s, p)? {
        return Ok(Some((LogicBooleanExpression::TestCall(t), e)));
    }
    if let Some((name, e)) = identifier_at(s, p) {
        return Ok(Some((LogicBooleanExpression::Identifier(LogicIdentifier { name }), e)));
    }
    parenthesized_at(s, p)
}

} // verus!
