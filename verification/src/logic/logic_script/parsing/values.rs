use vstd::prelude::*;

use crate::logic::assembly::expressions::{
    parsed_arguments_view, ArgumentMeaning, LogicIdentifier, LogicTestCall, ParsedLogicArgument,
};
use crate::logic::assembly::literals::{LogicLiteral, LogicLiteralValue, LogicNumberLiteral};
use crate::logic::logic_script::literals::{
    literal_view, parts_text, string_parts_view, LiteralView, LogicScriptLiteral, LogicScriptLiteralValue,
    LogicScriptSingleStringLiteral, LogicScriptStringLiteral, LogicScriptStringLiteralPart, StringPartView,
};
use crate::logic::logic_script::parsing::lexical::{
    char_at, char_is, comment, identifier, identifier_at, is_decimal_digit, is_decimal_digit_char,
    is_hex_digit, is_hex_digit_char, hex_digit_value, is_line_terminator, is_line_terminator_char,
    lemma_wsc_advances, numeric_literal, numeric_literal_at, push_char, read_with, wsc, wsc_at, Panicked,
    wsc_end, wsc_end_at, Parse,
};
use crate::logic::logic_script::statements::{LogicScriptCommandCall, LogicScriptComment};

verus! {

/// The text pieces of a string literal, one after another.
pub open spec fn parts_text_of(parts: Seq<StringPartView>) -> Seq<char>
    decreases parts.len(),
{
    if parts.len() == 0 {
        Seq::empty()
    } else {
        parts_text_of(parts.drop_last()) + match parts.last() {
            StringPartView::Text(t) => t,
            StringPartView::Comment(_) => Seq::empty(),
        }
    }
}

/// What a literal means as an argument: a number, or the string's text.
pub open spec fn literal_meaning(l: LiteralView) -> ArgumentMeaning {
    match l {
        LiteralView::Number(n) => ArgumentMeaning::Number(n),
        LiteralView::String(parts) => ArgumentMeaning::Text(parts_text_of(parts)),
    }
}

pub proof fn lemma_parts_text(v: Seq<LogicScriptStringLiteralPart>)
    ensures
        parts_text(v) == parts_text_of(string_parts_view(v)),
    decreases v.len(),
{
    if v.len() > 0 {
        lemma_parts_text(v.drop_last());
        assert(string_parts_view(v).drop_last() =~= string_parts_view(v.drop_last()));
    }
}

/// The character that a single-character escape stands for.
pub open spec fn single_escape(c: char) -> Option<char> {
    if c == '"' || c == '\'' || c == '\\' {
        Some(c)
    } else if c == 'b' {
        Some('\u{8}')
    } else if c == 'f' {
        Some('\u{c}')
    } else if c == 'n' {
        Some('\n')
    } else if c == 'r' {
        Some('\r')
    } else if c == 't' {
        Some('\t')
    } else if c == 'v' {
        Some('\u{b}')
    } else {
        None
    }
}

pub open spec fn is_escape_character(c: char) -> bool {
    single_escape(c) is Some || is_decimal_digit(c) || c == 'x' || c == 'u'
}

/// What follows a backslash: a single-character escape, any character that
/// is no escape character, `x` and two hex digits, or `0` before no digit.
pub open spec fn escape_sequence(s: Seq<char>, p: int) -> Option<(char, int)> {
    if 0 <= p < s.len() {
        match single_escape(s[p]) {
            Some(e) => Some((e, p + 1)),
            None => if !is_escape_character(s[p]) {
                Some((s[p], p + 1))
            } else if s[p] == 'x' && p + 2 < s.len() && is_hex_digit(s[p + 1]) && is_hex_digit(s[p + 2]) {
                Some((((16 * hex_digit_value(s[p + 1]) + hex_digit_value(s[p + 2])) as u8) as char, p + 3))
            } else if s[p] == '0' && !(p + 1 < s.len() && is_decimal_digit(s[p + 1])) {
                Some(('\0', p + 1))
            } else {
                None
            },
        }
    } else {
        None
    }
}

/// One character of a string between `quote`s: a plain character, an
/// escape, or a backslash before a line break, which adds nothing.
pub open spec fn string_character(s: Seq<char>, p: int, quote: char) -> Option<(Option<char>, int)> {
    if 0 <= p < s.len() && s[p] != quote && s[p] != '\\' && !is_line_terminator(s[p]) {
        Some((Some(s[p]), p + 1))
    } else if char_at(s, p, '\\') {
        match escape_sequence(s, p + 1) {
            Some((c, q)) => Some((Some(c), q)),
            None => if p + 1 < s.len() && is_line_terminator(s[p + 1]) {
                Some((None, p + 2))
            } else {
                None
            },
        }
    } else {
        None
    }
}

/// The characters of a string from `p` on, after those in `acc`.
pub open spec fn string_characters(s: Seq<char>, p: int, quote: char, acc: Seq<char>) -> (Seq<char>, int)
    decreases s.len() - p,
{
    match string_character(s, p, quote) {
        Some((c, q)) => if p < q <= s.len() {
            string_characters(
                s,
                q,
                quote,
                match c {
                    Some(x) => acc.push(x),
                    None => acc,
                },
            )
        } else {
            (acc, p)
        },
        None => (acc, p),
    }
}

/// A string between single or double quotes.
pub open spec fn single_string_literal(s: Seq<char>, p: int) -> Option<(Seq<char>, int)> {
    if char_at(s, p, '\'') || char_at(s, p, '"') {
        let quote = s[p];
        let (text, e) = string_characters(s, p + 1, quote, Seq::empty());
        if char_at(s, e, quote) {
            Some((text, e + 1))
        } else {
            None
        }
    } else {
        None
    }
}

/// The pieces that follow a string literal's first: spacing, with its
/// comments kept, and further strings.
pub open spec fn string_parts(s: Seq<char>, p: int, acc: Seq<StringPartView>) -> (Seq<StringPartView>, int)
    decreases s.len() - p,
{
    match wsc(s, p) {
        Some((c, q)) => if p < q <= s.len() {
            string_parts(
                s,
                q,
                match c {
                    Some(t) => acc.push(StringPartView::Comment(t)),
                    None => acc,
                },
            )
        } else {
            (acc, p)
        },
        None => match single_string_literal(s, p) {
            Some((t, q)) => if p < q <= s.len() {
                string_parts(s, q, acc.push(StringPartView::Text(t)))
            } else {
                (acc, p)
            },
            None => (acc, p),
        },
    }
}

/// A string literal: a string, then any spacing and further strings.
pub open spec fn string_literal(s: Seq<char>, p: int) -> Option<(Seq<StringPartView>, int)> {
    match single_string_literal(s, p) {
        Some((t, q)) => Some(string_parts(s, q, seq![StringPartView::Text(t)])),
        None => None,
    }
}

/// A literal: a number, else a string.
pub open spec fn literal(s: Seq<char>, p: int) -> Parse<LiteralView> {
    match numeric_literal(s, p) {
        Parse::Matched(v, e) => Parse::Matched(LiteralView::Number(v), e),
        Parse::Panics => Parse::Panics,
        Parse::Unmatched => match string_literal(s, p) {
            Some((parts, e)) => Parse::Matched(LiteralView::String(parts), e),
            None => Parse::Unmatched,
        },
    }
}

/// An argument: a name, else a literal.
pub open spec fn argument(s: Seq<char>, p: int) -> Parse<ArgumentMeaning> {
    match identifier(s, p) {
        Some((name, e)) => Parse::Matched(ArgumentMeaning::Name(name), e),
        None => match literal(s, p) {
            Parse::Matched(l, e) => Parse::Matched(literal_meaning(l), e),
            Parse::Unmatched => Parse::Unmatched,
            Parse::Panics => Parse::Panics,
        },
    }
}

/// Further arguments after `acc`, each after a comma and spacing.
pub open spec fn more_arguments(s: Seq<char>, e: int, acc: Seq<ArgumentMeaning>) -> Parse<Seq<ArgumentMeaning>>
    decreases s.len() - e,
{
    if char_at(s, e, ',') {
        match argument(s, wsc_end(s, e + 1)) {
            Parse::Matched(a, f) => if e < f <= s.len() {
                more_arguments(s, f, acc.push(a))
            } else {
                Parse::Matched(acc, e)
            },
            Parse::Unmatched => Parse::Matched(acc, e),
            Parse::Panics => Parse::Panics,
        }
    } else {
        Parse::Matched(acc, e)
    }
}

/// Arguments separated by commas, perhaps none.
pub open spec fn argument_list(s: Seq<char>, p: int) -> Parse<Seq<ArgumentMeaning>> {
    match argument(s, p) {
        Parse::Matched(a, e) => more_arguments(s, e, seq![a]),
        Parse::Unmatched => Parse::Matched(Seq::empty(), p),
        Parse::Panics => Parse::Panics,
    }
}

/// A call: a name, then its arguments in parentheses.
pub open spec fn call(s: Seq<char>, p: int) -> Parse<(Seq<char>, Seq<ArgumentMeaning>)> {
    match identifier(s, p) {
        Some((name, e)) => if char_at(s, e, '(') {
            match argument_list(s, wsc_end(s, e + 1)) {
                Parse::Matched(args, r) => {
                    let t = wsc_end(s, r);
                    if char_at(s, t, ')') {
                        Parse::Matched((name, args), t + 1)
                    } else {
                        Parse::Unmatched
                    }
                },
                Parse::Unmatched => Parse::Unmatched,
                Parse::Panics => Parse::Panics,
            }
        } else {
            Parse::Unmatched
        },
        None => Parse::Unmatched,
    }
}

/// A command call: a call, then `;`.
pub open spec fn command_call(s: Seq<char>, p: int) -> Parse<(Seq<char>, Seq<ArgumentMeaning>)> {
    match call(s, p) {
        Parse::Matched(c, e) => {
            let t = wsc_end(s, e);
            if char_at(s, t, ';') {
                Parse::Matched(c, t + 1)
            } else {
                Parse::Unmatched
            }
        },
        other => other,
    }
}

fn single_escape_of(c: char) -> (r: Option<char>)
    ensures
        r == single_escape(c),
{
    if c == '"' || c == '\'' || c == '\\' {
        Some(c)
    } else if c == 'b' {
        Some('\u{8}')
    } else if c == 'f' {
        Some('\u{c}')
    } else if c == 'n' {
        Some('\n')
    } else if c == 'r' {
        Some('\r')
    } else if c == 't' {
        Some('\t')
    } else if c == 'v' {
        Some('\u{b}')
    } else {
        None
    }
}

fn hex_value(c: char) -> (r: u8)
    requires
        is_hex_digit(c),
    ensures
        r == hex_digit_value(c),
{
    let u = c as u32;
    if 48 <= u && u <= 57 {
        (u - 48) as u8
    } else if 97 <= u && u <= 102 {
        (u - 87) as u8
    } else {
        (u - 55) as u8
    }
}

fn escape_sequence_at(s: &[char], p: usize) -> (r: Option<(char, usize)>)
    ensures
        match escape_sequence(s@, p as int) {
            Some((c, q)) => r matches Some((x, e)) && x == c && e == q,
            None => r is None,
        },
{
    let _len = s.len();
    if p < s.len() {
        let c = s[p];
        match single_escape_of(c) {
            Some(e) => Some((e, p + 1)),
            None => {
                let escape = is_decimal_digit_char(c) || c == 'x' || c == 'u';
                if !escape {
                    Some((c, p + 1))
                } else if c == 'x' && p + 1 < s.len() && p + 2 < s.len() && is_hex_digit_char(s[p + 1]) && is_hex_digit_char(
                    s[p + 2],
                ) {
                    let v: u8 = 16 * hex_value(s[p + 1]) + hex_value(s[p + 2]);
                    Some((v as char, p + 3))
                } else if c == '0' && !(p + 1 < s.len() && is_decimal_digit_char(s[p + 1])) {
                    Some(('\0', p + 1))
                } else {
                    None
                }
            },
        }
    } else {
        None
    }
}

fn string_character_at(s: &[char], p: usize, quote: char) -> (r: Option<(Option<char>, usize)>)
    ensures
        match string_character(s@, p as int, quote) {
            Some((c, q)) => r matches Some((x, e)) && x == c && e == q,
            None => r is None,
        },
{
    let _len = s.len();
    if p < s.len() && s[p] != quote && s[p] != '\\' && !is_line_terminator_char(s[p]) {
        Some((Some(s[p]), p + 1))
    } else if char_is(s, p, '\\') {
        match escape_sequence_at(s, p + 1) {
            Some((c, q)) => Some((Some(c), q)),
            None => if p + 1 < s.len() && is_line_terminator_char(s[p + 1]) {
                Some((None, p + 2))
            } else {
                None
            },
        }
    } else {
        None
    }
}

fn string_characters_at(s: &[char], p: usize, quote: char) -> (r: (String, usize))
    ensures
        string_characters(s@, p as int, quote, Seq::empty()) == (r.0@, r.1 as int),
{
    let mut out = String::new();
    let mut q = p;
    loop
        invariant
            string_characters(s@, p as int, quote, Seq::empty()) == string_characters(s@, q as int, quote, out@),
        decreases s@.len() - q,
    {
        match string_character_at(s, q, quote) {
            Some((c, e)) => {
                if q < e && e <= s.len() {
                    match c {
                        Some(x) => push_char(&mut out, x),
                        None => {},
                    }
                    q = e;
                } else {
                    return (out, q);
                }
            },
            None => {
                return (out, q);
            },
        }
    }
}

/// Reads a string between quotes at `p`.
pub fn single_string_literal_at(s: &[char], p: usize) -> (r: Option<(String, usize)>)
    ensures
        match single_string_literal(s@, p as int) {
            Some((text, q)) => r matches Some((x, e)) && x@ == text && e == q,
            None => r is None,
        },
{
    let _len = s.len();
    if char_is(s, p, '\'') || char_is(s, p, '"') {
        let quote = s[p];
        let (text, e) = string_characters_at(s, p + 1, quote);
        if char_is(s, e, quote) {
            Some((text, e + 1))
        } else {
            None
        }
    } else {
        None
    }
}

/// Reads a string literal at `p`.
pub fn string_literal_at(s: &[char], p: usize) -> (r: Option<(LogicScriptStringLiteral, usize)>)
    ensures
        match string_literal(s@, p as int) {
            Some((parts, q)) => r matches Some((x, e)) && string_parts_view(x.parts@) == parts && e == q,
            None => r is None,
        },
{
    let (first, q0) = match single_string_literal_at(s, p) {
        Some(x) => x,
        None => {
            return None;
        },
    };
    let ghost t = first@;
    let mut parts: Vec<LogicScriptStringLiteralPart> = Vec::new();
    parts.push(LogicScriptStringLiteralPart::SingleString(LogicScriptSingleStringLiteral { value: first }));
    assert(string_parts_view(parts@) =~= seq![StringPartView::Text(t)]);
    let mut q = q0;
    loop
        invariant
            string_literal(s@, p as int) == Some(string_parts(s@, q as int, string_parts_view(parts@))),
        decreases s@.len() - q,
    {
        let ghost before = string_parts_view(parts@);
        match wsc_at(s, q) {
            Some((c, e)) => {
                if q < e && e <= s.len() {
                    match c {
                        Some(text) => {
                            parts.push(LogicScriptStringLiteralPart::Comment(LogicScriptComment { comment: text }));
                            assert(string_parts_view(parts@) =~= before.push(StringPartView::Comment(text@)));
                        },
                        None => {},
                    }
                    q = e;
                } else {
                    return Some((LogicScriptStringLiteral { parts }, q));
                }
            },
            None => match single_string_literal_at(s, q) {
                Some((text, e)) => {
                    if q < e && e <= s.len() {
                        let ghost tv = text@;
                        parts.push(
                            LogicScriptStringLiteralPart::SingleString(LogicScriptSingleStringLiteral { value: text }),
                        );
                        assert(string_parts_view(parts@) =~= before.push(StringPartView::Text(tv)));
                        q = e;
                    } else {
                        return Some((LogicScriptStringLiteral { parts }, q));
                    }
                },
                None => {
                    return Some((LogicScriptStringLiteral { parts }, q));
                },
            },
        }
    }
}

/// Reads a literal at `p`.
pub fn literal_at(s: &[char], p: usize) -> (r: Result<Option<(LogicScriptLiteral, usize)>, Panicked>)
    ensures
        read_with(r, literal(s@, p as int), |l: LogicScriptLiteral| literal_view(l)),
{
    match numeric_literal_at(s, p)? {
        Some((v, e)) => Ok(
            Some((LogicScriptLiteral { value: LogicScriptLiteralValue::Number(LogicNumberLiteral { value: v }) }, e)),
        ),
        None => match string_literal_at(s, p) {
            Some((string, e)) => Ok(Some((LogicScriptLiteral { value: LogicScriptLiteralValue::String(string) }, e))),
            None => Ok(None),
        },
    }
}

/// Reads an argument at `p`.
pub fn argument_at(s: &[char], p: usize) -> (r: Result<Option<(ParsedLogicArgument, usize)>, Panicked>)
    ensures
        read_with(r, argument(s@, p as int), |a: ParsedLogicArgument| a@),
{
    match identifier_at(s, p) {
        Some((name, e)) => Ok(Some((ParsedLogicArgument::Identifier(LogicIdentifier { name }), e))),
        None => match literal_at(s, p)? {
            Some((l, e)) => {
                let ghost lv = l;
                proof {
                    if let LogicScriptLiteralValue::String(st) = lv.value {
                        lemma_parts_text(st.parts@);
                    }
                }
                Ok(Some((ParsedLogicArgument::Literal(l.into_logic_literal()), e)))
            },
            None => Ok(None),
        },
    }
}

/// Reads arguments separated by commas at `p`.
pub fn argument_list_at(s: &[char], p: usize) -> (r: Result<(Vec<ParsedLogicArgument>, usize), Panicked>)
    ensures
        match argument_list(s@, p as int) {
            Parse::Matched(args, e) => r matches Ok((v, q)) && parsed_arguments_view(v@) == args && q == e,
            Parse::Unmatched => false,
            Parse::Panics => r is Err,
        },
{
    let _len = s.len();
    let mut args: Vec<ParsedLogicArgument> = Vec::new();
    let (first, mut e) = match argument_at(s, p)? {
        Some(x) => x,
        None => {
            assert(parsed_arguments_view(args@) =~= Seq::<ArgumentMeaning>::empty());
            return Ok((args, p));
        },
    };
    let ghost fv = first@;
    args.push(first);
    assert(parsed_arguments_view(args@) =~= seq![fv]);
    loop
        invariant
            s@.len() <= usize::MAX,
            argument_list(s@, p as int) == more_arguments(s@, e as int, parsed_arguments_view(args@)),
        decreases s@.len() - e,
    {
        if !char_is(s, e, ',') {
            return Ok((args, e));
        }
        let q = wsc_end_at(s, e + 1);
        match argument_at(s, q)? {
            Some((a, f)) => {
                if e < f && f <= s.len() {
                    let ghost before = parsed_arguments_view(args@);
                    let ghost av = a@;
                    args.push(a);
                    assert(parsed_arguments_view(args@) =~= before.push(av));
                    e = f;
                } else {
                    return Ok((args, e));
                }
            },
            None => {
                return Ok((args, e));
            },
        }
    }
}

/// Reads a call at `p`: its name, its arguments, and the position after `)`.
pub fn call_at(s: &[char], p: usize) -> (r: Result<Option<((String, Vec<ParsedLogicArgument>), usize)>, Panicked>)
    ensures
        read_with(
            r,
            call(s@, p as int),
            |c: (String, Vec<ParsedLogicArgument>)| (c.0@, parsed_arguments_view(c.1@)),
        ),
{
    let _len = s.len();
    let (name, e) = match identifier_at(s, p) {
        Some(x) => x,
        None => {
            return Ok(None);
        },
    };
    if !char_is(s, e, '(') {
        return Ok(None);
    }
    let q = wsc_end_at(s, e + 1);
    let (args, r) = argument_list_at(s, q)?;
    let t = wsc_end_at(s, r);
    if char_is(s, t, ')') {
        Ok(Some(((name, args), t + 1)))
    } else {
        Ok(None)
    }
}

/// Reads a command call at `p`.
pub fn command_call_at(s: &[char], p: usize) -> (r: Result<
    Option<(LogicScriptCommandCall<ParsedLogicArgument>, usize)>,
    Panicked,
>)
    ensures
        read_with(
            r,
            command_call(s@, p as int),
            |c: LogicScriptCommandCall<ParsedLogicArgument>| (c.command_name@, parsed_arguments_view(c.argument_list@)),
        ),
{
    let _len = s.len();
    let ((name, args), e) = match call_at(s, p)? {
        Some(x) => x,
        None => {
            return Ok(None);
        },
    };
    let t = wsc_end_at(s, e);
    if char_is(s, t, ';') {
        Ok(Some((LogicScriptCommandCall { command_name: name, argument_list: args }, t + 1)))
    } else {
        Ok(None)
    }
}

/// Reads a test call at `p`.
pub fn test_call_at(s: &[char], p: usize) -> (r: Result<Option<(LogicTestCall<ParsedLogicArgument>, usize)>, Panicked>)
    ensures
        read_with(
            r,
            call(s@, p as int),
            |c: LogicTestCall<ParsedLogicArgument>| (c.test_name@, parsed_arguments_view(c.argument_list@)),
        ),
{
    match call_at(s, p)? {
        Some(((name, args), e)) => Ok(Some((LogicTestCall { test_name: name, argument_list: args }, e))),
        None => Ok(None),
    }
}

} // verus!
