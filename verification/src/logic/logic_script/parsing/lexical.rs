use vstd::prelude::*;

verus! {

/// `String::push`: the text with `c` appended.
#[verifier::external_body]
pub(crate) fn push_char(s: &mut String, c: char)
    ensures
        final(s)@ == old(s)@.push(c),
{
    s.push(c);
}

/// The characters of a script, in order.
pub fn script_chars(source: &str) -> (r: Vec<char>)
    ensures
        r@ == source@,
{
    let mut out: Vec<char> = Vec::new();
    for c in it: source.chars()
        invariant
            out@ == it.seq().take(it.index()),
            it.seq() == source@,
    {
        out.push(c);
        assert(out@ =~= it.seq().take(it.index() + 1));
    }
    assert(out@ =~= source@);
    out
}

/// How reading by a rule at a position ends: with a value and the position
/// after it, with no match, or in a panic.
pub enum Parse<T> {
    Matched(T, int),
    Unmatched,
    Panics,
}

pub open spec fn is_line_terminator(c: char) -> bool {
    c == '\n' || c == '\r'
}

pub open spec fn is_white_space(c: char) -> bool {
    is_line_terminator(c) || c == ' ' || c == '\t'
}

pub open spec fn is_identifier_start(c: char) -> bool {
    let u = c as u32;
    (97 <= u <= 122) || (65 <= u <= 90) || u == 95
}

pub open spec fn is_identifier_part(c: char) -> bool {
    let u = c as u32;
    is_identifier_start(c) || (48 <= u <= 57) || u == 46
}

pub open spec fn is_decimal_digit(c: char) -> bool {
    let u = c as u32;
    48 <= u <= 57
}

pub open spec fn is_hex_digit(c: char) -> bool {
    let u = c as u32;
    (48 <= u <= 57) || (97 <= u <= 102) || (65 <= u <= 70)
}

/// The value of a hexadecimal digit.
pub open spec fn hex_digit_value(c: char) -> nat {
    let u = c as u32;
    if 48 <= u <= 57 {
        (u - 48) as nat
    } else if 97 <= u <= 102 {
        (u - 87) as nat
    } else {
        (u - 55) as nat
    }
}

/// `s` holds a character at `p` that `class` admits.
pub open spec fn char_at(s: Seq<char>, p: int, c: char) -> bool {
    0 <= p < s.len() && s[p] == c
}

/// `lit` stands in `s` at `p`.
pub open spec fn text_at(s: Seq<char>, p: int, lit: Seq<char>) -> bool {
    0 <= p && p + lit.len() <= s.len() && s.subrange(p, p + lit.len()) == lit
}

/// A keyword: its text, not followed by a character of an identifier.
pub open spec fn keyword_at(s: Seq<char>, p: int, lit: Seq<char>) -> bool {
    text_at(s, p, lit) && !(p + lit.len() < s.len() && is_identifier_part(s[p + lit.len()]))
}

/// The end of the white space from `p` on.
pub open spec fn white_space_end(s: Seq<char>, p: int) -> int
    decreases s.len() - p,
{
    if 0 <= p < s.len() && is_white_space(s[p]) {
        white_space_end(s, p + 1)
    } else {
        p
    }
}

/// The position of the first `*/` from `q` on.
pub open spec fn comment_close(s: Seq<char>, q: int) -> Option<int>
    decreases s.len() - q,
{
    if q < 0 || q + 1 >= s.len() {
        None
    } else if s[q] == '*' && s[q + 1] == '/' {
        Some(q)
    } else {
        comment_close(s, q + 1)
    }
}

/// The position of the first line terminator from `q` on.
pub open spec fn line_end(s: Seq<char>, q: int) -> Option<int>
    decreases s.len() - q,
{
    if q < 0 || q >= s.len() {
        None
    } else if is_line_terminator(s[q]) {
        Some(q)
    } else {
        line_end(s, q + 1)
    }
}

/// A comment: `/*` up to the first `*/`, or `//` up to and with the end of
/// its line. The text between the markers, and the position after.
pub open spec fn comment(s: Seq<char>, p: int) -> Option<(Seq<char>, int)> {
    if text_at(s, p, seq!['/', '*']) {
        match comment_close(s, p + 2) {
            Some(q) => Some((s.subrange(p + 2, q), q + 2)),
            None => None,
        }
    } else if text_at(s, p, seq!['/', '/']) {
        match line_end(s, p + 2) {
            Some(q) => Some((s.subrange(p + 2, q), q + 1)),
            None => None,
        }
    } else {
        None
    }
}

/// One piece of spacing: a comment, or a white space character.
pub open spec fn wsc(s: Seq<char>, p: int) -> Option<(Option<Seq<char>>, int)> {
    match comment(s, p) {
        Some((text, q)) => Some((Some(text), q)),
        None => if 0 <= p < s.len() && is_white_space(s[p]) {
            Some((None, p + 1))
        } else {
            None
        },
    }
}

proof fn lemma_comment_close_after(s: Seq<char>, q: int)
    ensures
        comment_close(s, q) matches Some(c) ==> q <= c && c + 1 < s.len() && s[c] == '*' && s[c + 1] == '/',
    decreases s.len() - q,
{
    if !(q < 0 || q + 1 >= s.len()) && !(s[q] == '*' && s[q + 1] == '/') {
        lemma_comment_close_after(s, q + 1);
    }
}

proof fn lemma_line_end_after(s: Seq<char>, q: int)
    ensures
        line_end(s, q) matches Some(c) ==> q <= c < s.len() && is_line_terminator(s[c]),
    decreases s.len() - q,
{
    if !(q < 0 || q >= s.len()) && !is_line_terminator(s[q]) {
        lemma_line_end_after(s, q + 1);
    }
}

/// Spacing always moves on.
pub proof fn lemma_wsc_advances(s: Seq<char>, p: int)
    ensures
        wsc(s, p) matches Some((_, q)) ==> p < q <= s.len(),
{
    lemma_comment_close_after(s, p + 2);
    lemma_line_end_after(s, p + 2);
}

/// The end of the spacing from `p` on.
pub open spec fn wsc_end(s: Seq<char>, p: int) -> int
    decreases s.len() - p,
{
    match wsc(s, p) {
        Some((_, q)) => if p < q <= s.len() {
            wsc_end(s, q)
        } else {
            p
        },
        None => p,
    }
}

/// The end of the identifier characters from `q` on.
pub open spec fn identifier_end(s: Seq<char>, q: int) -> int
    decreases s.len() - q,
{
    if 0 <= q < s.len() && is_identifier_part(s[q]) {
        identifier_end(s, q + 1)
    } else {
        q
    }
}

/// An identifier: a letter or `_`, then letters, digits, `_` and `.`.
pub open spec fn identifier(s: Seq<char>, p: int) -> Option<(Seq<char>, int)> {
    if 0 <= p < s.len() && is_identifier_start(s[p]) {
        let e = identifier_end(s, p + 1);
        Some((s.subrange(p, e), e))
    } else {
        None
    }
}

/// The end of the digits from `q` on, of either base.
pub open spec fn digits_end(s: Seq<char>, q: int, hex: bool) -> int
    decreases s.len() - q,
{
    if 0 <= q < s.len() && (if hex {
        is_hex_digit(s[q])
    } else {
        is_decimal_digit(s[q])
    }) {
        digits_end(s, q + 1, hex)
    } else {
        q
    }
}

/// The number that digits write in base `base`.
pub open spec fn digits_value(d: Seq<char>, base: nat) -> nat
    decreases d.len(),
{
    if d.len() == 0 {
        0
    } else {
        base * digits_value(d.drop_last(), base) + hex_digit_value(d.last())
    }
}

/// A decimal literal: an optional sign, then digits. Digits beyond the
/// range of `i32` make the reader panic.
pub open spec fn decimal_literal(s: Seq<char>, p: int) -> Parse<int> {
    let signed = char_at(s, p, '+') || char_at(s, p, '-');
    let q = if signed {
        p + 1
    } else {
        p
    };
    if 0 <= q < s.len() && is_decimal_digit(s[q]) {
        let e = digits_end(s, q + 1, false);
        let v = digits_value(s.subrange(q, e), 10);
        if v > 0x7fff_ffff {
            Parse::Panics
        } else if char_at(s, p, '-') {
            Parse::Matched(-v, e)
        } else {
            Parse::Matched(v as int, e)
        }
    } else {
        Parse::Unmatched
    }
}

/// A hexadecimal literal: `0x`, then hex digits, at most `0x7fffffff`.
pub open spec fn hex_integer_literal(s: Seq<char>, p: int) -> Parse<int> {
    if text_at(s, p, seq!['0', 'x']) && 0 <= p + 2 < s.len() && is_hex_digit(s[p + 2]) {
        let e = digits_end(s, p + 3, true);
        let v = digits_value(s.subrange(p + 2, e), 16);
        if v > 0x7fff_ffff {
            Parse::Panics
        } else {
            Parse::Matched(v as int, e)
        }
    } else {
        Parse::Unmatched
    }
}

/// A numeric literal: decimal first, then hexadecimal. A decimal literal
/// reads the `0` of `0x1f`, so the second form is only reached where the
/// first does not match.
pub open spec fn numeric_literal(s: Seq<char>, p: int) -> Parse<int> {
    match decimal_literal(s, p) {
        Parse::Unmatched => hex_integer_literal(s, p),
        other => other,
    }
}

pub fn is_white_space_char(c: char) -> (r: bool)
    ensures
        r == is_white_space(c),
{
    c == '\n' || c == '\r' || c == ' ' || c == '\t'
}

pub fn is_line_terminator_char(c: char) -> (r: bool)
    ensures
        r == is_line_terminator(c),
{
    c == '\n' || c == '\r'
}

pub fn is_identifier_start_char(c: char) -> (r: bool)
    ensures
        r == is_identifier_start(c),
{
    let u = c as u32;
    (97 <= u && u <= 122) || (65 <= u && u <= 90) || u == 95
}

pub fn is_identifier_part_char(c: char) -> (r: bool)
    ensures
        r == is_identifier_part(c),
{
    let u = c as u32;
    is_identifier_start_char(c) || (48 <= u && u <= 57) || u == 46
}

pub fn is_decimal_digit_char(c: char) -> (r: bool)
    ensures
        r == is_decimal_digit(c),
{
    let u = c as u32;
    48 <= u && u <= 57
}

pub fn is_hex_digit_char(c: char) -> (r: bool)
    ensures
        r == is_hex_digit(c),
{
    let u = c as u32;
    (48 <= u && u <= 57) || (97 <= u && u <= 102) || (65 <= u && u <= 70)
}

fn hex_digit_value_of(c: char) -> (r: u64)
    requires
        is_hex_digit(c),
    ensures
        r == hex_digit_value(c),
        r < 16,
{
    let u = c as u32;
    if 48 <= u && u <= 57 {
        (u - 48) as u64
    } else if 97 <= u && u <= 102 {
        (u - 87) as u64
    } else {
        (u - 55) as u64
    }
}

/// Whether `s` holds `c` at `p`.
pub fn char_is(s: &[char], p: usize, c: char) -> (r: bool)
    ensures
        r == char_at(s@, p as int, c),
{
    p < s.len() && s[p] == c
}

/// Whether `lit` stands in `s` at `p`.
pub fn text_is(s: &[char], p: usize, lit: &[char]) -> (r: bool)
    ensures
        r == text_at(s@, p as int, lit@),
{
    let _len = s.len();
    if p > s.len() || s.len() - p < lit.len() {
        return false;
    }
    let mut k: usize = 0;
    while k < lit.len()
        invariant
            p + lit@.len() <= s@.len(),
            s@.len() <= usize::MAX,
            0 <= k <= lit@.len(),
            s@.subrange(p as int, p + k) == lit@.subrange(0, k as int),
        decreases lit@.len() - k,
    {
        if s[p + k] != lit[k] {
            assert(s@.subrange(p as int, p + lit@.len())[k as int] != lit@[k as int]);
            return false;
        }
        k = k + 1;
        assert(s@.subrange(p as int, p + k) =~= lit@.subrange(0, k as int));
    }
    assert(lit@.subrange(0, lit@.len() as int) =~= lit@);
    true
}

/// Whether the keyword `lit` stands in `s` at `p`.
pub fn keyword_is(s: &[char], p: usize, lit: &[char]) -> (r: bool)
    ensures
        r == keyword_at(s@, p as int, lit@),
{
    let _len = s.len();
    if !text_is(s, p, lit) {
        return false;
    }
    let next = p + lit.len();
    !(next < s.len() && is_identifier_part_char(s[next]))
}

/// The characters of `s` from `a` to `b`, as a text.
pub fn chars_string(s: &[char], a: usize, b: usize) -> (r: String)
    requires
        a <= b <= s@.len(),
    ensures
        r@ == s@.subrange(a as int, b as int),
{
    let mut out = String::new();
    let mut k: usize = a;
    while k < b
        invariant
            a <= k <= b <= s@.len(),
            out@ == s@.subrange(a as int, k as int),
        decreases b - k,
    {
        push_char(&mut out, s[k]);
        k = k + 1;
        assert(out@ =~= s@.subrange(a as int, k as int));
    }
    out
}

pub fn white_space_end_at(s: &[char], p: usize) -> (r: usize)
    ensures
        r == white_space_end(s@, p as int),
{
    let mut q = p;
    while q < s.len() && is_white_space_char(s[q])
        invariant
            p <= q,
            white_space_end(s@, p as int) == white_space_end(s@, q as int),
        decreases s@.len() - q,
    {
        q = q + 1;
    }
    q
}

/// Reads a comment at `p`.
pub fn comment_at(s: &[char], p: usize) -> (r: Option<(String, usize)>)
    ensures
        match comment(s@, p as int) {
            Some((text, q)) => r matches Some((x, e)) && x@ == text && e == q,
            None => r is None,
        },
{
    let _len = s.len();
    if text_is(s, p, &['/', '*']) {
        assert(['/', '*']@ =~= seq!['/', '*']);
        let mut q = p + 2;
        while q < s.len() && q + 1 < s.len() && !(s[q] == '*' && s[q + 1] == '/')
            invariant
                p + 2 <= q <= s@.len(),
                comment_close(s@, p + 2) == comment_close(s@, q as int),
            decreases s@.len() - q,
        {
            q = q + 1;
        }
        if q < s.len() && q + 1 < s.len() {
            Some((chars_string(s, p + 2, q), q + 2))
        } else {
            None
        }
    } else if text_is(s, p, &['/', '/']) {
        assert(['/', '*']@ =~= seq!['/', '*']);
        assert(['/', '/']@ =~= seq!['/', '/']);
        let mut q = p + 2;
        while q < s.len() && !is_line_terminator_char(s[q])
            invariant
                p + 2 <= q <= s@.len(),
                line_end(s@, p + 2) == line_end(s@, q as int),
            decreases s@.len() - q,
        {
            q = q + 1;
        }
        if q < s.len() {
            Some((chars_string(s, p + 2, q), q + 1))
        } else {
            None
        }
    } else {
        assert(['/', '*']@ =~= seq!['/', '*']);
        assert(['/', '/']@ =~= seq!['/', '/']);
        None
    }
}

/// Reads one piece of spacing at `p`.
pub fn wsc_at(s: &[char], p: usize) -> (r: Option<(Option<String>, usize)>)
    ensures
        match wsc(s@, p as int) {
            Some((c, q)) => r matches Some((x, e)) && e == q && match c {
                Some(text) => x matches Some(t) && t@ == text,
                None => x is None,
            },
            None => r is None,
        },
{
    match comment_at(s, p) {
        Some((text, q)) => Some((Some(text), q)),
        None => if p < s.len() && is_white_space_char(s[p]) {
            Some((None, p + 1))
        } else {
            None
        },
    }
}

/// The end of the spacing from `p` on.
pub fn wsc_end_at(s: &[char], p: usize) -> (r: usize)
    ensures
        r == wsc_end(s@, p as int),
        p <= r <= s@.len() || r == p,
{
    let mut q = p;
    loop
        invariant
            p <= q,
            q <= s@.len() || q == p,
            wsc_end(s@, p as int) == wsc_end(s@, q as int),
        decreases s@.len() - q,
    {
        proof {
            lemma_wsc_advances(s@, q as int);
        }
        match wsc_at(s, q) {
            Some((_, e)) => {
                q = e;
            },
            None => {
                return q;
            },
        }
    }
}

/// Reads an identifier at `p`.
pub fn identifier_at(s: &[char], p: usize) -> (r: Option<(String, usize)>)
    ensures
        match identifier(s@, p as int) {
            Some((name, q)) => r matches Some((x, e)) && x@ == name && e == q,
            None => r is None,
        },
        r matches Some((_, e)) ==> p < e <= s@.len(),
{
    if p < s.len() && is_identifier_start_char(s[p]) {
        let mut q = p + 1;
        while q < s.len() && is_identifier_part_char(s[q])
            invariant
                p + 1 <= q <= s@.len(),
                identifier_end(s@, p + 1) == identifier_end(s@, q as int),
            decreases s@.len() - q,
        {
            q = q + 1;
        }
        Some((chars_string(s, p, q), q))
    } else {
        None
    }
}

fn is_digit_char(c: char, hex: bool) -> (r: bool)
    ensures
        r == (if hex {
            is_hex_digit(c)
        } else {
            is_decimal_digit(c)
        }),
{
    if hex {
        is_hex_digit_char(c)
    } else {
        is_decimal_digit_char(c)
    }
}

fn digits_end_at(s: &[char], q: usize, hex: bool) -> (r: usize)
    requires
        q <= s@.len(),
    ensures
        r == digits_end(s@, q as int, hex),
        q <= r <= s@.len(),
{
    let mut e = q;
    while e < s.len() && is_digit_char(s[e], hex)
        invariant
            q <= e <= s@.len(),
            digits_end(s@, q as int, hex) == digits_end(s@, e as int, hex),
        decreases s@.len() - e,
    {
        e = e + 1;
    }
    e
}

proof fn lemma_digits_end_digits(s: Seq<char>, q: int, hex: bool)
    requires
        0 <= q <= s.len(),
    ensures
        q <= digits_end(s, q, hex) <= s.len(),
        forall|k: int|
            q <= k < digits_end(s, q, hex) ==> (if hex {
                is_hex_digit(#[trigger] s[k])
            } else {
                is_decimal_digit(s[k])
            }),
    decreases s.len() - q,
{
    if q < s.len() && (if hex {
        is_hex_digit(s[q])
    } else {
        is_decimal_digit(s[q])
    }) {
        lemma_digits_end_digits(s, q + 1, hex);
    }
}

/// A longer run of digits writes at least as large a number.
proof fn lemma_digits_value_prefix(d: Seq<char>, k: int, base: nat)
    requires
        0 <= k <= d.len(),
        base >= 1,
    ensures
        digits_value(d.take(k), base) <= digits_value(d, base),
    decreases d.len() - k,
{
    if k < d.len() {
        lemma_digits_value_prefix(d, k + 1, base);
        assert(d.take(k + 1).drop_last() =~= d.take(k));
        assert(digits_value(d.take(k + 1), base) == base * digits_value(d.take(k), base) + hex_digit_value(
            d.take(k + 1).last(),
        ));
        assert(base * digits_value(d.take(k), base) >= digits_value(d.take(k), base)) by (nonlinear_arith)
            requires
                base >= 1,
        ;
    } else {
        assert(d.take(k) =~= d);
    }
}

/// The value of the digits from `a` to `e`, where it fits in `i32`.
fn digits_number(s: &[char], a: usize, e: usize, hex: bool) -> (r: Option<u64>)
    requires
        a <= e <= s@.len(),
        forall|k: int| a <= k < e ==> (if hex {
            is_hex_digit(#[trigger] s@[k])
        } else {
            is_decimal_digit(s@[k])
        }),
    ensures
        match r {
            Some(v) => v == digits_value(s@.subrange(a as int, e as int), if hex { 16nat } else { 10nat }),
            None => digits_value(s@.subrange(a as int, e as int), if hex { 16nat } else { 10nat }) > 0x7fff_ffff,
        },
        r matches Some(v) ==> v <= 0x7fff_ffff,
{
    let ghost base: nat = if hex { 16nat } else { 10nat };
    let ghost d = s@.subrange(a as int, e as int);
    let b: u64 = if hex { 16 } else { 10 };
    let mut acc: u64 = 0;
    let mut k: usize = a;
    assert(d.take(0) =~= Seq::<char>::empty());
    while k < e
        invariant
            a <= k <= e <= s@.len(),
            d == s@.subrange(a as int, e as int),
            b == base,
            base == (if hex { 16nat } else { 10nat }),
            forall|j: int| a <= j < e ==> (if hex {
                is_hex_digit(#[trigger] s@[j])
            } else {
                is_decimal_digit(s@[j])
            }),
            acc <= 0x7fff_ffff,
            acc == digits_value(d.take(k - a), base),
        decreases e - k,
    {
        proof {
            lemma_digits_value_prefix(d, k - a + 1, base);
            assert(d.take(k - a + 1).drop_last() =~= d.take(k - a));
            assert(d.take(k - a + 1).last() == s@[k as int]);
        }
        let c = s[k];
        let v = if hex {
            hex_digit_value_of(c)
        } else {
            assert(is_hex_digit(c));
            hex_digit_value_of(c)
        };
        acc = acc * b + v;
        k = k + 1;
        if acc > 0x7fff_ffff {
            assert(acc == digits_value(d.take(k - a), base));
            proof {
                lemma_digits_value_prefix(d, k - a, base);
            }
            return None;
        }
    }
    assert(d.take(e - a) =~= d);
    Some(acc)
}

/// Reading stopped at an input on which the grammar's own reader panics.
#[derive(Debug, Clone, Copy, PartialEq, Eq, Structural)]
pub struct Panicked;

/// `r` is what the reading `sp` describes, each value seen through `f`.
pub open spec fn read_with<T, V>(r: Result<Option<(T, usize)>, Panicked>, sp: Parse<V>, f: spec_fn(T) -> V) -> bool {
    match sp {
        Parse::Matched(v, e) => r matches Ok(Some((x, q))) && f(x) == v && q == e,
        Parse::Unmatched => r matches Ok(None),
        Parse::Panics => r is Err,
    }
}

/// Reads a decimal literal at `p`.
pub fn decimal_literal_at(s: &[char], p: usize) -> (r: Result<Option<(i32, usize)>, Panicked>)
    ensures
        read_with(r, decimal_literal(s@, p as int), |x: i32| x as int),
{
    let _len = s.len();
    let negative = char_is(s, p, '-');
    let q = if char_is(s, p, '+') || negative {
        p + 1
    } else {
        p
    };
    if q < s.len() && is_decimal_digit_char(s[q]) {
        let e = digits_end_at(s, q + 1, false);
        proof {
            lemma_digits_end_digits(s@, q + 1, false);
        }
        let v = match digits_number(s, q, e, false) {
            Some(v) => v,
            None => {
                return Err(Panicked);
            },
        };
        let n = v as i32;
        if negative {
            Ok(Some((-n, e)))
        } else {
            Ok(Some((n, e)))
        }
    } else {
        Ok(None)
    }
}

/// Reads a hexadecimal literal at `p`.
pub fn hex_integer_literal_at(s: &[char], p: usize) -> (r: Result<Option<(i32, usize)>, Panicked>)
    ensures
        read_with(r, hex_integer_literal(s@, p as int), |x: i32| x as int),
{
    let _len = s.len();
    let starts = text_is(s, p, &['0', 'x']);
    assert(['0', 'x']@ =~= seq!['0', 'x']);
    if starts && p + 2 < s.len() && is_hex_digit_char(s[p + 2]) {
        let e = digits_end_at(s, p + 3, true);
        proof {
            lemma_digits_end_digits(s@, p + 3, true);
        }
        match digits_number(s, p + 2, e, true) {
            Some(v) => Ok(Some((v as i32, e))),
            None => Err(Panicked),
        }
    } else {
        Ok(None)
    }
}

/// Reads a numeric literal at `p`.
pub fn numeric_literal_at(s: &[char], p: usize) -> (r: Result<Option<(i32, usize)>, Panicked>)
    ensures
        read_with(r, numeric_literal(s@, p as int), |x: i32| x as int),
{
    match decimal_literal_at(s, p)? {
        Some(x) => Ok(Some(x)),
        None => hex_integer_literal_at(s, p),
    }
}

} // verus!
