//! Numbers written in decimal, and names made of a prefix and a number.

use vstd::prelude::*;
use vstd::string::{StrSliceExecFns, StringExecFns};

verus! {

/// The decimal digit character for `d`.
pub open spec fn digit_char(d: nat) -> char {
    ((d % 10) + 48) as char
}

/// `n` written in decimal, without leading zeros.
pub open spec fn decimal_digits(n: nat) -> Seq<char>
    decreases n,
{
    if n < 10 {
        seq![digit_char(n)]
    } else {
        decimal_digits(n / 10).push(digit_char(n % 10))
    }
}

fn digit_str(d: u32) -> (r: &'static str)
    requires
        d < 10,
    ensures
        r@ == seq![digit_char(d as nat)],
{
    proof {
        reveal_strlit("0");
        reveal_strlit("1");
        reveal_strlit("2");
        reveal_strlit("3");
        reveal_strlit("4");
        reveal_strlit("5");
        reveal_strlit("6");
        reveal_strlit("7");
        reveal_strlit("8");
        reveal_strlit("9");
    }
    if d == 0 {
        "0"
    } else if d == 1 {
        "1"
    } else if d == 2 {
        "2"
    } else if d == 3 {
        "3"
    } else if d == 4 {
        "4"
    } else if d == 5 {
        "5"
    } else if d == 6 {
        "6"
    } else if d == 7 {
        "7"
    } else if d == 8 {
        "8"
    } else {
        "9"
    }
}

/// `n` in decimal, as `format!("{}", n)` writes it.
pub fn decimal_string(n: u32) -> (r: String)
    ensures
        r@ == decimal_digits(n as nat),
    decreases n,
{
    if n < 10 {
        String::from_str(digit_str(n))
    } else {
        let mut s = decimal_string(n / 10);
        s.append(digit_str(n % 10));
        s
    }
}

/// `n` in decimal.
pub fn decimal_string_usize(n: usize) -> (r: String)
    ensures
        r@ == decimal_digits(n as nat),
    decreases n,
{
    if n < 10 {
        String::from_str(digit_str(n as u32))
    } else {
        let mut s = decimal_string_usize(n / 10);
        s.append(digit_str((n % 10) as u32));
        s
    }
}

/// `prefix` followed by `n` in decimal, as `format!("{prefix}{n}")` writes it.
pub fn prefixed_number(prefix: &str, n: u32) -> (r: String)
    ensures
        r@ == prefix@ + decimal_digits(n as nat),
{
    let mut s = String::from_str(prefix);
    let digits = decimal_string(n);
    s.append(digits.as_str());
    s
}

/// `k` zeros.
pub open spec fn zeros(k: nat) -> Seq<char> {
    Seq::new(k, |i: int| '0')
}

/// `n` in decimal, with zeros before it up to `w` characters.
pub open spec fn zero_padded(n: nat, w: nat) -> Seq<char> {
    let d = decimal_digits(n);
    if d.len() < w {
        zeros((w - d.len()) as nat) + d
    } else {
        d
    }
}

/// `n` in decimal, at least `w` characters wide, as `format!("{:0w$}", n)`
/// writes it.
pub fn zero_padded_string(n: u32, w: usize) -> (r: String)
    ensures
        r@ == zero_padded(n as nat, w as nat),
{
    let digits = decimal_string(n);
    let len = digits.as_str().unicode_len();
    let mut s = String::new();
    if len < w {
        let mut k: usize = 0;
        while k < w - len
            invariant
                len < w,
                k <= w - len,
                s@ == zeros(k as nat),
            decreases w - len - k,
        {
            proof {
                reveal_strlit("0");
            }
            s.append("0");
            k = k + 1;
            assert(s@ =~= zeros(k as nat));
        }
    }
    s.append(digits.as_str());
    s
}

/// The upper-case hexadecimal digit for `d`, below sixteen.
pub open spec fn hex_digit_upper(d: nat) -> char {
    if d < 10 {
        (48 + d) as char
    } else {
        (55 + d) as char
    }
}

/// A byte in two upper-case hexadecimal digits, as `format!("{:02X}", b)`
/// writes it.
pub open spec fn hex_byte_text(b: u8) -> Seq<char> {
    seq![hex_digit_upper((b / 16) as nat), hex_digit_upper((b % 16) as nat)]
}

fn hex_digit_char(d: u8) -> (c: char)
    requires
        d < 16,
    ensures
        c == hex_digit_upper(d as nat),
{
    if d < 10 {
        (48 + d) as char
    } else {
        (55 + d) as char
    }
}

pub fn hex_byte_string(b: u8) -> (r: String)
    ensures
        r@ == hex_byte_text(b),
{
    let mut s = String::new();
    crate::logic::logic_script::parsing::lexical::push_char(&mut s, hex_digit_char(b / 16));
    crate::logic::logic_script::parsing::lexical::push_char(&mut s, hex_digit_char(b % 16));
    assert(s@ =~= hex_byte_text(b));
    s
}

/// Ten to the power `w`.
pub open spec fn pow10(w: nat) -> nat
    decreases w,
{
    if w == 0 {
        1
    } else {
        10 * pow10((w - 1) as nat)
    }
}

/// The last `w` decimal digits of `n`, the most significant first.
pub open spec fn fixed_digits(n: nat, w: nat) -> Seq<char>
    decreases w,
{
    if w == 0 {
        Seq::empty()
    } else {
        fixed_digits(n / 10, (w - 1) as nat).push(digit_char(n % 10))
    }
}

proof fn lemma_fixed_digits_of_zero(k: nat)
    ensures
        fixed_digits(0, k) == zeros(k),
    decreases k,
{
    if k > 0 {
        lemma_fixed_digits_of_zero((k - 1) as nat);
        assert(fixed_digits(0, k) =~= zeros(k));
    }
}

proof fn lemma_pow10_positive(k: nat)
    ensures
        pow10(k) >= 1,
    decreases k,
{
    if k > 0 {
        lemma_pow10_positive((k - 1) as nat);
    }
}

proof fn lemma_decimal_digits_len(m: nat, k: nat)
    requires
        k >= 1,
        m < pow10(k),
    ensures
        decimal_digits(m).len() <= k,
    decreases m,
{
    if m >= 10 {
        if k == 1 {
            assert(pow10(1) == 10 * pow10(0));
        }
        let p = pow10((k - 1) as nat);
        assert(m / 10 < p) by (nonlinear_arith)
            requires
                m < 10 * p,
        ;
        lemma_decimal_digits_len(m / 10, (k - 1) as nat);
    }
}

/// A number below `10^w` written with zeros before it up to `w` characters
/// is its last `w` digits.
pub proof fn lemma_zero_padded_is_fixed(n: nat, w: nat)
    requires
        w >= 1,
        n < pow10(w),
    ensures
        zero_padded(n, w) == fixed_digits(n, w),
    decreases w,
{
    if n < 10 {
        lemma_fixed_digits_of_zero((w - 1) as nat);
        assert(n / 10 == 0);
        assert(digit_char(n % 10) == digit_char(n));
        assert(zero_padded(n, w) =~= fixed_digits(n, w));
    } else {
        if w == 1 {
            assert(pow10(1) == 10 * pow10(0));
        }
        let p = pow10((w - 1) as nat);
        assert(n / 10 < p) by (nonlinear_arith)
            requires
                n < 10 * p,
        ;
        lemma_zero_padded_is_fixed(n / 10, (w - 1) as nat);
        lemma_decimal_digits_len(n / 10, (w - 1) as nat);
        let d = decimal_digits(n / 10);
        assert(decimal_digits(n) == d.push(digit_char(n % 10)));
        if d.len() + 1 < w {
            assert(zero_padded(n, w) =~= zero_padded(n / 10, (w - 1) as nat).push(digit_char(n % 10)));
        } else {
            assert(zero_padded(n, w) =~= zero_padded(n / 10, (w - 1) as nat).push(digit_char(n % 10)));
        }
    }
}

/// The last `w + k` digits of `a * 10^k + b`, for `b` below `10^k`, are the
/// last `w` digits of `a` followed by the last `k` digits of `b`.
pub proof fn lemma_fixed_digits_split(a: nat, b: nat, w: nat, k: nat)
    requires
        b < pow10(k),
    ensures
        fixed_digits(a * pow10(k) + b, w + k) == fixed_digits(a, w) + fixed_digits(b, k),
    decreases k,
{
    if k == 0 {
        assert(b == 0);
        assert(a * pow10(0) + b == a);
        assert(fixed_digits(b, k) =~= Seq::<char>::empty());
        assert(fixed_digits(a, w) + fixed_digits(b, k) =~= fixed_digits(a, w));
    } else {
        let p = pow10((k - 1) as nat);
        let n = a * pow10(k) + b;
        assert(pow10(k) == 10 * p);
        assert(b / 10 < p) by (nonlinear_arith)
            requires
                b < 10 * p,
        ;
        assert(n == 10 * (a * p + b / 10) + b % 10) by (nonlinear_arith)
            requires
                n == a * (10 * p) + b,
                b == 10 * (b / 10) + b % 10,
        ;
        vstd::arithmetic::div_mod::lemma_fundamental_div_mod_converse(n as int, 10, (a * p + b / 10) as int, (b % 10) as int);
        lemma_fixed_digits_split(a, b / 10, w, (k - 1) as nat);
        assert((w + k - 1) as nat == w + (k - 1) as nat);
        assert(fixed_digits(n, w + k) == fixed_digits(n / 10, (w + k - 1) as nat).push(digit_char(n % 10)));
        assert(fixed_digits(b, k) == fixed_digits(b / 10, (k - 1) as nat).push(digit_char(b % 10)));
        assert(fixed_digits(n, w + k) =~= fixed_digits(a, w) + fixed_digits(b, k));
    }
}

} // verus!
