use vstd::prelude::*;
use vstd::string::{StrSliceExecFns, StringExecFns};

use crate::formatting::{
    digit_char, fixed_digits, lemma_fixed_digits_split, lemma_zero_padded_is_fixed, pow10, zero_padded, zero_padded_string,
};

verus! {

/// The interpreter's major version.
#[derive(Debug, Clone, Copy, PartialEq, Eq, Structural)]
pub enum AGIMajorVersion {
    AGI2,
    AGI3,
}

/// An interpreter version: the major version and the minor number
/// (for version 3 the two dotted parts run together, `3.002.086` is minor 2086).
#[derive(Debug, Clone, Copy, PartialEq, Eq, Structural)]
pub struct AGIVersion {
    pub major: AGIMajorVersion,
    pub minor: u32,
}

/// The number that a major version is written as.
pub open spec fn major_number(major: AGIMajorVersion) -> int {
    match major {
        AGIMajorVersion::AGI2 => 2,
        AGIMajorVersion::AGI3 => 3,
    }
}

/// Versions order by major version first, then by minor number.
pub open spec fn version_lt(a: AGIVersion, b: AGIVersion) -> bool {
    ||| major_number(a.major) < major_number(b.major)
    ||| (a.major == b.major && a.minor < b.minor)
}

impl AGIMajorVersion {
    /// The major version written as `value`; only 2 and 3 exist.
    pub fn from_u8(value: u8) -> (r: AGIMajorVersion)
        requires
            value == 2 || value == 3,
        ensures
            major_number(r) == value,
    {
        if value == 2 {
            AGIMajorVersion::AGI2
        } else {
            AGIMajorVersion::AGI3
        }
    }
}

impl AGIVersion {
    pub fn new(major: u8, minor: u32) -> (r: AGIVersion)
        requires
            major == 2 || major == 3,
        ensures
            major_number(r.major) == major,
            r.minor == minor,
    {
        AGIVersion { major: AGIMajorVersion::from_u8(major), minor }
    }

    pub fn default_v2() -> (r: AGIVersion)
        ensures
            r == (AGIVersion { major: AGIMajorVersion::AGI2, minor: 936 }),
    {
        AGIVersion::new(2, 936)
    }

    pub fn default_v3() -> (r: AGIVersion)
        ensures
            r == (AGIVersion { major: AGIMajorVersion::AGI3, minor: 2149 }),
    {
        AGIVersion::new(3, 2149)
    }

    /// `self < other` in the version order.
    pub fn less_than(&self, other: &AGIVersion) -> (r: bool)
        ensures
            r == version_lt(*self, *other),
    {
        let a: u8 = match self.major {
            AGIMajorVersion::AGI2 => 2,
            AGIMajorVersion::AGI3 => 3,
        };
        let b: u8 = match other.major {
            AGIMajorVersion::AGI2 => 2,
            AGIMajorVersion::AGI3 => 3,
        };
        if a != b {
            a < b
        } else {
            self.minor < other.minor
        }
    }

    /// Searches an `AGIDATA.OVL` image for its version banner, `Version 2.xxx`
    /// or `Version 3.xxx.yyy`, and returns the first well-formed one.
    pub fn detect_from_agidata_ovl(ovl_data: &[u8]) -> (r: Option<AGIVersion>)
        requires
            ovl_data@.len() >= 8,
            ovl_scan(ovl_data@, 0) != OvlScan::Fault,
        ensures
            ovl_scan(ovl_data@, 0) == OvlScan::NotFound ==> r is None,
            ovl_scan(ovl_data@, 0) matches OvlScan::Found(v) ==> r == Some(v),
            r matches Some(v) ==> exists|j: int| #[trigger] banner_at(ovl_data@, j, v),
    {
        match AGIVersion::detect_from_agidata_ovl_checked(ovl_data) {
            Some(r) => r,
            None => None,
        }
    }

    /// Whether the banner search panics on `ovl_data`: data shorter than
    /// eight bytes, or a banner cut off by the end of the data.
    pub fn agidata_ovl_scan_panics(ovl_data: &[u8]) -> (b: bool)
        ensures
            b == (ovl_data@.len() < 8 || ovl_scan(ovl_data@, 0) == OvlScan::Fault),
    {
        AGIVersion::detect_from_agidata_ovl_checked(ovl_data).is_none()
    }

    /// The banner search, with `None` on the data where it panics.
    pub fn detect_from_agidata_ovl_checked(ovl_data: &[u8]) -> (r: Option<Option<AGIVersion>>)
        ensures
            r is None <==> (ovl_data@.len() < 8 || ovl_scan(ovl_data@, 0) == OvlScan::Fault),
            ovl_data@.len() >= 8 && ovl_scan(ovl_data@, 0) == OvlScan::NotFound ==> r == Some(None::<AGIVersion>),
            ovl_data@.len() >= 8 ==> (ovl_scan(ovl_data@, 0) matches OvlScan::Found(v) ==> r == Some(Some(v))),
            r matches Some(Some(v)) ==> exists|j: int| #[trigger] banner_at(ovl_data@, j, v),
    {
        proof {
            lemma_found_version_is_banner_text(ovl_data@, 0);
        }
        let len = ovl_data.len();
        if len < 8 {
            return None;
        }
        let mut i: usize = 0;
        while i < len - 8
            invariant
                len == ovl_data@.len(),
                len >= 8,
                i <= len - 8,
                ovl_scan(ovl_data@, 0) == ovl_scan(ovl_data@, i as int),
                ovl_scan(ovl_data@, 0) matches OvlScan::Found(v) ==> exists|j: int| #[trigger] banner_at(ovl_data@, j, v),
            decreases len - i,
        {
            let ghost s = ovl_data@;
            if has_version_tag(ovl_data, i) {
                let vi = i + 8;
                let major_num = ovl_data[vi];
                if major_num != 50 && major_num != 51 {
                    i = i + 1;
                    continue;
                }
                if vi + 1 >= len {
                    return None;
                }
                if ovl_data[vi + 1] != 46 {
                    i = i + 1;
                    continue;
                }
                if len - vi < 5 {
                    return None;
                }
                if !(is_digit_byte(ovl_data[vi + 2]) && is_digit_byte(ovl_data[vi + 3])
                    && is_digit_byte(ovl_data[vi + 4])) {
                    i = i + 1;
                    continue;
                }
                let minor1 = three_digit_value(ovl_data, vi + 2);
                if major_num == 50 {
                    return Some(Some(AGIVersion { major: AGIMajorVersion::AGI2, minor: minor1 }));
                }
                if vi + 5 >= len {
                    return None;
                }
                if ovl_data[vi + 5] != 46 {
                    i = i + 1;
                    continue;
                }
                if len - vi < 9 {
                    return None;
                }
                if !(is_digit_byte(ovl_data[vi + 6]) && is_digit_byte(ovl_data[vi + 7])
                    && is_digit_byte(ovl_data[vi + 8])) {
                    i = i + 1;
                    continue;
                }
                let minor2 = three_digit_value(ovl_data, vi + 6);
                return Some(Some(AGIVersion { major: AGIMajorVersion::AGI3, minor: minor1 * 1000 + minor2 }));
            }
            i = i + 1;
        }
        Some(None)
    }
}

/// How a version is written: `2.` and the minor number in three digits, or
/// `3.`, then the minor number in six digits with a dot after the third.
pub open spec fn version_text(v: AGIVersion) -> Seq<char> {
    match v.major {
        AGIMajorVersion::AGI2 => seq!['2', '.'] + zero_padded(v.minor as nat, 3),
        AGIMajorVersion::AGI3 => {
            let p = zero_padded(v.minor as nat, 6);
            seq!['3', '.'] + p.take(3) + seq!['.'] + p.skip(3)
        },
    }
}

impl AGIVersion {
    /// The version as it is written, such as `2.936` or `3.002.149`.
    pub fn to_string(&self) -> (r: String)
        ensures
            r@ == version_text(*self),
    {
        proof {
            reveal_strlit("2.");
            reveal_strlit("3.");
            reveal_strlit(".");
        }
        match self.major {
            AGIMajorVersion::AGI2 => {
                let mut s = String::from_str("2.");
                let p = zero_padded_string(self.minor, 3);
                s.append(p.as_str());
                s
            },
            AGIMajorVersion::AGI3 => {
                let p = zero_padded_string(self.minor, 6);
                let n = p.as_str().unicode_len();
                let mut s = String::from_str("3.");
                s.append(p.as_str().substring_char(0, 3));
                s.append(".");
                s.append(p.as_str().substring_char(3, n));
                proof {
                    assert(p@.subrange(0, 3) =~= p@.take(3));
                    assert(p@.subrange(3, n as int) =~= p@.skip(3));
                }
                s
            },
        }
    }
}

/// `Version ` in ASCII.
pub open spec fn version_tag() -> Seq<u8> {
    seq![86u8, 101u8, 114u8, 115u8, 105u8, 111u8, 110u8, 32u8]
}

pub open spec fn is_ascii_digit(b: u8) -> bool {
    48 <= b <= 57
}

/// The number written by the three ASCII digits at `k`.
pub open spec fn digits3(s: Seq<u8>, k: int) -> int {
    (s[k] - 48) * 100 + (s[k + 1] - 48) * 10 + (s[k + 2] - 48)
}

/// What a banner search finds from position `i` on: a version, nothing,
/// or a banner cut off by the end of the data.
pub enum OvlScan {
    Found(AGIVersion),
    NotFound,
    Fault,
}

/// The banner search over `s` from position `i`: a tag `Version ` at a
/// position below `len - 8`, a major digit `2` or `3`, a dot and three digits,
/// and for version 3 another dot and three digits. A candidate that does not
/// fit is skipped; one that runs past the end of the data is a fault.
pub open spec fn ovl_scan(s: Seq<u8>, i: int) -> OvlScan
    decreases s.len() - i,
{
    if i < 0 || i >= s.len() - 8 {
        OvlScan::NotFound
    } else if s.subrange(i, i + 8) != version_tag() {
        ovl_scan(s, i + 1)
    } else {
        let vi = i + 8;
        let m = s[vi];
        if m != 50 && m != 51 {
            ovl_scan(s, i + 1)
        } else if vi + 1 >= s.len() {
            OvlScan::Fault
        } else if s[vi + 1] != 46 {
            ovl_scan(s, i + 1)
        } else if vi + 5 > s.len() {
            OvlScan::Fault
        } else if !(is_ascii_digit(s[vi + 2]) && is_ascii_digit(s[vi + 3]) && is_ascii_digit(
            s[vi + 4],
        )) {
            ovl_scan(s, i + 1)
        } else if m == 50 {
            OvlScan::Found(AGIVersion { major: AGIMajorVersion::AGI2, minor: digits3(s, vi + 2) as u32 })
        } else if vi + 5 >= s.len() {
            OvlScan::Fault
        } else if s[vi + 5] != 46 {
            ovl_scan(s, i + 1)
        } else if vi + 9 > s.len() {
            OvlScan::Fault
        } else if !(is_ascii_digit(s[vi + 6]) && is_ascii_digit(s[vi + 7]) && is_ascii_digit(
            s[vi + 8],
        )) {
            ovl_scan(s, i + 1)
        } else {
            OvlScan::Found(
                AGIVersion {
                    major: AGIMajorVersion::AGI3,
                    minor: (digits3(s, vi + 2) * 1000 + digits3(s, vi + 6)) as u32,
                },
            )
        }
    }
}

fn is_digit_byte(b: u8) -> (r: bool)
    ensures
        r == is_ascii_digit(b),
{
    48 <= b && b <= 57
}

fn three_digit_value(s: &[u8], k: usize) -> (r: u32)
    requires
        k + 3 <= s@.len(),
        is_ascii_digit(s@[k as int]),
        is_ascii_digit(s@[k + 1]),
        is_ascii_digit(s@[k + 2]),
    ensures
        r == digits3(s@, k as int),
        r <= 999,
{
    (s[k] - 48) as u32 * 100 + (s[k + 1] - 48) as u32 * 10 + (s[k + 2] - 48) as u32
}

fn has_version_tag(s: &[u8], i: usize) -> (r: bool)
    requires
        i + 8 <= s@.len(),
    ensures
        r == (s@.subrange(i as int, i + 8) == version_tag()),
{
    let r = s[i] == 86 && s[i + 1] == 101 && s[i + 2] == 114 && s[i + 3] == 115 && s[i + 4] == 105
        && s[i + 5] == 111 && s[i + 6] == 110 && s[i + 7] == 32;
    proof {
        if r {
            assert(s@.subrange(i as int, i + 8) =~= version_tag());
        } else {
            if s@.subrange(i as int, i + 8) == version_tag() {
                assert(s@.subrange(i as int, i + 8)[0] == version_tag()[0]);
                assert(s@.subrange(i as int, i + 8)[1] == version_tag()[1]);
                assert(s@.subrange(i as int, i + 8)[2] == version_tag()[2]);
                assert(s@.subrange(i as int, i + 8)[3] == version_tag()[3]);
                assert(s@.subrange(i as int, i + 8)[4] == version_tag()[4]);
                assert(s@.subrange(i as int, i + 8)[5] == version_tag()[5]);
                assert(s@.subrange(i as int, i + 8)[6] == version_tag()[6]);
                assert(s@.subrange(i as int, i + 8)[7] == version_tag()[7]);
            }
        }
    }
    r
}

/// Bytes read as ASCII characters.
pub open spec fn ascii_text(b: Seq<u8>) -> Seq<char> {
    b.map_values(|x: u8| x as char)
}

/// At `j` the data holds `Version ` and then exactly the characters of `v`
/// as it is written.
pub open spec fn banner_at(s: Seq<u8>, j: int, v: AGIVersion) -> bool {
    &&& 0 <= j
    &&& j + 8 + version_text(v).len() <= s.len()
    &&& s.subrange(j, j + 8) == version_tag()
    &&& ascii_text(s.subrange(j + 8, j + 8 + version_text(v).len())) == version_text(v)
}

proof fn lemma_three_digits_text(s: Seq<u8>, k: int)
    requires
        0 <= k,
        k + 3 <= s.len(),
        is_ascii_digit(s[k]),
        is_ascii_digit(s[k + 1]),
        is_ascii_digit(s[k + 2]),
    ensures
        0 <= digits3(s, k) < 1000,
        fixed_digits(digits3(s, k) as nat, 3) == ascii_text(s.subrange(k, k + 3)),
{
    let d0 = s[k] - 48;
    let d1 = s[k + 1] - 48;
    let d2 = s[k + 2] - 48;
    let a = digits3(s, k);
    assert(a == 10 * (d0 * 10 + d1) + d2);
    vstd::arithmetic::div_mod::lemma_fundamental_div_mod_converse(a, 10, d0 * 10 + d1, d2);
    vstd::arithmetic::div_mod::lemma_fundamental_div_mod_converse(d0 * 10 + d1, 10, d0, d1);
    vstd::arithmetic::div_mod::lemma_fundamental_div_mod_converse(d0, 10, 0, d0);
    let n = a as nat;
    assert(fixed_digits(n, 3) == fixed_digits(n / 10, 2).push(digit_char(n % 10)));
    assert(fixed_digits(n / 10, 2) == fixed_digits(n / 10 / 10, 1).push(digit_char(n / 10 % 10)));
    assert(fixed_digits(n / 10 / 10, 1) == fixed_digits(n / 10 / 10 / 10, 0).push(digit_char(n / 10 / 10 % 10)));
    assert(digit_char(n % 10) == s[k + 2] as char);
    assert(digit_char(n / 10 % 10) == s[k + 1] as char);
    assert(digit_char(n / 10 / 10 % 10) == s[k] as char);
    assert(fixed_digits(n, 3) =~= ascii_text(s.subrange(k, k + 3)));
}

/// Where the banner search finds a version, the version as it is written
/// is the text of a banner in the data: `Version `, then exactly the
/// characters of the version (for version 3, `3.`, the first three digits,
/// `.`, the other three; the minor number is the six digits read as one
/// number).
pub proof fn lemma_found_version_is_banner_text(s: Seq<u8>, i: int)
    ensures
        ovl_scan(s, i) matches OvlScan::Found(v) ==> exists|j: int| #[trigger] banner_at(s, j, v),
    decreases s.len() - i,
{
    if i < 0 || i >= s.len() - 8 {
    } else if s.subrange(i, i + 8) != version_tag() {
        lemma_found_version_is_banner_text(s, i + 1);
    } else {
        let vi = i + 8;
        let m = s[vi];
        if m != 50 && m != 51 {
            lemma_found_version_is_banner_text(s, i + 1);
        } else if vi + 1 >= s.len() {
        } else if s[vi + 1] != 46 {
            lemma_found_version_is_banner_text(s, i + 1);
        } else if vi + 5 > s.len() {
        } else if !(is_ascii_digit(s[vi + 2]) && is_ascii_digit(s[vi + 3]) && is_ascii_digit(s[vi + 4])) {
            lemma_found_version_is_banner_text(s, i + 1);
        } else if m == 50 {
            let v = AGIVersion { major: AGIMajorVersion::AGI2, minor: digits3(s, vi + 2) as u32 };
            lemma_three_digits_text(s, vi + 2);
            assert(pow10(3) == 1000) by {
                reveal_with_fuel(pow10, 4);
            }
            lemma_zero_padded_is_fixed(v.minor as nat, 3);
            assert(version_text(v) =~= ascii_text(s.subrange(vi, vi + 5))) by {
                assert(ascii_text(s.subrange(vi, vi + 5)) =~= seq![s[vi] as char, s[vi + 1] as char] + ascii_text(
                    s.subrange(vi + 2, vi + 5),
                ));
                assert((50u8 as char) == '2');
                assert((46u8 as char) == '.');
            }
            assert(banner_at(s, i, v));
        } else if vi + 5 >= s.len() {
        } else if s[vi + 5] != 46 {
            lemma_found_version_is_banner_text(s, i + 1);
        } else if vi + 9 > s.len() {
        } else if !(is_ascii_digit(s[vi + 6]) && is_ascii_digit(s[vi + 7]) && is_ascii_digit(s[vi + 8])) {
            lemma_found_version_is_banner_text(s, i + 1);
        } else {
            let a = digits3(s, vi + 2);
            let b = digits3(s, vi + 6);
            let v = AGIVersion { major: AGIMajorVersion::AGI3, minor: (a * 1000 + b) as u32 };
            lemma_three_digits_text(s, vi + 2);
            lemma_three_digits_text(s, vi + 6);
            assert(pow10(3) == 1000 && pow10(6) == 1000000) by {
                reveal_with_fuel(pow10, 7);
            }
            assert(v.minor as nat == a * 1000 + b);
            lemma_zero_padded_is_fixed(v.minor as nat, 6);
            lemma_fixed_digits_split(a as nat, b as nat, 3, 3);
            let p = zero_padded(v.minor as nat, 6);
            assert(p == fixed_digits(a as nat, 3) + fixed_digits(b as nat, 3));
            assert(p.take(3) =~= fixed_digits(a as nat, 3));
            assert(p.skip(3) =~= fixed_digits(b as nat, 3));
            assert(version_text(v) =~= ascii_text(s.subrange(vi, vi + 9))) by {
                assert(ascii_text(s.subrange(vi, vi + 9)) =~= seq![s[vi] as char, s[vi + 1] as char] + ascii_text(
                    s.subrange(vi + 2, vi + 5),
                ) + seq![s[vi + 5] as char] + ascii_text(s.subrange(vi + 6, vi + 9)));
                assert((51u8 as char) == '3');
                assert((46u8 as char) == '.');
            }
            assert(banner_at(s, i, v));
        }
    }
}

} // verus!
