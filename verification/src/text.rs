//! Character classification and small string-scanning helpers shared by the
//! URI parser, the response-header parser, and the gemtext tokenizer.
//!
//! The Unicode character classes come from std and are modelled by
//! uninterpreted names; everything else is verified scanning code over
//! `Seq<char>` models.
use vstd::prelude::*;
use vstd::string::*;

verus! {

/// What `char::is_alphabetic` returns for a character.
pub uninterp spec fn is_alphabetic_char(c: char) -> bool;

/// What `char::is_whitespace` returns for a character.
pub uninterp spec fn is_whitespace_char(c: char) -> bool;

/// Relies on char::is_alphabetic: the result depends on the character alone.
#[verifier::external_body]
pub fn char_is_alphabetic(c: char) -> (r: bool)
    ensures
        r == is_alphabetic_char(c),
{
    c.is_alphabetic()
}

/// Relies on char::is_whitespace: the result depends on the character alone.
#[verifier::external_body]
pub fn char_is_whitespace(c: char) -> (r: bool)
    ensures
        r == is_whitespace_char(c),
{
    c.is_whitespace()
}

/// Relies on std::str::from_utf8: it succeeds exactly on well-formed UTF-8
/// and returns a string over the same bytes, whose characters are their
/// decoding.
#[verifier::external_body]
pub fn utf8_from_bytes(v: &[u8]) -> (r: Option<&str>)
    ensures
        r is Some <==> vstd::utf8::valid_utf8(v@),
        r matches Some(s) ==> s.spec_bytes() == v@ && s@ == vstd::utf8::decode_utf8(v@),
{
    std::str::from_utf8(v).ok()
}

/// Relies on String::push: appends the one character.
#[verifier::external_body]
pub fn push_char(s: &mut String, c: char)
    ensures
        final(s)@ == old(s)@.push(c),
{
    s.push(c);
}

/// An ASCII decimal digit.
pub open spec fn is_digit(c: char) -> bool {
    48 <= c as u32 <= 57
}

/// The numeric value of an ASCII decimal digit.
pub open spec fn digit_val(c: char) -> int {
    c as u32 - 48
}

pub fn char_is_digit(c: char) -> (r: bool)
    ensures
        r == is_digit(c),
{
    let u = c as u32;
    48 <= u && u <= 57
}

/// The position of the first occurrence of `c` in `s`, if any.
pub open spec fn find_first(s: Seq<char>, c: char) -> Option<int>
    decreases s.len(),
{
    if s.len() == 0 {
        None
    } else if s[0] == c {
        Some(0int)
    } else {
        match find_first(s.skip(1), c) {
            Some(i) => Some(i + 1),
            None => None,
        }
    }
}

/// The position of the last occurrence of `c` in `s`, if any.
pub open spec fn find_last(s: Seq<char>, c: char) -> Option<int>
    decreases s.len(),
{
    if s.len() == 0 {
        None
    } else if s[s.len() - 1] == c {
        Some(s.len() - 1)
    } else {
        find_last(s.subrange(0, s.len() - 1), c)
    }
}

/// `find_first` points at an occurrence of `c` and nothing before it is one.
pub proof fn lemma_find_first(s: Seq<char>, c: char)
    ensures
        match find_first(s, c) {
            Some(i) => 0 <= i < s.len() && s[i] == c && (forall|j: int| 0 <= j < i ==> s[j] != c),
            None => forall|j: int| 0 <= j < s.len() ==> s[j] != c,
        },
    decreases s.len(),
{
    if s.len() > 0 && s[0] != c {
        let t = s.skip(1);
        lemma_find_first(t, c);
        match find_first(t, c) {
            Some(i) => {
                assert(t[i] == s[i + 1]);
                assert forall|j: int| 0 <= j < i + 1 implies s[j] != c by {
                    if j > 0 {
                        assert(t[j - 1] == s[j]);
                    }
                }
            },
            None => {
                assert forall|j: int| 0 <= j < s.len() implies s[j] != c by {
                    if j > 0 {
                        assert(t[j - 1] == s[j]);
                    }
                }
            },
        }
    }
}

/// `find_last` points at an occurrence of `c` and nothing after it is one.
pub proof fn lemma_find_last(s: Seq<char>, c: char)
    ensures
        match find_last(s, c) {
            Some(i) => 0 <= i < s.len() && s[i] == c && (forall|j: int|
                i < j < s.len() ==> s[j] != c),
            None => forall|j: int| 0 <= j < s.len() ==> s[j] != c,
        },
    decreases s.len(),
{
    if s.len() > 0 && s[s.len() - 1] != c {
        let p = s.subrange(0, s.len() - 1);
        lemma_find_last(p, c);
        match find_last(p, c) {
            Some(i) => {
                assert(p[i] == s[i]);
                assert forall|j: int| i < j < s.len() implies s[j] != c by {
                    if j < s.len() - 1 {
                        assert(p[j] == s[j]);
                    }
                }
            },
            None => {
                assert forall|j: int| 0 <= j < s.len() implies s[j] != c by {
                    if j < s.len() - 1 {
                        assert(p[j] == s[j]);
                    }
                }
            },
        }
    }
}

/// Scans `s` from the left for `c`.
pub fn str_find(s: &str, c: char) -> (r: Option<usize>)
    ensures
        match r {
            Some(i) => i < s@.len() && find_first(s@, c) == Some(i as int),
            None => find_first(s@, c) is None,
        },
{
    let n = s.unicode_len();
    let mut i: usize = 0;
    while i < n
        invariant
            i <= n,
            n == s@.len(),
            forall|j: int| 0 <= j < i ==> s@[j] != c,
        decreases n - i,
    {
        if s.get_char(i) == c {
            proof {
                lemma_find_first(s@, c);
            }
            return Some(i);
        }
        i = i + 1;
    }
    proof {
        lemma_find_first(s@, c);
    }
    None
}

/// Scans `s` from the right for `c`.
pub fn str_rfind(s: &str, c: char) -> (r: Option<usize>)
    ensures
        match r {
            Some(i) => i < s@.len() && find_last(s@, c) == Some(i as int),
            None => find_last(s@, c) is None,
        },
{
    let n = s.unicode_len();
    let mut i: usize = n;
    while i > 0
        invariant
            i <= n,
            n == s@.len(),
            forall|j: int| i <= j < n ==> s@[j] != c,
        decreases i,
    {
        i = i - 1;
        if s.get_char(i) == c {
            proof {
                lemma_find_last(s@, c);
            }
            return Some(i);
        }
    }
    proof {
        lemma_find_last(s@, c);
    }
    None
}

/// True when `s` begins with `c`.
pub fn starts_with_char(s: &str, c: char) -> (r: bool)
    ensures
        r == (s@.len() > 0 && s@[0] == c),
{
    if s.unicode_len() > 0 {
        s.get_char(0) == c
    } else {
        false
    }
}

/// True when `s` begins with the two characters `c0 c1`.
pub fn starts_with_2(s: &str, c0: char, c1: char) -> (r: bool)
    ensures
        r == (s@.len() >= 2 && s@[0] == c0 && s@[1] == c1),
{
    s.unicode_len() >= 2 && s.get_char(0) == c0 && s.get_char(1) == c1
}

/// True when `s` begins with the three characters `c0 c1 c2`.
pub fn starts_with_3(s: &str, c0: char, c1: char, c2: char) -> (r: bool)
    ensures
        r == (s@.len() >= 3 && s@[0] == c0 && s@[1] == c1 && s@[2] == c2),
{
    s.unicode_len() >= 3 && s.get_char(0) == c0 && s.get_char(1) == c1 && s.get_char(2) == c2
}

/// All characters of `s` are ASCII decimal digits.
pub open spec fn all_digits(s: Seq<char>) -> bool {
    forall|i: int| 0 <= i < s.len() ==> is_digit(s[i])
}

pub fn str_all_digits(s: &str) -> (r: bool)
    ensures
        r == all_digits(s@),
{
    let n = s.unicode_len();
    let mut i: usize = 0;
    while i < n
        invariant
            i <= n,
            n == s@.len(),
            forall|j: int| 0 <= j < i ==> is_digit(s@[j]),
        decreases n - i,
    {
        if !char_is_digit(s.get_char(i)) {
            return false;
        }
        i = i + 1;
    }
    true
}

/// The value of `s` read as a decimal numeral, most significant digit first.
pub open spec fn dec_val(s: Seq<char>) -> int
    decreases s.len(),
{
    if s.len() == 0 {
        0
    } else {
        10 * dec_val(s.subrange(0, s.len() - 1)) + digit_val(s[s.len() - 1])
    }
}

/// A decimal numeral's value is never negative.
pub proof fn lemma_dec_val_nonneg(s: Seq<char>)
    requires
        all_digits(s),
    ensures
        dec_val(s) >= 0,
    decreases s.len(),
{
    if s.len() > 0 {
        assert(all_digits(s.subrange(0, s.len() - 1)));
        lemma_dec_val_nonneg(s.subrange(0, s.len() - 1));
    }
}

/// Reading more digits never shrinks the value.
pub proof fn lemma_dec_val_grows(s: Seq<char>, i: int)
    requires
        all_digits(s),
        0 <= i <= s.len(),
    ensures
        dec_val(s) >= dec_val(s.subrange(0, i)),
    decreases s.len() - i,
{
    if i < s.len() {
        lemma_dec_val_grows(s, i + 1);
        let q = s.subrange(0, i);
        let p = s.subrange(0, i + 1);
        assert(p.subrange(0, p.len() - 1) =~= q);
        assert(p[i] == s[i]);
        assert(is_digit(s[i]));
        assert forall|j: int| 0 <= j < q.len() implies is_digit(q[j]) by {
            assert(q[j] == s[j]);
        }
        lemma_dec_val_nonneg(q);
        assert(dec_val(p) == 10 * dec_val(q) + digit_val(s[i]));
    } else {
        assert(s.subrange(0, i) =~= s);
    }
}

/// Reads `s` as a decimal numeral of value at most `max`: fails on an empty
/// string, a non-digit, or a value out of range (however many leading
/// zeros there are).
pub fn parse_dec_bounded(s: &str, max: u32) -> (r: Option<u32>)
    ensures
        match r {
            Some(v) => s@.len() > 0 && all_digits(s@) && v == dec_val(s@) && v <= max,
            None => s@.len() == 0 || !all_digits(s@) || dec_val(s@) > max,
        },
{
    let n = s.unicode_len();
    if n == 0 {
        return None;
    }
    let mut acc: u32 = 0;
    let mut i: usize = 0;
    while i < n
        invariant
            i <= n,
            n == s@.len(),
            max <= u32::MAX,
            acc <= max,
            all_digits(s@.subrange(0, i as int)),
            acc == dec_val(s@.subrange(0, i as int)),
        decreases n - i,
    {
        let c = s.get_char(i);
        if !char_is_digit(c) {
            assert(!all_digits(s@));
            return None;
        }
        let d = (c as u32) - 48;
        proof {
            assert(s@.subrange(0, i + 1).subrange(0, i as int) =~= s@.subrange(0, i as int));
        }
        if acc > (u32::MAX - d) / 10 || 10 * acc + d > max {
            proof {
                assert(all_digits(s@.subrange(0, i + 1)));
                assert(dec_val(s@.subrange(0, i + 1)) == 10 * (acc as int) + d);
                if all_digits(s@) {
                    lemma_dec_val_grows(s@, i + 1);
                }
            }
            return None;
        }
        acc = 10 * acc + d;
        i = i + 1;
        assert(acc == dec_val(s@.subrange(0, i as int)));
    }
    proof {
        assert(s@.subrange(0, n as int) =~= s@);
    }
    Some(acc)
}

/// `s` without its leading whitespace.
pub open spec fn trim_start_ws(s: Seq<char>) -> Seq<char>
    decreases s.len(),
{
    if s.len() > 0 && is_whitespace_char(s[0]) {
        trim_start_ws(s.skip(1))
    } else {
        s
    }
}

/// Drops the leading whitespace of `s`.
pub fn str_trim_start_ws(s: &str) -> (r: &str)
    ensures
        r@ == trim_start_ws(s@),
{
    let n = s.unicode_len();
    let mut i: usize = 0;
    proof {
        assert(s@.subrange(0, n as int) =~= s@);
    }
    while i < n && char_is_whitespace(s.get_char(i))
        invariant
            i <= n,
            n == s@.len(),
            trim_start_ws(s@) == trim_start_ws(s@.subrange(i as int, n as int)),
        decreases n - i,
    {
        proof {
            assert(s@.subrange(i as int, n as int).skip(1) =~= s@.subrange(i + 1, n as int));
        }
        i = i + 1;
    }
    proof {
        if i < n {
            assert(trim_start_ws(s@.subrange(i as int, n as int)) == s@.subrange(
                i as int,
                n as int,
            ));
        }
    }
    s.substring_char(i, n)
}

/// The position of the first whitespace character of `s`, if any.
pub open spec fn find_first_ws(s: Seq<char>) -> Option<int>
    decreases s.len(),
{
    if s.len() == 0 {
        None
    } else if is_whitespace_char(s[0]) {
        Some(0int)
    } else {
        match find_first_ws(s.skip(1)) {
            Some(i) => Some(i + 1),
            None => None,
        }
    }
}

/// `find_first_ws` points at whitespace and nothing before it is whitespace.
pub proof fn lemma_find_first_ws(s: Seq<char>)
    ensures
        match find_first_ws(s) {
            Some(i) => 0 <= i < s.len() && is_whitespace_char(s[i]) && (forall|j: int|
                0 <= j < i ==> !is_whitespace_char(s[j])),
            None => forall|j: int| 0 <= j < s.len() ==> !is_whitespace_char(s[j]),
        },
    decreases s.len(),
{
    if s.len() > 0 && !is_whitespace_char(s[0]) {
        let t = s.skip(1);
        lemma_find_first_ws(t);
        match find_first_ws(t) {
            Some(i) => {
                assert(t[i] == s[i + 1]);
                assert forall|j: int| 0 <= j < i + 1 implies !is_whitespace_char(s[j]) by {
                    if j > 0 {
                        assert(t[j - 1] == s[j]);
                    }
                }
            },
            None => {
                assert forall|j: int| 0 <= j < s.len() implies !is_whitespace_char(s[j]) by {
                    if j > 0 {
                        assert(t[j - 1] == s[j]);
                    }
                }
            },
        }
    }
}

/// Scans `s` from the left for a whitespace character.
pub fn str_find_ws(s: &str) -> (r: Option<usize>)
    ensures
        match r {
            Some(i) => i < s@.len() && find_first_ws(s@) == Some(i as int),
            None => find_first_ws(s@) is None,
        },
{
    let n = s.unicode_len();
    let mut i: usize = 0;
    while i < n
        invariant
            i <= n,
            n == s@.len(),
            forall|j: int| 0 <= j < i ==> !is_whitespace_char(s@[j]),
        decreases n - i,
    {
        if char_is_whitespace(s.get_char(i)) {
            proof {
                lemma_find_first_ws(s@);
            }
            return Some(i);
        }
        i = i + 1;
    }
    proof {
        lemma_find_first_ws(s@);
    }
    None
}

} // verus!
