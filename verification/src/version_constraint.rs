//! The version-constraint grammar for dependency declarations: `*`, a bare
//! or `^`/`~`-prefixed version, or a comparison-operator-prefixed version,
//! where a version is `digits.digits.digits` with an optional `-pre` part of
//! letters, digits and dots.

use vstd::prelude::*;

use crate::strnum::is_digit_char;

verus! {

/// A character allowed in the pre-release part.
pub open spec fn is_pre_char(c: char) -> bool {
    is_digit_char(c) || ('a' <= c && c <= 'z') || ('A' <= c && c <= 'Z') || c == '.'
}

/// The first index at or after `i` that does not hold a digit.
pub open spec fn digits_end(s: Seq<char>, i: int) -> int
    decreases s.len() - i,
{
    if 0 <= i < s.len() && is_digit_char(s[i]) {
        digits_end(s, i + 1)
    } else {
        i
    }
}

/// `digits.digits.digits`, optionally followed by `-` and a non-empty
/// pre-release of letters, digits and dots.
pub open spec fn core_ok(s: Seq<char>) -> bool {
    let i1 = digits_end(s, 0);
    let i2 = digits_end(s, i1 + 1);
    let i3 = digits_end(s, i2 + 1);
    &&& i1 > 0
    &&& i1 < s.len() && s[i1] == '.'
    &&& i2 > i1 + 1
    &&& i2 < s.len() && s[i2] == '.'
    &&& i3 > i2 + 1
    &&& (i3 == s.len() || (s[i3] == '-' && i3 + 1 < s.len() && forall|k: int|
        i3 < k < s.len() ==> is_pre_char(#[trigger] s[k])))
}

/// The whole constraint grammar.
pub open spec fn constraint_ok(s: Seq<char>) -> bool {
    if s == seq!['*'] {
        true
    } else if s.len() >= 1 && (s[0] == '^' || s[0] == '~') {
        core_ok(s.skip(1))
    } else if s.len() >= 2 && (s[0] == '>' || s[0] == '<') && s[1] == '=' {
        core_ok(s.skip(2))
    } else if s.len() >= 1 && (s[0] == '>' || s[0] == '<' || s[0] == '=') {
        core_ok(s.skip(1))
    } else {
        core_ok(s)
    }
}

fn is_digit(c: char) -> (r: bool)
    ensures
        r == is_digit_char(c),
{
    c == '0' || c == '1' || c == '2' || c == '3' || c == '4' || c == '5' || c == '6' || c == '7'
        || c == '8' || c == '9'
}

fn is_pre(c: char) -> (r: bool)
    ensures
        r == is_pre_char(c),
{
    is_digit(c) || ('a' <= c && c <= 'z') || ('A' <= c && c <= 'Z') || c == '.'
}

/// Scans past the digits starting at `i`.
#[verifier::loop_isolation(false)]
fn scan_digits(s: &str, i: usize) -> (r: usize)
    requires
        i <= s@.len(),
    ensures
        r == digits_end(s@, i as int),
        i <= r <= s@.len(),
{
    let len = s.unicode_len();
    let mut j = i;
    while j < len && is_digit(s.get_char(j))
        invariant
            i <= j <= len,
            digits_end(s@, i as int) == digits_end(s@, j as int),
        decreases len - j,
    {
        j += 1;
    }
    j
}

/// Whether `s`, from index `i` on, is a well-formed version core.
#[verifier::loop_isolation(false)]
fn core_check(s: &str, i: usize) -> (r: bool)
    requires
        i <= s@.len(),
    ensures
        r == core_ok(s@.skip(i as int)),
{
    let ghost t = s@.skip(i as int);
    let len = s.unicode_len();
    let i1 = scan_digits(s, i);
    proof {
        lemma_digits_end_skip(s@, i as int, i as int);
    }
    if i1 == i || i1 >= len || s.get_char(i1) != '.' {
        return false;
    }
    let i2 = scan_digits(s, i1 + 1);
    proof {
        lemma_digits_end_skip(s@, i as int, i1 as int + 1);
    }
    if i2 == i1 + 1 || i2 >= len || s.get_char(i2) != '.' {
        return false;
    }
    let i3 = scan_digits(s, i2 + 1);
    proof {
        lemma_digits_end_skip(s@, i as int, i2 as int + 1);
    }
    if i3 == i2 + 1 {
        return false;
    }
    if i3 == len {
        return true;
    }
    if s.get_char(i3) != '-' || i3 + 1 >= len {
        return false;
    }
    let mut k = i3 + 1;
    while k < len
        invariant
            i3 + 1 <= k <= len,
            forall|x: int| i3 < x < k ==> is_pre_char(#[trigger] s@[x]),
        decreases len - k,
    {
        if !is_pre(s.get_char(k)) {
            proof {
                assert(t[k - i] == s@[k as int]);
            }
            return false;
        }
        k += 1;
    }
    proof {
        assert forall|x: int| i3 - i < x < t.len() implies is_pre_char(#[trigger] t[x]) by {
            assert(t[x] == s@[x + i]);
        }
    }
    true
}

/// Scanning digits inside the suffix `s.skip(base)` lands where scanning the
/// whole string does, shifted by `base`.
proof fn lemma_digits_end_skip(s: Seq<char>, base: int, i: int)
    requires
        0 <= base <= i <= s.len(),
    ensures
        digits_end(s.skip(base), i - base) == digits_end(s, i) - base,
    decreases s.len() - i,
{
    if i < s.len() && is_digit_char(s[i]) {
        lemma_digits_end_skip(s, base, i + 1);
    }
}

/// Whether `s` matches the version-constraint grammar.
pub fn is_valid_version_constraint(s: &str) -> (r: bool)
    ensures
        r == constraint_ok(s@),
{
    let len = s.unicode_len();
    if len == 1 && s.get_char(0) == '*' {
        proof {
            assert(s@ =~= seq!['*']);
        }
        return true;
    }
    proof {
        if s@ == seq!['*'] {
            assert(s@.len() == 1 && s@[0] == '*');
        }
    }
    if len >= 1 && (s.get_char(0) == '^' || s.get_char(0) == '~') {
        core_check(s, 1)
    } else if len >= 2 && (s.get_char(0) == '>' || s.get_char(0) == '<') && s.get_char(1) == '=' {
        core_check(s, 2)
    } else if len >= 1 && (s.get_char(0) == '>' || s.get_char(0) == '<' || s.get_char(0) == '=') {
        core_check(s, 1)
    } else {
        proof {
            assert(s@.skip(0) =~= s@);
        }
        core_check(s, 0)
    }
}

} // verus!
