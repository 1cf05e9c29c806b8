//! Setting names and decimal path segments.
//!
//! A setting name starts with a letter or `*` and continues with letters,
//! digits, `-`, `_` or `*`.  A path segment that addresses an element of an
//! array or list is a nonempty run of decimal digits; `dec_value` gives the
//! number such a run denotes.

use vstd::prelude::*;

verus! {

pub open spec fn is_letter(c: char) -> bool {
    ('a' <= c && c <= 'z') || ('A' <= c && c <= 'Z')
}

pub open spec fn is_digit(c: char) -> bool {
    '0' <= c && c <= '9'
}

pub open spec fn is_name_start(c: char) -> bool {
    is_letter(c) || c == '*'
}

pub open spec fn is_name_char(c: char) -> bool {
    is_letter(c) || is_digit(c) || c == '-' || c == '_' || c == '*'
}

/// The boolean keyword a word spells, if it spells one.  The four keyword
/// spellings are read as boolean literals by the text format and can
/// therefore never serve as setting names.
pub open spec fn bool_word(s: Seq<char>) -> Option<bool> {
    if s == seq!['t', 'r', 'u', 'e'] || s == seq!['T', 'R', 'U', 'E'] {
        Some(true)
    } else if s == seq!['f', 'a', 'l', 's', 'e'] || s == seq!['F', 'A', 'L', 'S', 'E'] {
        Some(false)
    } else {
        None
    }
}

/// A valid setting name: nonempty, a name-start character followed by
/// name characters, and not a boolean keyword.
pub open spec fn valid_name(s: Seq<char>) -> bool {
    &&& s.len() > 0
    &&& is_name_start(s[0])
    &&& (forall|i: int| 0 < i < s.len() ==> is_name_char(#[trigger] s[i]))
    &&& bool_word(s) is None
}

/// A nonempty, all-digit segment.
pub open spec fn all_digits(s: Seq<char>) -> bool {
    s.len() > 0 && forall|i: int| 0 <= i < s.len() ==> is_digit(#[trigger] s[i])
}

pub open spec fn digit_val(c: char) -> nat {
    (c as nat - '0' as nat) as nat
}

/// The number denoted by a digit sequence, most significant digit first.
pub open spec fn dec_value(s: Seq<char>) -> nat
    decreases s.len(),
{
    if s.len() == 0 {
        0
    } else {
        dec_value(s.take(s.len() - 1)) * 10 + digit_val(s[s.len() - 1])
    }
}

/// Extending a digit run never shrinks its value.
pub proof fn lemma_dec_value_prefix(s: Seq<char>, m: int)
    requires
        0 <= m <= s.len(),
    ensures
        dec_value(s.take(m)) <= dec_value(s),
    decreases s.len() - m,
{
    if m < s.len() {
        lemma_dec_value_prefix(s.take(s.len() - 1), m);
        assert(s.take(s.len() - 1).take(m) == s.take(m));
    } else {
        assert(s.take(m) == s);
    }
}

pub open spec fn is_float_char(c: char) -> bool {
    is_digit(c) || c == '.' || c == '-' || c == '+' || c == 'e' || c == 'E'
}

pub open spec fn is_float_mark(c: char) -> bool {
    c == '.' || c == 'e' || c == 'E'
}

/// Whether a literal opens the way a number token may: with a digit, a
/// sign or point followed by a digit, or a sign, point and digit.
pub open spec fn float_start(s: Seq<char>) -> bool {
    ||| s.len() > 0 && is_digit(s[0])
    ||| s.len() > 1 && (s[0] == '-' || s[0] == '+') && is_digit(s[1])
    ||| s.len() > 1 && s[0] == '.' && is_digit(s[1])
    ||| s.len() > 2 && (s[0] == '-' || s[0] == '+') && s[1] == '.' && is_digit(s[2])
}

/// A well-shaped floating-point literal: float characters only, opening as
/// a number token does, with at least one digit and a point or exponent
/// marker (so that it cannot read as an integer literal).
pub open spec fn valid_float_literal(s: Seq<char>) -> bool {
    &&& s.len() > 0
    &&& (forall|i: int| 0 <= i < s.len() ==> is_float_char(#[trigger] s[i]))
    &&& (exists|i: int| 0 <= i < s.len() && is_digit(#[trigger] s[i]))
    &&& (exists|i: int| 0 <= i < s.len() && is_float_mark(#[trigger] s[i]))
    &&& float_start(s)
}

pub fn char_is_digit(c: char) -> (b: bool)
    ensures
        b == is_digit(c),
{
    '0' <= c && c <= '9'
}

pub fn char_is_name_start(c: char) -> (b: bool)
    ensures
        b == is_name_start(c),
{
    ('a' <= c && c <= 'z') || ('A' <= c && c <= 'Z') || c == '*'
}

pub fn char_is_name_char(c: char) -> (b: bool)
    ensures
        b == is_name_char(c),
{
    ('a' <= c && c <= 'z') || ('A' <= c && c <= 'Z') || ('0' <= c && c <= '9') || c == '-'
        || c == '_' || c == '*'
}

/// Checks whether the characters `v[lo..hi]` spell a boolean keyword.
pub fn check_bool_word(v: &Vec<char>, lo: usize, hi: usize) -> (r: Option<bool>)
    requires
        lo <= hi <= v@.len(),
    ensures
        r == bool_word(v@.subrange(lo as int, hi as int)),
{
    let ghost w = v@.subrange(lo as int, hi as int);
    let n = hi - lo;
    if n == 4 {
        if v[lo] == 't' && v[lo + 1] == 'r' && v[lo + 2] == 'u' && v[lo + 3] == 'e' {
            proof {
                assert(w =~= seq!['t', 'r', 'u', 'e']);
            }
            return Some(true);
        }
        if v[lo] == 'T' && v[lo + 1] == 'R' && v[lo + 2] == 'U' && v[lo + 3] == 'E' {
            proof {
                assert(w =~= seq!['T', 'R', 'U', 'E']);
            }
            return Some(true);
        }
        None
    } else if n == 5 {
        if v[lo] == 'f' && v[lo + 1] == 'a' && v[lo + 2] == 'l' && v[lo + 3] == 's' && v[lo + 4]
            == 'e' {
            proof {
                assert(w =~= seq!['f', 'a', 'l', 's', 'e']);
            }
            return Some(false);
        }
        if v[lo] == 'F' && v[lo + 1] == 'A' && v[lo + 2] == 'L' && v[lo + 3] == 'S' && v[lo + 4]
            == 'E' {
            proof {
                assert(w =~= seq!['F', 'A', 'L', 'S', 'E']);
            }
            return Some(false);
        }
        None
    } else {
        None
    }
}

/// Checks that a character sequence is a valid setting name.
pub fn check_name(s: &Vec<char>) -> (b: bool)
    ensures
        b == valid_name(s@),
{
    if s.len() == 0 {
        return false;
    }
    if !char_is_name_start(s[0]) {
        return false;
    }
    let mut i: usize = 1;
    while i < s.len()
        invariant
            1 <= i <= s@.len(),
            is_name_start(s@[0]),
            forall|j: int| 0 < j < i ==> is_name_char(#[trigger] s@[j]),
        decreases s@.len() - i,
    {
        if !char_is_name_char(s[i]) {
            return false;
        }
        i += 1;
    }
    let kw = check_bool_word(s, 0, s.len());
    proof {
        assert(s@.subrange(0, s@.len() as int) =~= s@);
    }
    kw.is_none()
}

/// Checks that a character sequence is a well-shaped floating-point literal.
pub fn check_float_literal(v: &Vec<char>) -> (b: bool)
    ensures
        b == valid_float_literal(v@),
{
    if v.len() == 0 {
        return false;
    }
    let starts_well = char_is_digit(v[0]) || (v.len() > 1 && (v[0] == '-' || v[0] == '+')
        && char_is_digit(v[1])) || (v.len() > 1 && v[0] == '.' && char_is_digit(v[1])) || (v.len()
        > 2 && (v[0] == '-' || v[0] == '+') && v[1] == '.' && char_is_digit(v[2]));
    if !starts_well {
        return false;
    }
    let mut has_digit = false;
    let mut has_mark = false;
    let mut i: usize = 0;
    while i < v.len()
        invariant
            i <= v@.len(),
            forall|t: int| 0 <= t < i ==> is_float_char(#[trigger] v@[t]),
            has_digit == exists|t: int| 0 <= t < i && is_digit(#[trigger] v@[t]),
            has_mark == exists|t: int| 0 <= t < i && is_float_mark(#[trigger] v@[t]),
        decreases v@.len() - i,
    {
        let c = v[i];
        if char_is_digit(c) {
            has_digit = true;
        } else if c == '.' || c == 'e' || c == 'E' {
            has_mark = true;
        } else if c == '-' || c == '+' {
        } else {
            return false;
        }
        i += 1;
    }
    has_digit && has_mark
}

} // verus!
