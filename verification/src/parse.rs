//! Parsing of configuration text into a [`Config`] tree.
//!
//! The grammar: a document is a run of settings `name = value;` (a `:` may
//! stand for `=`, the terminator may be `;` or `,` and may be left out, and
//! `name { ... }` may stand for `name = { ... }`).  A value is a group
//! `{ settings }`, an array `[ scalars ]`, a list `( values )`, a quoted
//! string with `\\`, `\"`, `\n`, `\r`, `\t` escapes, `true` or `false`, or a
//! number: an integer (with an optional `L` or `LL` suffix forcing a 64-bit
//! value, and promotion to 64 bits when it does not fit in 32), or a
//! floating-point literal, kept as its text.  Whitespace and `#`, `//` and
//! `/* */` comments separate tokens.  Group members must bear distinct
//! names and array elements one shared scalar type; input breaking either
//! rule is rejected, so parsing only ever builds well-formed documents.
//!
//! The whole reading is pinned down at the spec level: `tok_spec` gives the
//! token sequence of a text, `ps_value`/`ps_settings`/`ps_elements` give the
//! tree a token sequence builds (over the ghost mirror of
//! [`crate::model`]), and `parse_spec` composes them.  `load_from_string`
//! succeeds exactly when `parse_spec` accepts the text, and then holds
//! exactly the tree `parse_spec` denotes.

use vstd::prelude::*;

use crate::chars::{chars_range_to_string, str_to_chars, string_push};
use crate::config::{add_child, Config, Errors};
use crate::ident::{
    all_digits, bool_word, char_is_digit, char_is_name_char, char_is_name_start, check_bool_word,
    check_float_literal, dec_value, is_digit, is_float_char, is_float_mark, is_name_char,
    is_name_start, lemma_dec_value_prefix, valid_float_literal,
};
use crate::model::{
    add_s, arena_view, can_add_s, data_view, lemma_added_view, lemma_can_add_view, root_arena,
    DataS, NodeS, ScalS, TokenS,
};
use crate::node::{NodeData, ScalarValue};
use crate::serialize::unescape_char;

verus! {

enum Token {
    LBrace,
    RBrace,
    LBrack,
    RBrack,
    LParen,
    RParen,
    Semi,
    Comma,
    Assign,
    Name(String),
    IntVal(i32),
    Int64Val(i64),
    FloatVal(String),
    StrVal(String),
    BoolVal(bool),
}

spec fn token_view(t: Token) -> TokenS {
    match t {
        Token::LBrace => TokenS::LBrace,
        Token::RBrace => TokenS::RBrace,
        Token::LBrack => TokenS::LBrack,
        Token::RBrack => TokenS::RBrack,
        Token::LParen => TokenS::LParen,
        Token::RParen => TokenS::RParen,
        Token::Semi => TokenS::Semi,
        Token::Comma => TokenS::Comma,
        Token::Assign => TokenS::Assign,
        Token::Name(s) => TokenS::Name(s@),
        Token::IntVal(v) => TokenS::IntVal(v),
        Token::Int64Val(v) => TokenS::Int64Val(v),
        Token::FloatVal(s) => TokenS::FloatVal(s@),
        Token::StrVal(s) => TokenS::StrVal(s@),
        Token::BoolVal(b) => TokenS::BoolVal(b),
    }
}

spec fn toks_view(ts: Seq<Token>) -> Seq<TokenS> {
    ts.map_values(|t: Token| token_view(t))
}

/// Whether a character separates tokens.
pub open spec fn is_space(c: char) -> bool {
    c == ' ' || c == '\t' || c == '\n' || c == '\r'
}

/// The first position at or after `i` holding a line break, or the end.
pub open spec fn line_end(cs: Seq<char>, i: int) -> int
    decreases cs.len() - i,
{
    if i >= cs.len() {
        cs.len() as int
    } else if cs[i] == '\n' {
        i
    } else {
        line_end(cs, i + 1)
    }
}

/// The first position at or after `i` where a `*/` pair starts, if any.
pub open spec fn block_end(cs: Seq<char>, i: int) -> Option<int>
    decreases cs.len() - i,
{
    if i + 1 >= cs.len() {
        None
    } else if cs[i] == '*' && cs[i + 1] == '/' {
        Some(i)
    } else {
        block_end(cs, i + 1)
    }
}

/// The first position at or after `i` whose character cannot continue a
/// name, or the end.
pub open spec fn name_end(cs: Seq<char>, i: int) -> int
    decreases cs.len() - i,
{
    if i >= cs.len() {
        cs.len() as int
    } else if !is_name_char(cs[i]) {
        i
    } else {
        name_end(cs, i + 1)
    }
}

/// The first position at or after `i` whose character cannot continue a
/// number, or the end.
pub open spec fn num_end(cs: Seq<char>, i: int) -> int
    decreases cs.len() - i,
{
    if i >= cs.len() {
        cs.len() as int
    } else if !is_float_char(cs[i]) {
        i
    } else {
        num_end(cs, i + 1)
    }
}

/// The first position at or after `i` not holding `L`, or the end.
pub open spec fn lsuf_end(cs: Seq<char>, i: int) -> int
    decreases cs.len() - i,
{
    if i >= cs.len() {
        cs.len() as int
    } else if cs[i] != 'L' {
        i
    } else {
        lsuf_end(cs, i + 1)
    }
}

/// The reading of a quoted string body starting at `i` (just after the
/// opening quote): the unescaped characters and the position after the
/// closing quote, or `None` for an unterminated string or unknown escape.
pub open spec fn scan_str(cs: Seq<char>, i: int) -> Option<(Seq<char>, int)>
    decreases cs.len() - i,
{
    if i >= cs.len() {
        None
    } else if cs[i] == '"' {
        Some((Seq::empty(), i + 1))
    } else if cs[i] == '\\' {
        if i + 1 >= cs.len() {
            None
        } else {
            let e = cs[i + 1];
            if e == 'n' || e == 'r' || e == 't' || e == '\\' || e == '"' {
                match scan_str(cs, i + 2) {
                    Some(br) => Some((seq![unescape_char(e)] + br.0, br.1)),
                    None => None,
                }
            } else {
                None
            }
        }
    } else {
        match scan_str(cs, i + 1) {
            Some(br) => Some((seq![cs[i]] + br.0, br.1)),
            None => None,
        }
    }
}

pub open spec fn has_mark(s: Seq<char>) -> bool {
    exists|i: int| 0 <= i < s.len() && is_float_mark(#[trigger] s[i])
}

/// The token a number's characters denote: a floating-point literal keeps
/// its text; an integer is checked against the 64-bit range and takes 32
/// bits when it fits and no `L` suffix (`wide`) forced it wide.
pub open spec fn classify_spec(seg: Seq<char>, wide: bool) -> Option<TokenS> {
    if has_mark(seg) {
        if !wide && valid_float_literal(seg) {
            Some(TokenS::FloatVal(seg))
        } else {
            None
        }
    } else {
        let neg = seg.len() > 0 && seg[0] == '-';
        let start: int = if seg.len() > 0 && (seg[0] == '-' || seg[0] == '+') {
            1
        } else {
            0
        };
        let digits = seg.subrange(start, seg.len() as int);
        if digits.len() == 0 || !all_digits(digits) {
            None
        } else {
            let m = dec_value(digits) as int;
            if (neg && m > 0x8000000000000000) || (!neg && m > 0x7fffffffffffffff) {
                None
            } else {
                let v: int = if neg {
                    -m
                } else {
                    m
                };
                if !wide && -0x80000000 <= v <= 0x7fffffff {
                    Some(TokenS::IntVal(v as i32))
                } else {
                    Some(TokenS::Int64Val(v as i64))
                }
            }
        }
    }
}

/// `j` when it is a sound advance past `i`, else the end; the fallback arm
/// is never taken on positions the scanners above return.
pub open spec fn clamp_pos(cs: Seq<char>, i: int, j: int) -> int {
    if i < j <= cs.len() {
        j
    } else {
        cs.len() as int
    }
}

pub open spec fn tok_cons(t: TokenS, rest: Option<Seq<TokenS>>) -> Option<Seq<TokenS>> {
    match rest {
        Some(r) => Some(seq![t] + r),
        None => None,
    }
}

/// The token sequence of the text from position `i` on, or `None` where
/// the text has no lexical reading.
pub open spec fn tok_spec(cs: Seq<char>, i: int) -> Option<Seq<TokenS>>
    decreases cs.len() - i,
{
    if i >= cs.len() {
        Some(Seq::empty())
    } else {
        let c = cs[i];
        if is_space(c) {
            tok_spec(cs, i + 1)
        } else if c == '#' {
            tok_spec(cs, clamp_pos(cs, i, line_end(cs, i + 1)))
        } else if c == '/' {
            if i + 1 < cs.len() && cs[i + 1] == '/' {
                tok_spec(cs, clamp_pos(cs, i, line_end(cs, i + 2)))
            } else if i + 1 < cs.len() && cs[i + 1] == '*' {
                match block_end(cs, i + 2) {
                    Some(j) => tok_spec(cs, clamp_pos(cs, i, j + 2)),
                    None => None,
                }
            } else {
                None
            }
        } else if c == '{' {
            tok_cons(TokenS::LBrace, tok_spec(cs, i + 1))
        } else if c == '}' {
            tok_cons(TokenS::RBrace, tok_spec(cs, i + 1))
        } else if c == '[' {
            tok_cons(TokenS::LBrack, tok_spec(cs, i + 1))
        } else if c == ']' {
            tok_cons(TokenS::RBrack, tok_spec(cs, i + 1))
        } else if c == '(' {
            tok_cons(TokenS::LParen, tok_spec(cs, i + 1))
        } else if c == ')' {
            tok_cons(TokenS::RParen, tok_spec(cs, i + 1))
        } else if c == ';' {
            tok_cons(TokenS::Semi, tok_spec(cs, i + 1))
        } else if c == ',' {
            tok_cons(TokenS::Comma, tok_spec(cs, i + 1))
        } else if c == '=' || c == ':' {
            tok_cons(TokenS::Assign, tok_spec(cs, i + 1))
        } else if c == '"' {
            match scan_str(cs, i + 1) {
                Some(br) => tok_cons(TokenS::StrVal(br.0), tok_spec(cs, clamp_pos(cs, i, br.1))),
                None => None,
            }
        } else if is_name_start(c) {
            let j = clamp_pos(cs, i, name_end(cs, i + 1));
            let w = cs.subrange(i, j);
            let tok = match bool_word(w) {
                Some(b) => TokenS::BoolVal(b),
                None => TokenS::Name(w),
            };
            tok_cons(tok, tok_spec(cs, j))
        } else if is_digit(c) || ((c == '-' || c == '+' || c == '.') && i + 1 < cs.len() && (
        is_digit(cs[i + 1]) || cs[i + 1] == '.')) {
            let h = clamp_pos(cs, i, num_end(cs, i + 1));
            let j = clamp_pos(cs, i, lsuf_end(cs, h));
            match classify_spec(cs.subrange(i, h), j > h) {
                Some(t) => tok_cons(t, tok_spec(cs, j)),
                None => None,
            }
        } else {
            None
        }
    }
}

fn char_is_space(c: char) -> (b: bool)
    ensures
        b == is_space(c),
{
    c == ' ' || c == '\t' || c == '\n' || c == '\r'
}

fn char_is_float_part(c: char) -> (b: bool)
    ensures
        b == is_float_char(c),
{
    ('0' <= c && c <= '9') || c == '.' || c == '-' || c == '+' || c == 'e' || c == 'E'
}

fn find_line_end(chars: &Vec<char>, i: usize) -> (r: usize)
    requires
        i <= chars@.len(),
    ensures
        r as int == line_end(chars@, i as int),
        i <= r <= chars@.len(),
{
    let n = chars.len();
    let mut j = i;
    while j < n && chars[j] != '\n'
        invariant
            i <= j <= n,
            n == chars@.len(),
            line_end(chars@, i as int) == line_end(chars@, j as int),
        decreases n - j,
    {
        proof {
            assert(line_end(chars@, j as int) == line_end(chars@, j as int + 1));
        }
        j += 1;
    }
    j
}

fn find_name_end(chars: &Vec<char>, i: usize) -> (r: usize)
    requires
        i <= chars@.len(),
    ensures
        r as int == name_end(chars@, i as int),
        i <= r <= chars@.len(),
{
    let n = chars.len();
    let mut j = i;
    while j < n && char_is_name_char(chars[j])
        invariant
            i <= j <= n,
            n == chars@.len(),
            name_end(chars@, i as int) == name_end(chars@, j as int),
        decreases n - j,
    {
        proof {
            assert(name_end(chars@, j as int) == name_end(chars@, j as int + 1));
        }
        j += 1;
    }
    j
}

fn find_num_end(chars: &Vec<char>, i: usize) -> (r: usize)
    requires
        i <= chars@.len(),
    ensures
        r as int == num_end(chars@, i as int),
        i <= r <= chars@.len(),
{
    let n = chars.len();
    let mut j = i;
    while j < n && char_is_float_part(chars[j])
        invariant
            i <= j <= n,
            n == chars@.len(),
            num_end(chars@, i as int) == num_end(chars@, j as int),
        decreases n - j,
    {
        proof {
            assert(num_end(chars@, j as int) == num_end(chars@, j as int + 1));
        }
        j += 1;
    }
    j
}

fn find_lsuf_end(chars: &Vec<char>, i: usize) -> (r: usize)
    requires
        i <= chars@.len(),
    ensures
        r as int == lsuf_end(chars@, i as int),
        i <= r <= chars@.len(),
{
    let n = chars.len();
    let mut j = i;
    while j < n && chars[j] == 'L'
        invariant
            i <= j <= n,
            n == chars@.len(),
            lsuf_end(chars@, i as int) == lsuf_end(chars@, j as int),
        decreases n - j,
    {
        proof {
            assert(lsuf_end(chars@, j as int) == lsuf_end(chars@, j as int + 1));
        }
        j += 1;
    }
    j
}

fn find_block_end(chars: &Vec<char>, i: usize) -> (r: Option<usize>)
    requires
        i <= chars@.len(),
    ensures
        r is Some <==> block_end(chars@, i as int) is Some,
        r matches Some(j) ==> j as int == block_end(chars@, i as int)->0 && i <= j && j + 1
            < chars@.len(),
{
    let n = chars.len();
    let mut j = i;
    loop
        invariant
            i <= j <= n,
            n == chars@.len(),
            block_end(chars@, i as int) == block_end(chars@, j as int),
        decreases n - j,
    {
        if n - j <= 1 {
            return None;
        }
        if chars[j] == '*' && chars[j + 1] == '/' {
            return Some(j);
        }
        proof {
            assert(block_end(chars@, j as int) == block_end(chars@, j as int + 1));
        }
        j += 1;
    }
}

/// Reads a quoted string body from just after the opening quote; yields the
/// unescaped text and the position after the closing quote.
fn scan_string(chars: &Vec<char>, i: usize) -> (r: Result<(String, usize), Errors>)
    requires
        i <= chars@.len(),
    ensures
        ({
            let res = scan_str(chars@, i as int);
            &&& (r is Ok <==> res is Some)
            &&& (r matches Ok(p) ==> res matches Some(br) && p.0@ == br.0 && p.1 as int == br.1
                && i < p.1 <= chars@.len())
        }),
{
    let ghost cs = chars@;
    let n = chars.len();
    let mut s = String::new();
    let mut j = i;
    loop
        invariant
            i <= j <= n,
            n == cs.len(),
            cs == chars@,
            ({
                let here = scan_str(cs, j as int);
                let whole = scan_str(cs, i as int);
                &&& (here matches Some(hb) ==> whole matches Some(br) && br.0 == s@ + hb.0 && br.1
                    == hb.1)
                &&& (here is None ==> whole is None)
            }),
        decreases n - j,
    {
        if j >= n {
            return Err(Errors::ParseError);
        }
        let c2 = chars[j];
        if c2 == '"' {
            proof {
                assert(scan_str(cs, j as int) == Some((Seq::<char>::empty(), j as int + 1)));
                assert(s@ + Seq::<char>::empty() =~= s@);
            }
            return Ok((s, j + 1));
        } else if c2 == '\\' {
            if j + 1 >= n {
                return Err(Errors::ParseError);
            }
            let e = chars[j + 1];
            if e == 'n' {
                string_push(&mut s, '\n');
            } else if e == 'r' {
                string_push(&mut s, '\r');
            } else if e == 't' {
                string_push(&mut s, '\t');
            } else if e == '\\' {
                string_push(&mut s, '\\');
            } else if e == '"' {
                string_push(&mut s, '"');
            } else {
                return Err(Errors::ParseError);
            }
            proof {
                let here2 = scan_str(cs, j as int + 2);
                if here2 is Some {
                    let hb = here2->0;
                    assert(s@ + hb.0 =~= s@.drop_last() + (seq![unescape_char(e)] + hb.0));
                }
            }
            j += 2;
        } else {
            string_push(&mut s, c2);
            proof {
                let here2 = scan_str(cs, j as int + 1);
                if here2 is Some {
                    let hb = here2->0;
                    assert(s@ + hb.0 =~= s@.drop_last() + (seq![c2] + hb.0));
                }
            }
            j += 1;
        }
    }
}

/// Turns a number token's characters into a token, exactly as
/// `classify_spec` reads them.
fn classify_number(v: &Vec<char>, lo: usize, hi: usize, force_wide: bool) -> (r: Result<
    Token,
    Errors,
>)
    requires
        lo <= hi <= v@.len(),
    ensures
        ({
            let res = classify_spec(v@.subrange(lo as int, hi as int), force_wide);
            &&& (r is Ok <==> res is Some)
            &&& (r matches Ok(t) ==> res matches Some(tk) && token_view(t) == tk)
        }),
{
    let ghost seg = v@.subrange(lo as int, hi as int);
    let mut marked = false;
    let mut j: usize = lo;
    while j < hi
        invariant
            lo <= j <= hi <= v@.len(),
            seg == v@.subrange(lo as int, hi as int),
            marked == exists|t: int| 0 <= t < j - lo && is_float_mark(#[trigger] seg[t]),
        decreases hi - j,
    {
        let c = v[j];
        proof {
            assert(seg[j - lo] == v@[j as int]);
        }
        if c == '.' || c == 'e' || c == 'E' {
            marked = true;
        }
        j += 1;
    }
    proof {
        assert(marked == has_mark(seg));
    }
    if marked {
        if force_wide {
            return Err(Errors::ParseError);
        }
        let lit = chars_range_to_string(v, lo, hi);
        let lit_chars = str_to_chars(lit.as_str());
        if !check_float_literal(&lit_chars) {
            return Err(Errors::ParseError);
        }
        return Ok(Token::FloatVal(lit));
    }
    // integer: optional sign, then digits only
    let mut k: usize = lo;
    let mut neg = false;
    if k < hi && (v[k] == '-' || v[k] == '+') {
        neg = v[k] == '-';
        k += 1;
    }
    let ghost k0 = k;
    let ghost digits = seg.subrange(k0 - lo, seg.len() as int);
    proof {
        assert(digits =~= v@.subrange(k0 as int, hi as int));
        if seg.len() > 0 {
            assert(seg[0] == v@[lo as int]);
        }
        assert(neg == (seg.len() > 0 && seg[0] == '-'));
        assert(k0 - lo == (if seg.len() > 0 && (seg[0] == '-' || seg[0] == '+') {
            1int
        } else {
            0int
        }));
    }
    if k == hi {
        proof {
            assert(digits.len() == 0);
        }
        return Err(Errors::ParseError);
    }
    let mut mag: u64 = 0;
    let limit: u64 = if neg {
        9223372036854775808
    } else {
        9223372036854775807
    };
    while k < hi
        invariant
            k0 <= k <= hi <= v@.len(),
            lo <= k0,
            seg == v@.subrange(lo as int, hi as int),
            !has_mark(seg),
            neg == (seg.len() > 0 && seg[0] == '-'),
            k0 - lo == (if seg.len() > 0 && (seg[0] == '-' || seg[0] == '+') {
                1int
            } else {
                0int
            }),
            digits == seg.subrange(k0 - lo, seg.len() as int),
            digits == v@.subrange(k0 as int, hi as int),
            forall|t: int| k0 <= t < k ==> is_digit(#[trigger] v@[t]),
            mag == dec_value(v@.subrange(k0 as int, k as int)),
            mag <= limit,
            limit == (if neg {
                9223372036854775808u64
            } else {
                9223372036854775807u64
            }),
        decreases hi - k,
    {
        let c = v[k];
        if !char_is_digit(c) {
            proof {
                assert(digits[k - k0] == v@[k as int]);
                assert(!all_digits(digits));
                assert(classify_spec(seg, force_wide) is None);
            }
            return Err(Errors::ParseError);
        }
        let d = (c as u32 - 48) as u64;
        proof {
            assert(d == crate::ident::digit_val(c) && d <= 9);
            let pre1 = v@.subrange(k0 as int, k as int + 1);
            assert(pre1.take(pre1.len() - 1) =~= v@.subrange(k0 as int, k as int));
            assert(pre1[pre1.len() - 1] == v@[k as int]);
            assert(dec_value(pre1) == mag * 10 + d);
        }
        if mag > (limit - d) / 10 {
            proof {
                assert(mag * 10 + d > limit) by (nonlinear_arith)
                    requires
                        mag > (limit - d) / 10,
                        d <= 9,
                        d <= limit,
                ;
                lemma_dec_value_prefix(digits, k + 1 - k0);
                assert(digits.take(k + 1 - k0) =~= v@.subrange(k0 as int, k as int + 1));
                assert(dec_value(digits) > limit);
                assert(classify_spec(seg, force_wide) is None);
            }
            return Err(Errors::ParseError);
        }
        mag = mag * 10 + d;
        k += 1;
    }
    proof {
        assert(v@.subrange(k0 as int, k as int) =~= digits);
        assert(all_digits(digits));
    }
    let value: i64 = if neg {
        if mag == 9223372036854775808 {
            i64::MIN
        } else {
            -(mag as i64)
        }
    } else {
        mag as i64
    };
    proof {
        assert(mag == dec_value(digits));
        assert(value as int == (if neg {
            -(dec_value(digits) as int)
        } else {
            dec_value(digits) as int
        }));
    }
    if !force_wide && i32::MIN as i64 <= value && value <= i32::MAX as i64 {
        proof {
            assert(classify_spec(seg, force_wide) == Some(TokenS::IntVal(value as i32)));
        }
        Ok(Token::IntVal(value as i32))
    } else {
        proof {
            assert(classify_spec(seg, force_wide) == Some(TokenS::Int64Val(value)));
        }
        Ok(Token::Int64Val(value))
    }
}

/// Splits configuration text into tokens, exactly as `tok_spec` reads it;
/// `ParseError` where the text has no lexical reading.
fn tokenize(chars: &Vec<char>) -> (r: Result<Vec<Token>, Errors>)
    ensures
        r matches Ok(ts) ==> tok_spec(chars@, 0) == Some(toks_view(ts@)),
        r is Err ==> tok_spec(chars@, 0) is None,
{
    let ghost cs = chars@;
    let n = chars.len();
    let mut toks: Vec<Token> = Vec::new();
    let mut i: usize = 0;
    proof {
        assert(toks_view(toks@) =~= Seq::<TokenS>::empty());
    }
    while i < n
        invariant
            i <= n,
            n == cs.len(),
            cs == chars@,
            tok_spec(cs, i as int) is Some ==> tok_spec(cs, 0) is Some,
            tok_spec(cs, 0) is Some ==> tok_spec(cs, i as int) is Some && tok_spec(cs, 0)->0
                == toks_view(toks@) + tok_spec(cs, i as int)->0,
        decreases n - i,
    {
        let c = chars[i];
        if char_is_space(c) {
            proof {
                assert(tok_spec(cs, i as int) == tok_spec(cs, i as int + 1));
            }
            i += 1;
            continue ;
        }
        if c == '#' {
            let j = find_line_end(chars, i + 1);
            proof {
                assert(clamp_pos(cs, i as int, j as int) == j as int);
                assert(tok_spec(cs, i as int) == tok_spec(cs, j as int));
            }
            i = j;
            continue ;
        }
        if c == '/' {
            if i + 1 < n && chars[i + 1] == '/' {
                let j = find_line_end(chars, i + 2);
                proof {
                    assert(clamp_pos(cs, i as int, j as int) == j as int);
                    assert(tok_spec(cs, i as int) == tok_spec(cs, j as int));
                }
                i = j;
                continue ;
            }
            if i + 1 < n && chars[i + 1] == '*' {
                let j = match find_block_end(chars, i + 2) {
                    Some(j) => j,
                    None => {
                        proof {
                            assert(tok_spec(cs, i as int) is None);
                        }
                        return Err(Errors::ParseError);
                    },
                };
                proof {
                    assert(clamp_pos(cs, i as int, j as int + 2) == j as int + 2);
                    assert(tok_spec(cs, i as int) == tok_spec(cs, j as int + 2));
                }
                i = j + 2;
                continue ;
            }
            proof {
                assert(tok_spec(cs, i as int) is None);
            }
            return Err(Errors::ParseError);
        }
        // one token is produced
        let ghost pre = toks@;
        let (tok, j): (Token, usize) = if c == '{' {
            (Token::LBrace, i + 1)
        } else if c == '}' {
            (Token::RBrace, i + 1)
        } else if c == '[' {
            (Token::LBrack, i + 1)
        } else if c == ']' {
            (Token::RBrack, i + 1)
        } else if c == '(' {
            (Token::LParen, i + 1)
        } else if c == ')' {
            (Token::RParen, i + 1)
        } else if c == ';' {
            (Token::Semi, i + 1)
        } else if c == ',' {
            (Token::Comma, i + 1)
        } else if c == '=' || c == ':' {
            (Token::Assign, i + 1)
        } else if c == '"' {
            match scan_string(chars, i + 1) {
                Ok((body, j2)) => {
                    proof {
                        assert(clamp_pos(cs, i as int, j2 as int) == j2 as int);
                    }
                    (Token::StrVal(body), j2)
                },
                Err(e) => {
                    proof {
                        assert(tok_spec(cs, i as int) is None);
                    }
                    return Err(e);
                },
            }
        } else if char_is_name_start(c) {
            let j2 = find_name_end(chars, i + 1);
            proof {
                assert(clamp_pos(cs, i as int, j2 as int) == j2 as int);
            }
            let tok2 = match check_bool_word(chars, i, j2) {
                Some(b) => Token::BoolVal(b),
                None => Token::Name(chars_range_to_string(chars, i, j2)),
            };
            (tok2, j2)
        } else if char_is_digit(c) || ((c == '-' || c == '+' || c == '.') && i + 1 < n && (
        char_is_digit(chars[i + 1]) || chars[i + 1] == '.')) {
            let h = find_num_end(chars, i + 1);
            let j2 = find_lsuf_end(chars, h);
            proof {
                assert(clamp_pos(cs, i as int, h as int) == h as int);
                assert(clamp_pos(cs, i as int, j2 as int) == j2 as int);
            }
            match classify_number(chars, i, h, j2 > h) {
                Ok(t) => (t, j2),
                Err(e) => {
                    proof {
                        assert(tok_spec(cs, i as int) is None);
                    }
                    return Err(e);
                },
            }
        } else {
            proof {
                assert(tok_spec(cs, i as int) is None);
            }
            return Err(Errors::ParseError);
        };
        proof {
            assert(tok_spec(cs, i as int) == tok_cons(token_view(tok), tok_spec(cs, j as int)));
        }
        toks.push(tok);
        proof {
            assert(toks_view(toks@) =~= toks_view(pre).push(token_view(tok)));
            if tok_spec(cs, 0) is Some {
                assert(tok_spec(cs, 0)->0 =~= toks_view(toks@) + tok_spec(cs, j as int)->0);
            }
        }
        i = j;
    }
    proof {
        assert(tok_spec(cs, n as int) == Some(Seq::<TokenS>::empty()));
        assert(tok_spec(cs, 0)->0 =~= toks_view(toks@));
    }
    Ok(toks)
}

/// The tree one value builds, starting at token `pos` under `parent` (to be
/// called `name` in a group): the position after the value and the grown
/// arena, or `None` where the tokens have no reading there.  The clamped
/// recursion positions only matter off the reachable states; on every run
/// they are the positions the inner readings return.
pub open spec fn ps_value(
    ts: Seq<TokenS>,
    pos: int,
    g: Seq<NodeS>,
    parent: int,
    name: Seq<char>,
) -> Option<(int, Seq<NodeS>)>
    decreases ts.len() - pos, 0int,
{
    if !(0 <= pos < ts.len()) {
        None
    } else {
        match ts[pos] {
            TokenS::LBrace => {
                if !can_add_s(g, parent, name, DataS::Group(Seq::empty())) {
                    None
                } else {
                    let g1 = add_s(g, parent, name, DataS::Group(Seq::empty()));
                    match ps_settings(ts, pos + 1, g1, g.len() as int) {
                        None => None,
                        Some(r2) => if 0 <= r2.0 < ts.len() && ts[r2.0] is RBrace {
                            Some((r2.0 + 1, r2.1))
                        } else {
                            None
                        },
                    }
                }
            },
            TokenS::LBrack => {
                if !can_add_s(g, parent, name, DataS::Array(Seq::empty())) {
                    None
                } else {
                    let g1 = add_s(g, parent, name, DataS::Array(Seq::empty()));
                    ps_elements(ts, pos + 1, g1, g.len() as int, true)
                }
            },
            TokenS::LParen => {
                if !can_add_s(g, parent, name, DataS::List(Seq::empty())) {
                    None
                } else {
                    let g1 = add_s(g, parent, name, DataS::List(Seq::empty()));
                    ps_elements(ts, pos + 1, g1, g.len() as int, false)
                }
            },
            TokenS::IntVal(v) => ps_scalar(ts, pos, g, parent, name, ScalS::I32(v)),
            TokenS::Int64Val(v) => ps_scalar(ts, pos, g, parent, name, ScalS::I64(v)),
            TokenS::FloatVal(t) => ps_scalar(ts, pos, g, parent, name, ScalS::Flt(t)),
            TokenS::StrVal(t) => ps_scalar(ts, pos, g, parent, name, ScalS::Str(t)),
            TokenS::BoolVal(b) => ps_scalar(ts, pos, g, parent, name, ScalS::Bool(b)),
            _ => None,
        }
    }
}

/// One scalar token becomes one scalar child.
pub open spec fn ps_scalar(
    ts: Seq<TokenS>,
    pos: int,
    g: Seq<NodeS>,
    parent: int,
    name: Seq<char>,
    v: ScalS,
) -> Option<(int, Seq<NodeS>)> {
    if can_add_s(g, parent, name, DataS::Scalar(v)) {
        Some((pos + 1, add_s(g, parent, name, DataS::Scalar(v))))
    } else {
        None
    }
}

/// The tree a run of named settings builds under `parent`, stopping before
/// the first token that cannot start one.
pub open spec fn ps_settings(ts: Seq<TokenS>, pos: int, g: Seq<NodeS>, parent: int) -> Option<
    (int, Seq<NodeS>),
>
    decreases ts.len() - pos, 1int,
{
    if pos >= ts.len() {
        Some((pos, g))
    } else if pos < 0 {
        None
    } else {
        match ts[pos] {
            TokenS::Name(nm) => {
                if pos + 1 >= ts.len() {
                    None
                } else if ts[pos + 1] is Assign {
                    if pos + 2 >= ts.len() {
                        None
                    } else {
                        match ps_value(ts, pos + 2, g, parent, nm) {
                            None => None,
                            Some(r2) => {
                                let p3 = if 0 <= r2.0 < ts.len() && (ts[r2.0] is Semi || ts[r2.0]
                                    is Comma) {
                                    r2.0 + 1
                                } else {
                                    r2.0
                                };
                                ps_settings(ts, clamp_next(ts, pos, p3), r2.1, parent)
                            },
                        }
                    }
                } else if ts[pos + 1] is LBrace {
                    match ps_value(ts, pos + 1, g, parent, nm) {
                        None => None,
                        Some(r2) => {
                            let p3 = if 0 <= r2.0 < ts.len() && (ts[r2.0] is Semi || ts[r2.0]
                                is Comma) {
                                r2.0 + 1
                            } else {
                                r2.0
                            };
                            ps_settings(ts, clamp_next(ts, pos, p3), r2.1, parent)
                        },
                    }
                } else {
                    None
                }
            },
            _ => Some((pos, g)),
        }
    }
}

/// The tree the comma-separated elements of an array (`square`) or list
/// build, up to and over the closing delimiter.
pub open spec fn ps_elements(
    ts: Seq<TokenS>,
    pos: int,
    g: Seq<NodeS>,
    parent: int,
    square: bool,
) -> Option<(int, Seq<NodeS>)>
    decreases ts.len() - pos, 1int,
{
    if !(0 <= pos < ts.len()) {
        None
    } else {
        let closing = (square && ts[pos] is RBrack) || (!square && ts[pos] is RParen);
        if closing {
            Some((pos + 1, g))
        } else {
            match ps_value(ts, pos, g, parent, Seq::empty()) {
                None => None,
                Some(r2) => {
                    let p3 = if 0 <= r2.0 < ts.len() && ts[r2.0] is Comma {
                        r2.0 + 1
                    } else {
                        r2.0
                    };
                    ps_elements(ts, clamp_next(ts, pos, p3), r2.1, parent, square)
                },
            }
        }
    }
}

/// `p` when it is a sound advance past `pos`, else `pos + 1`; the fallback
/// arm is never taken on positions `ps_value` returns.
pub open spec fn clamp_next(ts: Seq<TokenS>, pos: int, p: int) -> int {
    if pos < p <= ts.len() {
        p
    } else {
        pos + 1
    }
}

/// The tree of a whole text: its tokens read as a run of settings under the
/// root, accepted only when they are consumed whole.
pub open spec fn parse_spec(text: Seq<char>) -> Option<Seq<NodeS>> {
    match tok_spec(text, 0) {
        None => None,
        Some(ts) => match ps_settings(ts, 0, root_arena(), 0) {
            None => None,
            Some(r) => if r.0 == ts.len() {
                Some(r.1)
            } else {
                None
            },
        },
    }
}

/// Parses one value (after `name =`, or an element of a list or array) and
/// attaches it under `parent` as `name`; yields the position after the
/// value, exactly as `ps_value` reads it.
fn parse_value(
    toks: &Vec<Token>,
    pos: usize,
    cfg: &mut Config,
    parent: usize,
    name: &str,
) -> (r: Result<usize, Errors>)
    requires
        old(cfg).wf(),
        pos < toks@.len(),
    ensures
        final(cfg).wf(),
        r matches Ok(p2) ==> pos < p2 <= toks@.len(),
        ({
            let res = ps_value(
                toks_view(toks@),
                pos as int,
                arena_view(old(cfg).nodes@),
                parent as int,
                name@,
            );
            &&& (r is Ok <==> res is Some)
            &&& (r matches Ok(p2) ==> res matches Some(rr) && rr.0 == p2 as int && arena_view(
                final(cfg).nodes@,
            ) == rr.1)
        }),
    decreases toks@.len() - pos, 0int,
{
    let ghost tv = toks_view(toks@);
    let ghost s0 = cfg.nodes@;
    let ghost g0 = arena_view(s0);
    proof {
        assert(tv[pos as int] == token_view(toks@[pos as int]));
    }
    let n = toks.len();
    match &toks[pos] {
        Token::LBrace => {
            let data = NodeData::Group(Vec::new());
            let ghost gdata = data;
            proof {
                assert(data_view(gdata) == DataS::Group(Seq::<usize>::empty())) by {
                    assert(gdata->Group_0@ =~= Seq::<usize>::empty());
                }
                lemma_can_add_view(s0, parent as int, name@, gdata);
            }
            let idx = match add_child(cfg, parent, name, data) {
                Some(idx) => idx,
                None => {
                    return Err(Errors::ParseError);
                },
            };
            proof {
                assert(0 <= (parent as int) < s0.len());
                lemma_added_view(s0, cfg.nodes@, parent as int, name@, gdata, idx as int);
                assert(idx as int == g0.len() as int);
            }
            let p2 = match parse_settings(toks, pos + 1, cfg, idx) {
                Ok(p2) => p2,
                Err(e) => {
                    return Err(e);
                },
            };
            if p2 < n {
                proof {
                    assert(tv[p2 as int] == token_view(toks@[p2 as int]));
                }
                match &toks[p2] {
                    Token::RBrace => Ok(p2 + 1),
                    _ => Err(Errors::ParseError),
                }
            } else {
                Err(Errors::ParseError)
            }
        },
        Token::LBrack => {
            let data = NodeData::Array(Vec::new());
            let ghost gdata = data;
            proof {
                assert(data_view(gdata) == DataS::Array(Seq::<usize>::empty())) by {
                    assert(gdata->Array_0@ =~= Seq::<usize>::empty());
                }
                lemma_can_add_view(s0, parent as int, name@, gdata);
            }
            let idx = match add_child(cfg, parent, name, data) {
                Some(idx) => idx,
                None => {
                    return Err(Errors::ParseError);
                },
            };
            proof {
                assert(0 <= (parent as int) < s0.len());
                lemma_added_view(s0, cfg.nodes@, parent as int, name@, gdata, idx as int);
                assert(idx as int == g0.len() as int);
            }
            parse_elements(toks, pos + 1, cfg, idx, true)
        },
        Token::LParen => {
            let data = NodeData::List(Vec::new());
            let ghost gdata = data;
            proof {
                assert(data_view(gdata) == DataS::List(Seq::<usize>::empty())) by {
                    assert(gdata->List_0@ =~= Seq::<usize>::empty());
                }
                lemma_can_add_view(s0, parent as int, name@, gdata);
            }
            let idx = match add_child(cfg, parent, name, data) {
                Some(idx) => idx,
                None => {
                    return Err(Errors::ParseError);
                },
            };
            proof {
                assert(0 <= (parent as int) < s0.len());
                lemma_added_view(s0, cfg.nodes@, parent as int, name@, gdata, idx as int);
                assert(idx as int == g0.len() as int);
            }
            parse_elements(toks, pos + 1, cfg, idx, false)
        },
        Token::IntVal(v) => {
            add_scalar(cfg, parent, name, ScalarValue::I32(*v), pos, Ghost(tv))
        },
        Token::Int64Val(v) => {
            add_scalar(cfg, parent, name, ScalarValue::I64(*v), pos, Ghost(tv))
        },
        Token::FloatVal(t) => {
            add_scalar(cfg, parent, name, ScalarValue::Flt(t.clone()), pos, Ghost(tv))
        },
        Token::StrVal(t) => {
            add_scalar(cfg, parent, name, ScalarValue::Str(t.clone()), pos, Ghost(tv))
        },
        Token::BoolVal(b) => {
            add_scalar(cfg, parent, name, ScalarValue::Bool(*b), pos, Ghost(tv))
        },
        _ => Err(Errors::ParseError),
    }
}

/// Attaches one scalar child, exactly as `ps_scalar` reads it.
fn add_scalar(
    cfg: &mut Config,
    parent: usize,
    name: &str,
    v: ScalarValue,
    pos: usize,
    Ghost(tv): Ghost<Seq<TokenS>>,
) -> (r: Result<usize, Errors>)
    requires
        old(cfg).wf(),
        pos < tv.len(),
        tv.len() <= usize::MAX,
    ensures
        final(cfg).wf(),
        r matches Ok(p2) ==> pos < p2 <= tv.len(),
        ({
            let res = ps_scalar(
                tv,
                pos as int,
                arena_view(old(cfg).nodes@),
                parent as int,
                name@,
                crate::model::scal_view(v),
            );
            &&& (r is Ok <==> res is Some)
            &&& (r matches Ok(p2) ==> res matches Some(rr) && rr.0 == p2 as int && arena_view(
                final(cfg).nodes@,
            ) == rr.1)
        }),
{
    let ghost s0 = cfg.nodes@;
    let data = NodeData::Scalar(v);
    let ghost gdata = data;
    proof {
        lemma_can_add_view(s0, parent as int, name@, gdata);
    }
    match add_child(cfg, parent, name, data) {
        Some(idx) => {
            proof {
                assert(0 <= (parent as int) < s0.len());
                lemma_added_view(s0, cfg.nodes@, parent as int, name@, gdata, idx as int);
            }
            Ok(pos + 1)
        },
        None => Err(Errors::ParseError),
    }
}

/// Parses a run of named settings under `parent`, stopping before the
/// first token that cannot start one, exactly as `ps_settings` reads them.
#[verifier::rlimit(60)]
fn parse_settings(toks: &Vec<Token>, pos: usize, cfg: &mut Config, parent: usize) -> (r: Result<
    usize,
    Errors,
>)
    requires
        old(cfg).wf(),
        pos <= toks@.len(),
    ensures
        final(cfg).wf(),
        r matches Ok(p2) ==> pos <= p2 <= toks@.len(),
        ({
            let res = ps_settings(
                toks_view(toks@),
                pos as int,
                arena_view(old(cfg).nodes@),
                parent as int,
            );
            &&& (r is Ok <==> res is Some)
            &&& (r matches Ok(p2) ==> res matches Some(rr) && rr.0 == p2 as int && arena_view(
                final(cfg).nodes@,
            ) == rr.1)
        }),
    decreases toks@.len() - pos, 1int,
{
    let ghost tv = toks_view(toks@);
    let ghost g_in = arena_view(old(cfg).nodes@);
    let n = toks.len();
    let mut p = pos;
    loop
        invariant
            cfg.wf(),
            pos <= p <= n,
            n == toks@.len(),
            tv == toks_view(toks@),
            tv.len() == n,
            g_in == arena_view(old(cfg).nodes@),
            ps_settings(tv, pos as int, g_in, parent as int) == ps_settings(
                tv,
                p as int,
                arena_view(cfg.nodes@),
                parent as int,
            ),
        decreases n - p,
    {
        let ghost g_it = arena_view(cfg.nodes@);
        if p >= n {
            proof {
                assert(ps_settings(tv, p as int, g_it, parent as int) == Some(
                    (p as int, g_it),
                ));
            }
            return Ok(p);
        }
        proof {
            assert(tv[p as int] == token_view(toks@[p as int]));
        }
        let nm: String = match &toks[p] {
            Token::Name(nm) => nm.clone(),
            _ => {
                proof {
                    assert(ps_settings(tv, p as int, g_it, parent as int) == Some(
                        (p as int, g_it),
                    ));
                }
                return Ok(p);
            },
        };
        if p + 1 >= n {
            proof {
                assert(ps_settings(tv, p as int, g_it, parent as int) is None);
            }
            return Err(Errors::ParseError);
        }
        proof {
            assert(tv[p as int + 1] == token_view(toks@[p as int + 1]));
        }
        let vstart = match &toks[p + 1] {
            Token::Assign => {
                if p + 2 >= n {
                    proof {
                        assert(ps_settings(tv, p as int, g_it, parent as int) is None);
                    }
                    return Err(Errors::ParseError);
                }
                p + 2
            },
            Token::LBrace => p + 1,
            _ => {
                proof {
                    assert(ps_settings(tv, p as int, g_it, parent as int) is None);
                }
                return Err(Errors::ParseError);
            },
        };
        let p2 = match parse_value(toks, vstart, cfg, parent, nm.as_str()) {
            Ok(p2) => p2,
            Err(e) => {
                proof {
                    assert(ps_value(tv, vstart as int, g_it, parent as int, nm@) is None);
                    assert(ps_settings(tv, p as int, g_it, parent as int) is None);
                }
                return Err(e);
            },
        };
        let mut p3 = p2;
        if p2 < n {
            proof {
                assert(tv[p2 as int] == token_view(toks@[p2 as int]));
            }
            let skip_sep = match &toks[p2] {
                Token::Semi => true,
                Token::Comma => true,
                _ => false,
            };
            if skip_sep {
                p3 = p2 + 1;
            }
        }
        proof {
            assert(clamp_next(tv, p as int, p3 as int) == p3 as int);
            assert(ps_value(tv, vstart as int, g_it, parent as int, nm@) == Some(
                (p2 as int, arena_view(cfg.nodes@)),
            ));
            assert(ps_settings(tv, p as int, g_it, parent as int) == ps_settings(
                tv,
                p3 as int,
                arena_view(cfg.nodes@),
                parent as int,
            ));
        }
        p = p3;
    }
}

/// Parses the comma-separated elements of an array (`square`) or list up to
/// and over its closing delimiter, exactly as `ps_elements` reads them.
#[verifier::rlimit(60)]
fn parse_elements(
    toks: &Vec<Token>,
    pos: usize,
    cfg: &mut Config,
    parent: usize,
    square: bool,
) -> (r: Result<usize, Errors>)
    requires
        old(cfg).wf(),
        pos <= toks@.len(),
    ensures
        final(cfg).wf(),
        r matches Ok(p2) ==> pos < p2 <= toks@.len(),
        ({
            let res = ps_elements(
                toks_view(toks@),
                pos as int,
                arena_view(old(cfg).nodes@),
                parent as int,
                square,
            );
            &&& (r is Ok <==> res is Some)
            &&& (r matches Ok(p2) ==> res matches Some(rr) && rr.0 == p2 as int && arena_view(
                final(cfg).nodes@,
            ) == rr.1)
        }),
    decreases toks@.len() - pos, 1int,
{
    let ghost tv = toks_view(toks@);
    let ghost g_in = arena_view(old(cfg).nodes@);
    let n = toks.len();
    let mut p = pos;
    loop
        invariant
            cfg.wf(),
            pos <= p <= n,
            n == toks@.len(),
            tv == toks_view(toks@),
            tv.len() == n,
            g_in == arena_view(old(cfg).nodes@),
            ps_elements(tv, pos as int, g_in, parent as int, square) == ps_elements(
                tv,
                p as int,
                arena_view(cfg.nodes@),
                parent as int,
                square,
            ),
        decreases n - p,
    {
        let ghost g_it = arena_view(cfg.nodes@);
        if p >= n {
            proof {
                assert(ps_elements(tv, p as int, g_it, parent as int, square) is None);
            }
            return Err(Errors::ParseError);
        }
        proof {
            assert(tv[p as int] == token_view(toks@[p as int]));
        }
        let closing = match &toks[p] {
            Token::RBrack => square,
            Token::RParen => !square,
            _ => false,
        };
        if closing {
            proof {
                assert(ps_elements(tv, p as int, g_it, parent as int, square) == Some(
                    (p as int + 1, g_it),
                ));
            }
            return Ok(p + 1);
        }
        let empty_name = "";
        proof {
            reveal_strlit("");
            assert(empty_name@ =~= Seq::<char>::empty());
        }
        let p2 = match parse_value(toks, p, cfg, parent, empty_name) {
            Ok(p2) => p2,
            Err(e) => {
                proof {
                    assert(ps_value(tv, p as int, g_it, parent as int, Seq::empty()) is None);
                    assert(ps_elements(tv, p as int, g_it, parent as int, square) is None);
                }
                return Err(e);
            },
        };
        let mut p3 = p2;
        if p2 < n {
            proof {
                assert(tv[p2 as int] == token_view(toks@[p2 as int]));
            }
            let skip_sep = match &toks[p2] {
                Token::Comma => true,
                _ => false,
            };
            if skip_sep {
                p3 = p2 + 1;
            }
        }
        proof {
            assert(clamp_next(tv, p as int, p3 as int) == p3 as int);
            assert(ps_value(tv, p as int, g_it, parent as int, Seq::empty()) == Some(
                (p2 as int, arena_view(cfg.nodes@)),
            ));
            assert(ps_elements(tv, p as int, g_it, parent as int, square) == ps_elements(
                tv,
                p3 as int,
                arena_view(cfg.nodes@),
                parent as int,
                square,
            ));
        }
        p = p3;
    }
}

/// Parses a whole document: `Ok` exactly when `parse_spec` accepts the
/// text, and then a well-formed tree that is exactly the one `parse_spec`
/// denotes.
pub fn parse_text(text: &str) -> (r: Result<Config, Errors>)
    ensures
        r is Ok <==> parse_spec(text@) is Some,
        r matches Ok(c) ==> c.wf() && arena_view(c.nodes@) == parse_spec(text@)->0,
        r matches Err(e) ==> e == Errors::ParseError,
{
    let chars = str_to_chars(text);
    let toks = match tokenize(&chars) {
        Ok(t) => t,
        Err(_) => {
            return Err(Errors::ParseError);
        },
    };
    let ghost tv = toks_view(toks@);
    let mut cfg = Config::new();
    proof {
        assert(crate::config::wf_node(cfg.nodes@, 0));
        assert(crate::node::children_of(cfg.nodes@[0]).len() == 0);
        assert(arena_view(cfg.nodes@)[0] == crate::model::node_view(cfg.nodes@[0]));
        assert(cfg.nodes@[0].data->Group_0@ =~= Seq::<usize>::empty());
        assert(arena_view(cfg.nodes@) =~= root_arena());
    }
    let p = match parse_settings(&toks, 0, &mut cfg, 0) {
        Ok(p) => p,
        Err(_) => {
            return Err(Errors::ParseError);
        },
    };
    if p == toks.len() {
        proof {
            assert(tv.len() == toks@.len());
        }
        Ok(cfg)
    } else {
        Err(Errors::ParseError)
    }
}

impl Config {
    /// Replaces this document with the parse of `text`: `Ok` exactly when
    /// `parse_spec` accepts the text, and then the tree is exactly the one
    /// `parse_spec` denotes.  On failure the document is left as a single
    /// empty root group, never a partial tree, and the error is always
    /// `ParseError`.
    pub fn load_from_string(&mut self, text: &str) -> (r: Result<(), Errors>)
        ensures
            final(self).wf(),
            r is Ok <==> parse_spec(text@) is Some,
            r is Ok ==> arena_view(final(self).nodes@) == parse_spec(text@)->0,
            r matches Err(e) ==> e == Errors::ParseError && final(self).is_empty_root(),
    {
        match parse_text(text) {
            Ok(cfg) => {
                *self = cfg;
                Ok(())
            },
            Err(e) => {
                *self = Config::new();
                Err(e)
            },
        }
    }
}

} // verus!
