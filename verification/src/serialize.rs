//! Serialization of a configuration tree to its text form.
//!
//! The text produced is pinned down exactly by the spec functions here: a
//! document is its root's settings, a setting is `name = value; `, a group
//! is `{ ... }`, an array `[ v, w ]`, a list `( v, w )`; integers are
//! decimal (64-bit ones with an `L` suffix), booleans are `true`/`false`,
//! floating-point scalars reproduce their stored literal, and strings are
//! quoted with `\\`, `\"`, `\n`, `\r` and `\t` escapes.

use vstd::prelude::*;

use crate::config::{wf_node, Config};
use crate::node::{children_of, Node, NodeData, ScalarValue};

verus! {

pub open spec fn digit_char(d: nat) -> char {
    ((48 + d) as u8) as char
}

/// Decimal digits of `n`, most significant first.
pub open spec fn dec_digits(n: nat) -> Seq<char>
    decreases n,
{
    if n < 10 {
        seq![digit_char(n)]
    } else {
        dec_digits(n / 10).push(digit_char(n % 10))
    }
}

/// The decimal literal of `v`, with a leading `-` when negative.
pub open spec fn int_literal(v: int) -> Seq<char> {
    if v >= 0 {
        dec_digits(v as nat)
    } else {
        seq!['-'] + dec_digits((-v) as nat)
    }
}

pub open spec fn escape_char(c: char) -> Seq<char> {
    if c == '"' {
        seq!['\\', '"']
    } else if c == '\\' {
        seq!['\\', '\\']
    } else if c == '\n' {
        seq!['\\', 'n']
    } else if c == '\r' {
        seq!['\\', 'r']
    } else if c == '\t' {
        seq!['\\', 't']
    } else {
        seq![c]
    }
}

/// The escaped body of a quoted string.
pub open spec fn escape_str(s: Seq<char>) -> Seq<char>
    decreases s.len(),
{
    if s.len() == 0 {
        Seq::empty()
    } else {
        escape_str(s.drop_last()) + escape_char(s.last())
    }
}

pub open spec fn unescape_char(c: char) -> char {
    if c == 'n' {
        '\n'
    } else if c == 'r' {
        '\r'
    } else if c == 't' {
        '\t'
    } else {
        c
    }
}

/// The reading of an escaped string body: each `\\x` pair stands for one
/// character, everything else for itself.
pub open spec fn unescape(s: Seq<char>) -> Seq<char>
    decreases s.len(),
{
    if s.len() == 0 {
        Seq::empty()
    } else if s[0] == '\\' {
        if s.len() >= 2 {
            seq![unescape_char(s[1])] + unescape(s.skip(2))
        } else {
            Seq::empty()
        }
    } else {
        seq![s[0]] + unescape(s.drop_first())
    }
}

/// The text of one scalar value.
pub open spec fn scalar_text(v: ScalarValue) -> Seq<char> {
    match v {
        ScalarValue::I32(x) => int_literal(x as int),
        ScalarValue::I64(x) => int_literal(x as int).push('L'),
        ScalarValue::Flt(t) => t@,
        ScalarValue::Bool(b) => if b {
            seq!['t', 'r', 'u', 'e']
        } else {
            seq!['f', 'a', 'l', 's', 'e']
        },
        ScalarValue::Str(t) => seq!['"'] + escape_str(t@) + seq!['"'],
    }
}

/// Whether every entry of `ch` is a child index above `p` and in bounds;
/// guards the recursion of the text spec functions.
pub open spec fn kids_above(s: Seq<Node>, ch: Seq<usize>, p: int) -> bool {
    forall|j: int| 0 <= j < ch.len() ==> p < #[trigger] ch[j] < s.len()
}

/// The value text of node `i` (normally with its name to its left).
pub open spec fn node_text(s: Seq<Node>, i: int) -> Seq<char>
    decreases s.len() - i, 1int, 0int,
        when 0 <= i < s.len()
{
    match s[i].data {
        NodeData::Scalar(v) => scalar_text(v),
        NodeData::Group(_) => seq!['{', ' '] + settings_text(s, children_of(s[i]), i) + seq!['}'],
        NodeData::Array(_) => seq!['[', ' '] + elements_text(s, children_of(s[i]), i) + seq![']'],
        NodeData::List(_) => seq!['(', ' '] + elements_text(s, children_of(s[i]), i) + seq![')'],
    }
}

/// The text of a run of named settings: `name = value; ` for each child.
pub open spec fn settings_text(s: Seq<Node>, ch: Seq<usize>, p: int) -> Seq<char>
    decreases s.len() - p, 0int, ch.len(),
        when kids_above(s, ch, p)
{
    if ch.len() == 0 {
        Seq::empty()
    } else {
        s[ch[0] as int].name->0@ + seq![' ', '=', ' '] + node_text(s, ch[0] as int) + seq![
            ';',
            ' ',
        ] + settings_text(s, ch.drop_first(), p)
    }
}

/// The text of a run of unnamed elements, comma-separated, with a space
/// before the closing delimiter.
pub open spec fn elements_text(s: Seq<Node>, ch: Seq<usize>, p: int) -> Seq<char>
    decreases s.len() - p, 0int, ch.len(),
        when kids_above(s, ch, p)
{
    if ch.len() == 0 {
        Seq::empty()
    } else if ch.len() == 1 {
        node_text(s, ch[0] as int) + seq![' ']
    } else {
        node_text(s, ch[0] as int) + seq![',', ' '] + elements_text(s, ch.drop_first(), p)
    }
}

/// The whole document: the settings of the root group.
pub open spec fn doc_text(s: Seq<Node>) -> Seq<char> {
    settings_text(s, children_of(s[0]), 0)
}

fn digit_to_char(d: u64) -> (c: char)
    requires
        d < 10,
    ensures
        c == digit_char(d as nat),
{
    (48 + d as u8) as char
}

fn emit_digits(out: &mut Vec<char>, n: u64)
    ensures
        final(out)@ == old(out)@ + dec_digits(n as nat),
    decreases n,
{
    if n < 10 {
        out.push(digit_to_char(n));
        proof {
            assert(final(out)@ =~= old(out)@ + dec_digits(n as nat));
        }
    } else {
        emit_digits(out, n / 10);
        out.push(digit_to_char(n % 10));
        proof {
            assert(final(out)@ =~= old(out)@ + dec_digits(n as nat));
        }
    }
}

fn emit_int(out: &mut Vec<char>, v: i64)
    ensures
        final(out)@ == old(out)@ + int_literal(v as int),
{
    if v >= 0 {
        emit_digits(out, v as u64);
    } else {
        out.push('-');
        let m: u64 = ((-(v + 1)) as u64) + 1;
        proof {
            assert(m == -(v as int));
        }
        emit_digits(out, m);
        proof {
            assert(final(out)@ =~= old(out)@ + int_literal(v as int));
        }
    }
}

/// Appends the characters of `t`.
fn emit_str_chars(out: &mut Vec<char>, t: &str)
    ensures
        final(out)@ == old(out)@ + t@,
{
    let mut tmp = crate::chars::str_to_chars(t);
    out.append(&mut tmp);
}

fn emit_escaped(out: &mut Vec<char>, t: &str)
    ensures
        final(out)@ == old(out)@ + escape_str(t@),
{
    let chars = crate::chars::str_to_chars(t);
    let mut j: usize = 0;
    while j < chars.len()
        invariant
            j <= chars@.len(),
            chars@ == t@,
            out@ == old(out)@ + escape_str(t@.take(j as int)),
        decreases chars@.len() - j,
    {
        let c = chars[j];
        if c == '"' {
            out.push('\\');
            out.push('"');
        } else if c == '\\' {
            out.push('\\');
            out.push('\\');
        } else if c == '\n' {
            out.push('\\');
            out.push('n');
        } else if c == '\r' {
            out.push('\\');
            out.push('r');
        } else if c == '\t' {
            out.push('\\');
            out.push('t');
        } else {
            out.push(c);
        }
        proof {
            assert(t@.take(j + 1).drop_last() =~= t@.take(j as int));
            assert(t@.take(j + 1).last() == t@[j as int]);
            assert(out@ =~= old(out)@ + escape_str(t@.take(j + 1)));
        }
        j += 1;
    }
    proof {
        assert(t@.take(t@.len() as int) =~= t@);
    }
}

fn emit_scalar(out: &mut Vec<char>, v: &ScalarValue)
    ensures
        final(out)@ == old(out)@ + scalar_text(*v),
{
    match v {
        ScalarValue::I32(x) => {
            emit_int(out, *x as i64);
        },
        ScalarValue::I64(x) => {
            emit_int(out, *x);
            out.push('L');
            proof {
                assert(out@ =~= old(out)@ + scalar_text(*v));
            }
        },
        ScalarValue::Flt(t) => {
            emit_str_chars(out, t.as_str());
        },
        ScalarValue::Bool(b) => {
            if *b {
                out.push('t');
                out.push('r');
                out.push('u');
                out.push('e');
            } else {
                out.push('f');
                out.push('a');
                out.push('l');
                out.push('s');
                out.push('e');
            }
            proof {
                assert(out@ =~= old(out)@ + scalar_text(*v));
            }
        },
        ScalarValue::Str(t) => {
            out.push('"');
            emit_escaped(out, t.as_str());
            out.push('"');
            proof {
                assert(out@ =~= old(out)@ + scalar_text(*v));
            }
        },
    }
}

/// Appends the value text of node `i`.
fn emit_node(cfg: &Config, i: usize, out: &mut Vec<char>)
    requires
        cfg.wf(),
        i < cfg.nodes@.len(),
    ensures
        final(out)@ == old(out)@ + node_text(cfg.nodes@, i as int),
    decreases cfg.nodes@.len() - i,
{
    let ghost s = cfg.nodes@;
    proof {
        assert(wf_node(s, i as int));
    }
    match &cfg.nodes[i].data {
        NodeData::Scalar(v) => {
            emit_scalar(out, v);
        },
        NodeData::Group(ch) => {
            out.push('{');
            out.push(' ');
            let ghost chs = ch@;
            let mut j: usize = 0;
            proof {
                assert(chs.skip(0) =~= chs);
            }
            while j < ch.len()
                invariant
                    cfg.wf(),
                    s == cfg.nodes@,
                    i < s.len(),
                    s[i as int].data is Group,
                    chs == children_of(s[i as int]),
                    chs == ch@,
                    j <= chs.len(),
                    kids_above(s, chs, i as int),
                    out@ + settings_text(s, chs.skip(j as int), i as int) == old(out)@ + seq![
                        '{',
                        ' ',
                    ] + settings_text(s, chs, i as int),
                decreases chs.len() - j,
            {
                let c = ch[j];
                proof {
                    assert(wf_node(s, i as int));
                    assert(chs.skip(j as int)[0] == chs[j as int]);
                    assert(chs.skip(j as int).drop_first() =~= chs.skip(j as int + 1));
                }
                match &cfg.nodes[c].name {
                    Some(nm) => {
                        emit_str_chars(out, nm.as_str());
                    },
                    None => {
                        proof {
                            assert(false);
                        }
                    },
                }
                out.push(' ');
                out.push('=');
                out.push(' ');
                emit_node(cfg, c, out);
                out.push(';');
                out.push(' ');
                proof {
                    assert(out@ + settings_text(s, chs.skip(j as int + 1), i as int) =~= old(out)@
                        + seq!['{', ' '] + settings_text(s, chs, i as int));
                }
                j += 1;
            }
            out.push('}');
            proof {
                assert(chs.skip(chs.len() as int) =~= Seq::<usize>::empty());
                assert(out@ =~= old(out)@ + node_text(s, i as int));
            }
        },
        NodeData::Array(ch) => {
            out.push('[');
            out.push(' ');
            emit_elements(cfg, i, ch, out);
            out.push(']');
            proof {
                assert(out@ =~= old(out)@ + node_text(s, i as int));
            }
        },
        NodeData::List(ch) => {
            out.push('(');
            out.push(' ');
            emit_elements(cfg, i, ch, out);
            out.push(')');
            proof {
                assert(out@ =~= old(out)@ + node_text(s, i as int));
            }
        },
    }
}

/// Appends the comma-separated elements of the container at `i`.
fn emit_elements(cfg: &Config, i: usize, ch: &Vec<usize>, out: &mut Vec<char>)
    requires
        cfg.wf(),
        i < cfg.nodes@.len(),
        ch@ == children_of(cfg.nodes@[i as int]),
    ensures
        final(out)@ == old(out)@ + elements_text(cfg.nodes@, ch@, i as int),
    decreases cfg.nodes@.len() - i, 0int,
{
    let ghost s = cfg.nodes@;
    let ghost chs = ch@;
    proof {
        assert(wf_node(s, i as int));
        assert(chs.skip(0) =~= chs);
    }
    let mut j: usize = 0;
    while j < ch.len()
        invariant
            cfg.wf(),
            s == cfg.nodes@,
            i < s.len(),
            chs == children_of(s[i as int]),
            chs == ch@,
            j <= chs.len(),
            kids_above(s, chs, i as int),
            out@ + elements_text(s, chs.skip(j as int), i as int) == old(out)@ + elements_text(
                s,
                chs,
                i as int,
            ),
        decreases chs.len() - j,
    {
        let c = ch[j];
        proof {
            assert(chs.skip(j as int)[0] == chs[j as int]);
            assert(chs.skip(j as int).drop_first() =~= chs.skip(j as int + 1));
        }
        emit_node(cfg, c, out);
        if j + 1 == ch.len() {
            out.push(' ');
        } else {
            out.push(',');
            out.push(' ');
        }
        proof {
            assert(out@ + elements_text(s, chs.skip(j as int + 1), i as int) =~= old(out)@
                + elements_text(s, chs, i as int));
        }
        j += 1;
    }
    proof {
        assert(chs.skip(chs.len() as int) =~= Seq::<usize>::empty());
        assert(out@ =~= old(out)@ + elements_text(s, chs, i as int));
    }
}

impl Config {
    /// The document's text, exactly as `doc_text` denotes it.
    pub fn save_to_string(&self) -> (r: String)
        requires
            self.wf(),
        ensures
            r@ == doc_text(self.nodes@),
    {
        serialize_config(self)
    }
}

/// The document text of `cfg`, exactly as `doc_text` denotes it.
pub fn serialize_config(cfg: &Config) -> (r: String)
    requires
        cfg.wf(),
    ensures
        r@ == doc_text(cfg.nodes@),
{
    let ghost s = cfg.nodes@;
    proof {
        assert(wf_node(s, 0));
    }
    let mut out: Vec<char> = Vec::new();
    match &cfg.nodes[0].data {
        NodeData::Group(ch) => {
            let ghost chs = ch@;
            let mut j: usize = 0;
            proof {
                assert(chs.skip(0) =~= chs);
            }
            while j < ch.len()
                invariant
                    cfg.wf(),
                    s == cfg.nodes@,
                    0 < s.len(),
                    s[0].data is Group,
                    chs == children_of(s[0]),
                    chs == ch@,
                    j <= chs.len(),
                    kids_above(s, chs, 0),
                    out@ + settings_text(s, chs.skip(j as int), 0) == settings_text(s, chs, 0),
                decreases chs.len() - j,
            {
                let c = ch[j];
                proof {
                    assert(wf_node(s, 0));
                    assert(chs.skip(j as int)[0] == chs[j as int]);
                    assert(chs.skip(j as int).drop_first() =~= chs.skip(j as int + 1));
                }
                match &cfg.nodes[c].name {
                    Some(nm) => {
                        emit_str_chars(&mut out, nm.as_str());
                    },
                    None => {
                        proof {
                            assert(false);
                        }
                    },
                }
                out.push(' ');
                out.push('=');
                out.push(' ');
                emit_node(cfg, c, &mut out);
                out.push(';');
                out.push(' ');
                proof {
                    assert(out@ + settings_text(s, chs.skip(j as int + 1), 0) =~= settings_text(
                        s,
                        chs,
                        0,
                    ));
                }
                j += 1;
            }
            proof {
                assert(chs.skip(chs.len() as int) =~= Seq::<usize>::empty());
                assert(out@ =~= doc_text(s));
            }
        },
        _ => {
            proof {
                assert(false);
            }
        },
    }
    crate::chars::chars_to_string(&out)
}

} // verus!
