//! Dotted-path resolution.
//!
//! A path is a sequence of segments separated by `.`.  Walking starts at a
//! node and is strictly left to right with no backtracking: at a group the
//! segment must exactly match a child's name, at an array or list it must be
//! a run of decimal digits denoting a position, and at a scalar every segment
//! fails.  The empty path resolves to the starting node (a single trailing
//! dot is ignored); any failing segment makes the whole path resolve to
//! `None`.

use vstd::prelude::*;

use crate::config::{
    is_array_at, is_group_at, is_list_at, live, node_child_at, node_child_count, wf_node, wf_tree,
    Config,
};
use crate::chars::str_eq_range;
use crate::ident::{all_digits, char_is_digit, dec_value, digit_val, is_digit};
use crate::node::{children_of, Node, NodeData};

verus! {

/// Position of the first `.` in `s`, or `s.len()` when there is none.
pub open spec fn first_dot(s: Seq<char>) -> nat
    decreases s.len(),
{
    if s.len() == 0 {
        0
    } else if s[0] == '.' {
        0
    } else {
        1 + first_dot(s.drop_first())
    }
}

pub proof fn lemma_first_dot(s: Seq<char>)
    ensures
        first_dot(s) <= s.len(),
        first_dot(s) < s.len() ==> s[first_dot(s) as int] == '.',
        forall|m: int| 0 <= m < first_dot(s) ==> s[m] != '.',
    decreases s.len(),
{
    if s.len() == 0 {
    } else if s[0] == '.' {
    } else {
        lemma_first_dot(s.drop_first());
        assert forall|m: int| 0 <= m < first_dot(s) implies s[m] != '.' by {
            if m > 0 {
                assert(s.drop_first()[m - 1] != '.');
            }
        }
    }
}

/// `first_dot` is the unique position with no dot before it and a dot (or
/// the end) at it.
pub proof fn lemma_first_dot_is(s: Seq<char>, d: int)
    requires
        0 <= d <= s.len(),
        forall|m: int| 0 <= m < d ==> s[m] != '.',
        d < s.len() ==> s[d] == '.',
    ensures
        first_dot(s) == d,
{
    lemma_first_dot(s);
    if first_dot(s) < d {
        assert(s[first_dot(s) as int] == '.');
    }
    if d < first_dot(s) {
        assert(s[d] != '.');
    }
}

/// The first child in `ch` whose name is exactly `name`.
pub open spec fn group_find(s: Seq<Node>, ch: Seq<usize>, name: Seq<char>) -> Option<usize>
    decreases ch.len(),
{
    if ch.len() == 0 {
        None
    } else if s[ch[0] as int].name is Some && s[ch[0] as int].name->0@ == name {
        Some(ch[0])
    } else {
        group_find(s, ch.drop_first(), name)
    }
}

/// In a child list with pairwise distinct names, `group_find` returns the
/// one child that carries the requested name, wherever it stands and
/// whatever the other children hold.
pub proof fn lemma_group_find_named(s: Seq<Node>, ch: Seq<usize>, name: Seq<char>, j: int)
    requires
        0 <= j < ch.len(),
        forall|m: int| 0 <= m < ch.len() ==> s[#[trigger] ch[m] as int].name is Some,
        forall|m: int, k: int|
            #![trigger ch[m], ch[k]]
            0 <= m < k < ch.len() ==> s[ch[m] as int].name->0@ != s[ch[k] as int].name->0@,
        s[ch[j] as int].name->0@ == name,
    ensures
        group_find(s, ch, name) == Some(ch[j]),
    decreases ch.len(),
{
    if j == 0 {
    } else {
        assert(s[ch[0] as int].name->0@ != s[ch[j] as int].name->0@);
        lemma_group_find_named(s, ch.drop_first(), name, j - 1);
    }
}

/// The child of node `i` that one path segment addresses.
pub open spec fn seg_target(s: Seq<Node>, i: usize, seg: Seq<char>) -> Option<usize> {
    if i >= s.len() {
        None
    } else {
        match s[i as int].data {
            NodeData::Group(_) => group_find(s, children_of(s[i as int]), seg),
            NodeData::Array(_) => index_target(s, i, seg),
            NodeData::List(_) => index_target(s, i, seg),
            NodeData::Scalar(_) => None,
        }
    }
}

/// The child of an ordered container addressed by a digit segment.
pub open spec fn index_target(s: Seq<Node>, i: usize, seg: Seq<char>) -> Option<usize> {
    if all_digits(seg) && dec_value(seg) < children_of(s[i as int]).len() {
        Some(children_of(s[i as int])[dec_value(seg) as int])
    } else {
        None
    }
}

/// Resolution of a dotted path from node `i`.
pub open spec fn resolve_from(s: Seq<Node>, i: usize, path: Seq<char>) -> Option<usize>
    decreases path.len(),
{
    if path.len() == 0 {
        Some(i)
    } else {
        let k = first_dot(path) as int;
        let seg = path.subrange(0, k);
        match seg_target(s, i, seg) {
            None => None,
            Some(c) => if k >= path.len() {
                Some(c)
            } else {
                resolve_from(s, c, path.subrange(k + 1, path.len() as int))
            },
        }
    }
}

/// Any child of a live node is itself live.
pub proof fn lemma_child_live(s: Seq<Node>, i: usize, c: usize)
    requires
        wf_tree(s),
        i < s.len(),
        live(s, i as int),
        children_of(s[i as int]).contains(c),
    ensures
        c < s.len(),
        i < c,
        live(s, c as int),
{
    let j = choose|j: int|
        0 <= j < children_of(s[i as int]).len() && children_of(s[i as int])[j] == c;
    assert(wf_node(s, i as int));
    assert(i < c < s.len());
    assert(wf_node(s, c as int));
    assert(s[c as int].parent == Some(i));
    assert(s[c as int].alive);
}

/// Looks the segment `path[lo..hi]` up under node `i`.
fn seg_lookup(cfg: &Config, i: usize, path: &Vec<char>, lo: usize, hi: usize) -> (r: Option<
    usize,
>)
    requires
        cfg.wf(),
        i < cfg.nodes@.len(),
        lo <= hi <= path@.len(),
    ensures
        r == seg_target(cfg.nodes@, i, path@.subrange(lo as int, hi as int)),
        r matches Some(c) ==> children_of(cfg.nodes@[i as int]).contains(c),
{
    let ghost s = cfg.nodes@;
    let ghost seg = path@.subrange(lo as int, hi as int);
    let ghost ch = children_of(s[i as int]);
    if is_group_at(cfg, i) {
        let m = node_child_count(cfg, i);
        let mut j: usize = 0;
        proof {
            assert(ch.skip(0) =~= ch);
        }
        while j < m
            invariant
                cfg.wf(),
                s == cfg.nodes@,
                i < s.len(),
                lo <= hi <= path@.len(),
                seg == path@.subrange(lo as int, hi as int),
                ch == children_of(s[i as int]),
                j <= m,
                m == ch.len(),
                group_find(s, ch, seg) == group_find(s, ch.skip(j as int), seg),
            decreases m - j,
        {
            let c = node_child_at(cfg, i, j);
            proof {
                assert(wf_node(s, i as int));
                assert(ch.skip(j as int)[0] == ch[j as int]);
            }
            let matches_here = match &cfg.nodes[c].name {
                Some(nm) => str_eq_range(nm, path, lo, hi),
                None => false,
            };
            if matches_here {
                proof {
                    assert(group_find(s, ch.skip(j as int), seg) == Some(c));
                    assert(ch.contains(c));
                }
                return Some(c);
            }
            proof {
                assert(ch.skip(j as int).drop_first() =~= ch.skip(j as int + 1));
            }
            j += 1;
        }
        proof {
            assert(ch.skip(m as int) =~= Seq::<usize>::empty());
        }
        None
    } else if is_array_at(cfg, i) || is_list_at(cfg, i) {
        if lo == hi {
            proof {
                assert(!all_digits(seg));
            }
            return None;
        }
        let m = node_child_count(cfg, i);
        if m == 0 {
            return None;
        }
        let mut acc: u128 = 0;
        let mut big = false;
        let mut j: usize = lo;
        proof {
            assert(path@.subrange(lo as int, lo as int) =~= Seq::<char>::empty());
            assert(dec_value(Seq::<char>::empty()) == 0);
        }
        while j < hi
            invariant
                cfg.wf(),
                s == cfg.nodes@,
                i < s.len(),
                lo <= j <= hi <= path@.len(),
                seg == path@.subrange(lo as int, hi as int),
                ch == children_of(s[i as int]),
                m == ch.len(),
                s[i as int].data is Array || s[i as int].data is List,
                forall|t: int| lo <= t < j ==> is_digit(#[trigger] path@[t]),
                !big ==> acc == dec_value(path@.subrange(lo as int, j as int)) && acc < m
                    as u128,
                big ==> dec_value(path@.subrange(lo as int, j as int)) >= m,
            decreases hi - j,
        {
            let c = path[j];
            if !char_is_digit(c) {
                proof {
                    assert(seg[j - lo] == path@[j as int]);
                    assert(!all_digits(seg));
                    assert(index_target(s, i, seg) is None);
                    assert(s[i as int].data is Array || s[i as int].data is List);
                    assert(seg_target(s, i, seg) is None);
                }
                return None;
            }
            let d: u128 = (c as u32 - 48) as u128;
            proof {
                assert(d == digit_val(c));
                let pre1 = path@.subrange(lo as int, j as int + 1);
                assert(pre1.take(pre1.len() - 1) =~= path@.subrange(lo as int, j as int));
                assert(pre1[pre1.len() - 1] == path@[j as int]);
                assert(dec_value(pre1) == dec_value(path@.subrange(lo as int, j as int)) * 10
                    + digit_val(c));
            }
            if big {
            } else {
                let next: u128 = acc * 10 + d;
                if next >= m as u128 {
                    big = true;
                } else {
                    acc = next;
                }
            }
            j += 1;
        }
        proof {
            assert(path@.subrange(lo as int, j as int) =~= seg);
            assert(all_digits(seg));
        }
        if big {
            return None;
        }
        let idx = acc as usize;
        proof {
            assert(idx as nat == dec_value(seg));
            assert(wf_node(s, i as int));
        }
        let c = node_child_at(cfg, i, idx);
        proof {
            assert(ch.contains(c));
        }
        Some(c)
    } else {
        proof {
            assert(s[i as int].data is Scalar);
        }
        None
    }
}

/// Resolves a dotted path from the live node `start`; the result is exactly
/// what `resolve_from` denotes, and any node found is live.
pub fn resolve(cfg: &Config, start: usize, path: &Vec<char>) -> (r: Option<usize>)
    requires
        cfg.wf(),
        start < cfg.nodes@.len(),
        live(cfg.nodes@, start as int),
    ensures
        r == resolve_from(cfg.nodes@, start, path@),
        r matches Some(t) ==> t < cfg.nodes@.len() && live(cfg.nodes@, t as int),
{
    let ghost s = cfg.nodes@;
    let n = path.len();
    let mut cur = start;
    let mut pos: usize = 0;
    proof {
        assert(path@.subrange(0, n as int) =~= path@);
    }
    loop
        invariant
            cfg.wf(),
            s == cfg.nodes@,
            n == path@.len(),
            pos <= n,
            cur < s.len(),
            live(s, cur as int),
            resolve_from(s, start, path@) == resolve_from(
                s,
                cur,
                path@.subrange(pos as int, n as int),
            ),
        decreases n - pos,
    {
        let ghost rem = path@.subrange(pos as int, n as int);
        if pos >= n {
            proof {
                assert(rem =~= Seq::<char>::empty());
            }
            return Some(cur);
        }
        let mut k: usize = pos;
        while k < n && path[k] != '.'
            invariant
                pos <= k <= n,
                n == path@.len(),
                forall|m: int| pos <= m < k ==> path@[m] != '.',
            decreases n - k,
        {
            k += 1;
        }
        proof {
            assert forall|m: int| 0 <= m < k - pos implies rem[m] != '.' by {
                assert(rem[m] == path@[pos + m]);
            }
            if k < n {
                assert(rem[k - pos] == path@[k as int]);
            }
            lemma_first_dot_is(rem, k - pos);
            assert(rem.subrange(0, k - pos) =~= path@.subrange(pos as int, k as int));
        }
        let t = seg_lookup(cfg, cur, path, pos, k);
        match t {
            None => {
                return None;
            },
            Some(c) => {
                proof {
                    lemma_child_live(s, cur, c);
                }
                if k == n {
                    return Some(c);
                } else {
                    proof {
                        assert(rem.subrange(k - pos + 1, rem.len() as int) =~= path@.subrange(
                            k as int + 1,
                            n as int,
                        ));
                    }
                    cur = c;
                    pos = k + 1;
                }
            },
        }
    }
}

} // verus!
