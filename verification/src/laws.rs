//! Library-wide laws: properties of path resolution, name uniqueness,
//! array homogeneity, deletion, and the scalar-text readings of the
//! serializer, stated over the same spec functions the public contracts use
//! and proved from them.

use vstd::prelude::*;

use crate::config::{
    can_create, can_write, child_appended, group_has_name, has_ancestor, live, removed, wf_node,
    wf_tree,
};
use crate::ident::{is_name_char, is_name_start, valid_name};
use crate::node::{children_of, is_scalar_node, scalar_kind, Node, OptionType};
use crate::path::{lemma_first_dot_is, lemma_group_find_named, resolve_from, seg_target};

verus! {

/// Path resolution is deterministic and independent of unrelated siblings:
/// in a well-formed tree, resolving the one-segment path that is exactly a
/// child's name at its group yields that child, wherever among its siblings
/// it stands and whatever they hold.
pub proof fn lemma_resolve_named_child(s: Seq<Node>, g: usize, j: int)
    requires
        wf_tree(s),
        g < s.len(),
        s[g as int].data is Group,
        0 <= j < children_of(s[g as int]).len(),
    ensures
        resolve_from(s, g, s[children_of(s[g as int])[j] as int].name->0@) == Some(
            children_of(s[g as int])[j],
        ),
{
    let ch = children_of(s[g as int]);
    let c = ch[j];
    assert(wf_node(s, g as int));
    let name = s[c as int].name->0@;
    assert(valid_name(name));
    assert forall|m: int| 0 <= m < name.len() implies name[m] != '.' by {
        if m == 0 {
            assert(is_name_start(name[0]));
        } else {
            assert(is_name_char(name[m]));
        }
    }
    lemma_first_dot_is(name, name.len() as int);
    assert(name.subrange(0, name.len() as int) =~= name);
    lemma_group_find_named(s, ch, name, j);
    assert(seg_target(s, g, name) == Some(c));
}

/// Resolution is strictly left to right, with no backtracking: resolving
/// `p1.p2` is resolving `p1`, then resolving `p2` from wherever that led,
/// for any paths (`p1` nonempty and not ending in a dot).
pub proof fn lemma_resolve_append(s: Seq<Node>, i: usize, p1: Seq<char>, p2: Seq<char>)
    requires
        p1.len() > 0,
        p1.last() != '.',
    ensures
        resolve_from(s, i, p1 + seq!['.'] + p2) == (match resolve_from(s, i, p1) {
            Some(c) => resolve_from(s, c, p2),
            None => None::<usize>,
        }),
    decreases p1.len(),
{
    let whole = p1 + seq!['.'] + p2;
    let k1 = crate::path::first_dot(p1) as int;
    crate::path::lemma_first_dot(p1);
    assert(whole.len() == p1.len() + 1 + p2.len());
    if k1 == p1.len() {
        assert forall|m: int| 0 <= m < p1.len() implies whole[m] != '.' by {
            assert(whole[m] == p1[m]);
        }
        assert(whole[p1.len() as int] == '.');
        crate::path::lemma_first_dot_is(whole, p1.len() as int);
        assert(whole.subrange(0, p1.len() as int) =~= p1);
        assert(whole.subrange(p1.len() as int + 1, whole.len() as int) =~= p2);
        assert(p1.subrange(0, p1.len() as int) =~= p1);
        match seg_target(s, i, p1) {
            None => {
                assert(resolve_from(s, i, whole) is None);
                assert(resolve_from(s, i, p1) is None);
            },
            Some(c) => {
                assert(resolve_from(s, i, p1) == Some(c));
                assert(resolve_from(s, i, whole) == resolve_from(s, c, p2));
            },
        }
    } else {
        assert(k1 < p1.len() - 1) by {
            assert(p1[p1.len() - 1] != '.');
        }
        assert forall|m: int| 0 <= m < k1 implies whole[m] != '.' by {
            assert(whole[m] == p1[m]);
        }
        assert(whole[k1] == p1[k1]);
        crate::path::lemma_first_dot_is(whole, k1);
        assert(whole.subrange(0, k1) =~= p1.subrange(0, k1));
        let seg = p1.subrange(0, k1);
        match seg_target(s, i, seg) {
            None => {
                assert(resolve_from(s, i, whole) is None);
                assert(resolve_from(s, i, p1) is None);
            },
            Some(c) => {
                let tail = p1.subrange(k1 + 1, p1.len() as int);
                assert(tail.len() > 0);
                assert(tail.last() == p1.last());
                assert(whole.subrange(k1 + 1, whole.len() as int) =~= tail + seq!['.'] + p2);
                lemma_resolve_append(s, c, tail, p2);
                assert(resolve_from(s, i, whole) == resolve_from(s, c, tail + seq!['.'] + p2));
                assert(resolve_from(s, i, p1) == resolve_from(s, c, tail));
            },
        }
    }
}

/// Duplicate names are rejected: once a child named `name` has been
/// appended to a group, neither a container nor a scalar can be created
/// under that name in the same group again.
pub proof fn lemma_duplicate_name_rejected(
    s0: Seq<Node>,
    s1: Seq<Node>,
    p: int,
    name: Seq<char>,
    idx: int,
)
    requires
        s0[p].data is Group,
        0 <= p < s0.len(),
        s0.len() <= usize::MAX,
        child_appended(s0, s1, p, name, idx),
    ensures
        group_has_name(s1, p, name),
        !can_create(s1, p, name),
        forall|k: OptionType| !can_write(s1, p, name, k),
{
    let ch0 = children_of(s0[p]);
    let ch1 = children_of(s1[p]);
    assert(ch1[ch0.len() as int] == idx as usize);
    assert(idx == s0.len() && idx < s1.len());
    assert((idx as usize) as int == idx);
    assert(s1[idx].name is Some && s1[idx].name->0@ == name);
    assert(group_has_name(s1, p, name));
    assert(s1[p].data is Group);
}

/// Arrays are homogeneous in every well-formed tree: any two elements of
/// one array are scalars of the same value type.
pub proof fn lemma_array_homogeneous(s: Seq<Node>, a: int, j: int, k: int)
    requires
        wf_tree(s),
        0 <= a < s.len(),
        s[a].data is Array,
        0 <= j < children_of(s[a]).len(),
        0 <= k < children_of(s[a]).len(),
    ensures
        is_scalar_node(s[children_of(s[a])[j] as int]),
        scalar_kind(s[children_of(s[a])[j] as int]) == scalar_kind(s[children_of(s[a])[k] as int]),
{
    assert(wf_node(s, a));
}

/// A scalar of a different value type cannot be written into a nonempty
/// array: the write contract refuses the mixture.
pub proof fn lemma_mixed_array_write_rejected(
    s: Seq<Node>,
    p: int,
    name: Seq<char>,
    k: OptionType,
)
    requires
        0 <= p < s.len(),
        s[p].data is Array,
        children_of(s[p]).len() > 0,
        k != scalar_kind(s[children_of(s[p])[0] as int]),
    ensures
        !can_write(s, p, name, k),
{
}

/// The decimal text a tree's integer takes when serialized denotes exactly
/// that integer again: `dec_digits` writes only digits and `dec_value`
/// reads them back to the same number.
pub proof fn lemma_dec_digits_value(n: nat)
    ensures
        crate::ident::all_digits(crate::serialize::dec_digits(n)),
        crate::ident::dec_value(crate::serialize::dec_digits(n)) == n,
    decreases n,
{
    let ds = crate::serialize::dec_digits(n);
    if n < 10 {
        assert(ds.take(0) =~= Seq::<char>::empty());
        assert(crate::ident::dec_value(Seq::<char>::empty()) == 0);
        assert(ds[0] == crate::serialize::digit_char(n));
        assert(crate::ident::dec_value(ds) == crate::ident::digit_val(
            crate::serialize::digit_char(n),
        ));
        assert(crate::ident::digit_val(crate::serialize::digit_char(n)) == n);
        assert(crate::ident::is_digit(crate::serialize::digit_char(n)));
    } else {
        lemma_dec_digits_value(n / 10);
        let pre = crate::serialize::dec_digits(n / 10);
        assert(ds == pre.push(crate::serialize::digit_char(n % 10)));
        assert(ds.take(ds.len() - 1) =~= pre);
        assert(ds[ds.len() - 1] == crate::serialize::digit_char(n % 10));
        assert(crate::ident::dec_value(ds) == crate::ident::dec_value(pre) * 10
            + crate::ident::digit_val(crate::serialize::digit_char(n % 10)));
        assert(crate::ident::digit_val(crate::serialize::digit_char(n % 10)) == n % 10);
        assert(crate::ident::dec_value(ds) == (n / 10) * 10 + n % 10);
        assert forall|j: int| 0 <= j < ds.len() implies crate::ident::is_digit(
            #[trigger] ds[j],
        ) by {
            if j < ds.len() - 1 {
                assert(ds[j] == pre[j]);
            }
        }
    }
}

/// `escape_str` written out from the front: the first character's escape,
/// then the rest.
proof fn lemma_escape_front(t: Seq<char>)
    requires
        t.len() > 0,
    ensures
        crate::serialize::escape_str(t) == crate::serialize::escape_char(t[0])
            + crate::serialize::escape_str(t.drop_first()),
    decreases t.len(),
{
    if t.len() == 1 {
        assert(t.drop_last() =~= Seq::<char>::empty());
        assert(t.drop_first() =~= Seq::<char>::empty());
        assert(crate::serialize::escape_str(t) =~= crate::serialize::escape_char(t[0])
            + crate::serialize::escape_str(t.drop_first()));
    } else {
        lemma_escape_front(t.drop_last());
        assert(t.drop_last()[0] == t[0]);
        assert(t.drop_last().drop_first() =~= t.drop_first().drop_last());
        assert(t.drop_first().last() == t.last());
        assert(t.drop_first().len() > 0);
        assert(crate::serialize::escape_str(t.drop_first())
            == crate::serialize::escape_str(t.drop_first().drop_last())
            + crate::serialize::escape_char(t.last()));
        assert(crate::serialize::escape_str(t) =~= crate::serialize::escape_char(t[0])
            + crate::serialize::escape_str(t.drop_first()));
    }
}

/// Escaping loses nothing: the escaped body of any string reads back to
/// exactly that string, so a string scalar's text carries its full value.
pub proof fn lemma_unescape_escape(t: Seq<char>)
    ensures
        crate::serialize::unescape(crate::serialize::escape_str(t)) == t,
    decreases t.len(),
{
    if t.len() == 0 {
        assert(crate::serialize::escape_str(t) =~= Seq::<char>::empty());
        assert(crate::serialize::unescape(crate::serialize::escape_str(t)) =~= t);
    } else {
        lemma_escape_front(t);
        lemma_unescape_escape(t.drop_first());
        let c = t[0];
        let ec = crate::serialize::escape_char(c);
        let rest = crate::serialize::escape_str(t.drop_first());
        let s = crate::serialize::escape_str(t);
        assert(s == ec + rest);
        if c == '"' || c == '\\' || c == '\n' || c == '\r' || c == '\t' {
            assert(ec.len() == 2 && ec[0] == '\\');
            assert(s[0] == '\\' && s.len() >= 2 && s[1] == ec[1]);
            assert(crate::serialize::unescape_char(ec[1]) == c);
            assert(s.skip(2) =~= rest);
            assert(crate::serialize::unescape(s) =~= t);
        } else {
            assert(ec =~= seq![c]);
            assert(s[0] == c && c != '\\');
            assert(s.drop_first() =~= rest);
            assert(crate::serialize::unescape(s) =~= t);
        }
    }
}

/// Nothing below a dead node is live: a handle held on any node whose
/// ancestor is not alive reports absence, never stale data.
pub proof fn lemma_dead_subtree_not_live(s: Seq<Node>, j: int, a: int)
    requires
        0 <= a < s.len(),
        !s[a].alive,
        has_ancestor(s, j, a),
    ensures
        !live(s, j),
    decreases j,
{
    if j == a {
    } else {
        lemma_dead_subtree_not_live(s, s[j].parent->0 as int, a);
    }
}

/// Unlinking a node moves no other node: every parent link, and with it
/// the ancestor relation, is the same before and after.
pub proof fn lemma_removed_keeps_ancestry(
    s0: Seq<Node>,
    s1: Seq<Node>,
    d: int,
    pos: int,
    j: int,
    a: int,
)
    requires
        0 <= d < s0.len(),
        removed(s0, s1, d, pos),
    ensures
        has_ancestor(s1, j, a) == has_ancestor(s0, j, a),
    decreases j,
{
    if j != a && 0 <= j < s0.len() && j > 0 {
        let p = s0[d].parent->0 as int;
        assert(s1[j].parent == s0[j].parent) by {
            if j != p && j != d {
                assert(s1[j] == s0[j]);
            }
        }
        if s0[j].parent is Some && 0 <= s0[j].parent->0 < j {
            lemma_removed_keeps_ancestry(s0, s1, d, pos, s0[j].parent->0 as int, a);
        }
    }
}

/// A successful deletion invalidates every handle into the removed
/// subtree: each node that reached the deleted one through parent links is
/// no longer live afterwards.
pub proof fn lemma_delete_invalidates(s0: Seq<Node>, s1: Seq<Node>, d: int, pos: int, j: int)
    requires
        0 <= d < s0.len(),
        removed(s0, s1, d, pos),
        has_ancestor(s0, j, d),
    ensures
        !live(s1, j),
{
    lemma_removed_keeps_ancestry(s0, s1, d, pos, j, d);
    lemma_dead_subtree_not_live(s1, j, d);
}

/// A deletion disturbs nothing outside the removed subtree: any node that
/// did not reach the deleted one through parent links is live afterwards
/// exactly when it was live before.
pub proof fn lemma_delete_frames_the_rest(s0: Seq<Node>, s1: Seq<Node>, d: int, pos: int, j: int)
    requires
        0 <= d < s0.len(),
        removed(s0, s1, d, pos),
        !has_ancestor(s0, j, d),
    ensures
        live(s1, j) == live(s0, j),
    decreases j,
{
    let p = s0[d].parent->0 as int;
    if 0 <= j < s0.len() {
        assert(j != d);
        assert(s1[j].alive == s0[j].alive && s1[j].parent == s0[j].parent) by {
            if j != p && j != d {
                assert(s1[j] == s0[j]);
            }
        }
        if j != 0 && s0[j].parent is Some && 0 <= s0[j].parent->0 < j {
            lemma_delete_frames_the_rest(s0, s1, d, pos, s0[j].parent->0 as int);
        }
    }
}

} // verus!
