//! The configuration document: an arena of [`Node`] slots owned by a
//! [`Config`].
//!
//! Slot 0 is the root group.  Every other node points to its parent by index,
//! and a parent's index is always smaller than its children's, so every
//! parent chain and every walk down the tree terminates.  Deletion unlinks a
//! node from its parent and marks the slot not alive; slots are never reused,
//! so a handle held across a deletion can always be detected as stale.

use vstd::prelude::*;

use crate::chars::{str_eq_range, str_to_chars};
use crate::ident::{check_name, valid_name};
use crate::node::{
    children_of, data_children, is_scalar_node, kind_of, scalar_kind, value_kind, Node, NodeData,
};

verus! {

/// Operational failures of the library.
#[derive(Debug, Clone, Copy, PartialEq, Eq, Structural)]
pub enum Errors {
    ParseError,
    FileNotExists,
    SaveError,
    ElementNotExists,
    DeleteError,
}

/// A configuration document owning one tree of nodes.
#[derive(Debug)]
pub struct Config {
    pub nodes: Vec<Node>,
}

/// The local well-formedness conditions of slot `i` within the arena `s`.
pub open spec fn wf_node(s: Seq<Node>, i: int) -> bool {
    let n = s[i];
    let ch = children_of(n);
    &&& (if i == 0 {
        n.parent is None && n.alive && n.data is Group && n.name is None
    } else {
        n.parent is Some && 0 <= n.parent->0 < i
    })
    &&& (i != 0 ==> (n.alive <==> children_of(s[n.parent->0 as int]).contains(i as usize)))
    &&& (forall|j: int| 0 <= j < ch.len() ==> i < #[trigger] ch[j] < s.len())
    &&& (forall|j: int| 0 <= j < ch.len() ==> s[#[trigger] ch[j] as int].parent == Some(
        i as usize,
    ))
    &&& (forall|j: int, k: int|
        #![trigger ch[j], ch[k]]
        0 <= j < k < ch.len() ==> ch[j] != ch[k])
    &&& (n.data is Group ==> forall|j: int| 0 <= j < ch.len() ==> (s[#[trigger] ch[j] as int].name
        is Some && valid_name(s[ch[j] as int].name->0@)))
    &&& (n.data is Group ==> forall|j: int, k: int|
        #![trigger ch[j], ch[k]]
        0 <= j < k < ch.len() ==> s[ch[j] as int].name->0@ != s[ch[k] as int].name->0@)
    &&& (n.data is Array ==> forall|j: int| 0 <= j < ch.len() ==> (is_scalar_node(
        s[#[trigger] ch[j] as int],
    ) && s[ch[j] as int].name is None))
    &&& (n.data is Array ==> forall|j: int, k: int|
        #![trigger ch[j], ch[k]]
        0 <= j < ch.len() && 0 <= k < ch.len() ==> scalar_kind(s[ch[j] as int]) == scalar_kind(
            s[ch[k] as int],
        ))
    &&& (n.data is List ==> forall|j: int| 0 <= j < ch.len() ==> s[#[trigger] ch[j] as int].name
        is None)
}

/// A well-formed arena: nonempty, rooted at slot 0, every slot locally
/// well-formed.
pub open spec fn wf_tree(s: Seq<Node>) -> bool {
    &&& s.len() >= 1
    &&& forall|i: int| 0 <= i < s.len() ==> #[trigger] wf_node(s, i)
}

/// A node is live when it and all of its ancestors are alive and linked.
/// A handle is usable exactly when the node it points at is live.
pub open spec fn live(s: Seq<Node>, i: int) -> bool
    decreases i,
{
    if !(0 <= i < s.len()) {
        false
    } else if !s[i].alive {
        false
    } else if i == 0 {
        true
    } else if s[i].parent is Some && 0 <= s[i].parent->0 < i {
        live(s, s[i].parent->0 as int)
    } else {
        false
    }
}

/// Whether `i` lies in the subtree rooted at `a` (following parent links).
pub open spec fn has_ancestor(s: Seq<Node>, i: int, a: int) -> bool
    decreases i,
{
    if i == a {
        true
    } else if 0 <= i < s.len() && i > 0 && s[i].parent is Some && 0 <= s[i].parent->0 < i {
        has_ancestor(s, s[i].parent->0 as int, a)
    } else {
        false
    }
}

/// Whether the group at `p` already has a child named `name`.
pub open spec fn group_has_name(s: Seq<Node>, p: int, name: Seq<char>) -> bool {
    exists|j: int|
        0 <= j < children_of(s[p]).len() && s[#[trigger] children_of(s[p])[j] as int].name is Some
            && s[children_of(s[p])[j] as int].name->0@ == name
}

/// Whether a child with payload `data`, to be called `name` if the target is
/// a group, may be appended under node `p`.
///
/// A group accepts any child under a fresh valid name; an array accepts only
/// scalars of the type its existing elements share; a list accepts anything;
/// a scalar accepts nothing.  The target must be live.
pub open spec fn can_add(s: Seq<Node>, p: int, name: Seq<char>, data: NodeData) -> bool {
    &&& live(s, p)
    &&& match s[p].data {
        NodeData::Group(_) => valid_name(name) && !group_has_name(s, p, name),
        NodeData::Array(_) => data is Scalar && (children_of(s[p]).len() == 0 || kind_of(
            data->Scalar_0,
        ) == scalar_kind(s[children_of(s[p])[0] as int])),
        NodeData::List(_) => true,
        NodeData::Scalar(_) => false,
    }
}

/// Whether a container child (group, array or list) may be created under
/// node `p`: a group accepts it under a fresh valid name, a list always, an
/// array never (arrays hold scalars only), a scalar never.
pub open spec fn can_create(s: Seq<Node>, p: int, name: Seq<char>) -> bool {
    &&& live(s, p)
    &&& match s[p].data {
        NodeData::Group(_) => valid_name(name) && !group_has_name(s, p, name),
        NodeData::Array(_) => false,
        NodeData::List(_) => true,
        NodeData::Scalar(_) => false,
    }
}

/// Whether a scalar of value type `k` may be written under node `p`: a
/// group accepts it under a fresh valid name, an array only when `k` is the
/// type its existing elements share, a list always, a scalar never.
pub open spec fn can_write(s: Seq<Node>, p: int, name: Seq<char>, k: crate::node::OptionType) -> bool {
    &&& live(s, p)
    &&& match s[p].data {
        NodeData::Group(_) => valid_name(name) && !group_has_name(s, p, name),
        NodeData::Array(_) => children_of(s[p]).len() == 0 || k == scalar_kind(
            s[children_of(s[p])[0] as int],
        ),
        NodeData::List(_) => true,
        NodeData::Scalar(_) => false,
    }
}

pub open spec fn same_variant(a: NodeData, b: NodeData) -> bool {
    &&& a is Group <==> b is Group
    &&& a is Array <==> b is Array
    &&& a is List <==> b is List
    &&& a is Scalar <==> b is Scalar
}

/// How `s1` arises from `s0` by appending a child under `p` as slot `idx`:
/// the parent gains `idx` at the end of its child list, the new slot is
/// alive and named `name` when the parent is a group, and every other slot
/// is untouched.
pub open spec fn child_appended(
    s0: Seq<Node>,
    s1: Seq<Node>,
    p: int,
    name: Seq<char>,
    idx: int,
) -> bool {
    &&& idx == s0.len()
    &&& s1.len() == s0.len() + 1
    &&& (forall|j: int| 0 <= j < s0.len() && j != p ==> s1[j] == s0[j])
    &&& s1[p].alive == s0[p].alive
    &&& s1[p].parent == s0[p].parent
    &&& s1[p].name == s0[p].name
    &&& same_variant(s0[p].data, s1[p].data)
    &&& children_of(s1[p]) == children_of(s0[p]).push(idx as usize)
    &&& s1[idx].alive
    &&& s1[idx].parent == Some(p as usize)
    &&& (s0[p].data is Group ==> s1[idx].name is Some && s1[idx].name->0@ == name)
    &&& (!(s0[p].data is Group) ==> s1[idx].name is None)
}

/// `child_appended`, with the new slot carrying exactly the payload `data`.
pub open spec fn added(
    s0: Seq<Node>,
    s1: Seq<Node>,
    p: int,
    name: Seq<char>,
    data: NodeData,
    idx: int,
) -> bool {
    &&& child_appended(s0, s1, p, name, idx)
    &&& s1[idx].data == data
}

/// How `s1` arises from `s0` by unlinking slot `i` from its parent: the
/// parent loses the occurrence of `i` at position `pos` of its child list,
/// slot `i` is marked not alive, and every other slot is untouched.
pub open spec fn removed(s0: Seq<Node>, s1: Seq<Node>, i: int, pos: int) -> bool {
    let p = s0[i].parent->0 as int;
    let ch = children_of(s0[p]);
    &&& s1.len() == s0.len()
    &&& 0 <= pos < ch.len() && ch[pos] == i as usize
    &&& children_of(s1[p]) == ch.subrange(0, pos) + ch.subrange(pos + 1, ch.len() as int)
    &&& s1[p].alive == s0[p].alive
    &&& s1[p].parent == s0[p].parent
    &&& s1[p].name == s0[p].name
    &&& same_variant(s0[p].data, s1[p].data)
    &&& !s1[i].alive
    &&& s1[i].parent == s0[i].parent
    &&& s1[i].name == s0[i].name
    &&& s1[i].data == s0[i].data
    &&& (forall|j: int| 0 <= j < s0.len() && j != p && j != i ==> s1[j] == s0[j])
}

pub proof fn lemma_push_contains<A>(s: Seq<A>, x: A, y: A)
    ensures
        s.push(x).contains(y) <==> (s.contains(y) || y == x),
{
    if s.contains(y) {
        let k = choose|k: int| 0 <= k < s.len() && s[k] == y;
        assert(s.push(x)[k] == y);
    }
    if y == x {
        assert(s.push(x)[s.len() as int] == y);
    }
    if s.push(x).contains(y) && y != x {
        let k = choose|k: int| 0 <= k < s.push(x).len() && s.push(x)[k] == y;
        assert(0 <= k < s.len());
        assert(s[k] == y);
    }
}

/// Removing the one occurrence of a value from a duplicate-free sequence
/// removes exactly that value from its membership.
pub proof fn lemma_remove_at_contains<A>(s: Seq<A>, pos: int, y: A)
    requires
        0 <= pos < s.len(),
        forall|j: int, k: int| 0 <= j < k < s.len() ==> s[j] != s[k],
    ensures
        (s.subrange(0, pos) + s.subrange(pos + 1, s.len() as int)).contains(y) <==> (s.contains(y)
            && y != s[pos]),
{
    let t = s.subrange(0, pos) + s.subrange(pos + 1, s.len() as int);
    if t.contains(y) {
        let k = choose|k: int| 0 <= k < t.len() && t[k] == y;
        if k < pos {
            assert(s[k] == y);
        } else {
            assert(s[k + 1] == y);
        }
    }
    if s.contains(y) && y != s[pos] {
        let k = choose|k: int| 0 <= k < s.len() && s[k] == y;
        if k < pos {
            assert(t[k] == y);
        } else {
            assert(t[k - 1] == y);
        }
    }
}

impl Config {
    /// The arena is a well-formed tree.  Every public constructor establishes
    /// this and every public operation preserves it.
    pub open spec fn wf(self) -> bool {
        wf_tree(self.nodes@)
    }

    /// The document is a single empty root group.
    pub open spec fn is_empty_root(self) -> bool {
        self.nodes@.len() == 1 && children_of(self.nodes@[0]).len() == 0
    }

    /// Reads the node at `path`, resolved from the root; `None` when the
    /// path does not resolve.
    pub fn value(&self, path: &str) -> (r: Option<crate::reader::OptionReader>)
        requires
            self.wf(),
        ensures
            ({
                let res = crate::path::resolve_from(self.nodes@, 0, path@);
                &&& (r is Some <==> res is Some)
                &&& (r matches Some(rd) ==> rd.element == res && rd.bound(*self))
            }),
    {
        proof {
            assert(wf_node(self.nodes@, 0));
        }
        let root = crate::reader::OptionReader::new(Some(0));
        root.value(self, path)
    }

    /// Creates a new empty group named `name` under the root; the contract
    /// is that of [`crate::writer::OptionWriter::create_section`] on the
    /// root.
    pub fn create_section(&mut self, name: &str) -> (r: Option<crate::writer::OptionWriter>)
        requires
            old(self).wf(),
        ensures
            final(self).wf(),
            r is None ==> *final(self) == *old(self),
            r is Some <==> can_create(old(self).nodes@, 0, name@),
            r matches Some(w) ==> ({
                let idx = old(self).nodes@.len() as int;
                &&& w.element is Some
                &&& w.element->0 == idx
                &&& child_appended(old(self).nodes@, final(self).nodes@, 0, name@, idx)
                &&& final(self).nodes@[idx].data is Group
                &&& children_of(final(self).nodes@[idx]).len() == 0
            }),
    {
        let root = crate::writer::OptionWriter::new(Some(0));
        root.create_section(self, name)
    }

    /// Creates an empty document: a root group with no children.
    pub fn new() -> (c: Config)
        ensures
            c.wf(),
            c.is_empty_root(),
    {
        let root = Node {
            alive: true,
            parent: None,
            name: None,
            data: NodeData::Group(Vec::new()),
        };
        let mut nodes: Vec<Node> = Vec::new();
        nodes.push(root);
        let c = Config { nodes };
        proof {
            assert(children_of(c.nodes@[0]) =~= Seq::<usize>::empty());
            assert(wf_node(c.nodes@, 0));
        }
        c
    }
}

/// Whether node `i` of `cfg` is live: in bounds, alive, and on an unbroken
/// alive parent chain up to the root.
pub fn is_live(cfg: &Config, i: usize) -> (b: bool)
    ensures
        b == live(cfg.nodes@, i as int),
{
    if i >= cfg.nodes.len() {
        return false;
    }
    let mut cur = i;
    loop
        invariant
            cur < cfg.nodes@.len(),
            live(cfg.nodes@, i as int) == live(cfg.nodes@, cur as int),
        decreases cur,
    {
        if !cfg.nodes[cur].alive {
            return false;
        }
        if cur == 0 {
            return true;
        }
        match cfg.nodes[cur].parent {
            Some(p) => {
                if p < cur {
                    cur = p;
                } else {
                    return false;
                }
            },
            None => {
                return false;
            },
        }
    }
}

/// The number of children of node `i`.
pub fn node_child_count(cfg: &Config, i: usize) -> (n: usize)
    requires
        i < cfg.nodes@.len(),
    ensures
        n == children_of(cfg.nodes@[i as int]).len(),
{
    match &cfg.nodes[i].data {
        NodeData::Scalar(_) => 0,
        NodeData::Group(v) => v.len(),
        NodeData::Array(v) => v.len(),
        NodeData::List(v) => v.len(),
    }
}

/// The `j`-th child of node `i`.
pub fn node_child_at(cfg: &Config, i: usize, j: usize) -> (c: usize)
    requires
        i < cfg.nodes@.len(),
        j < children_of(cfg.nodes@[i as int]).len(),
    ensures
        c == children_of(cfg.nodes@[i as int])[j as int],
{
    match &cfg.nodes[i].data {
        NodeData::Group(v) => v[j],
        NodeData::Array(v) => v[j],
        NodeData::List(v) => v[j],
        NodeData::Scalar(_) => {
            proof {
                assert(false);
            }
            0
        },
    }
}

pub fn is_group_at(cfg: &Config, i: usize) -> (b: bool)
    requires
        i < cfg.nodes@.len(),
    ensures
        b == (cfg.nodes@[i as int].data is Group),
{
    match &cfg.nodes[i].data {
        NodeData::Group(_) => true,
        _ => false,
    }
}

pub fn is_array_at(cfg: &Config, i: usize) -> (b: bool)
    requires
        i < cfg.nodes@.len(),
    ensures
        b == (cfg.nodes@[i as int].data is Array),
{
    match &cfg.nodes[i].data {
        NodeData::Array(_) => true,
        _ => false,
    }
}

pub fn is_list_at(cfg: &Config, i: usize) -> (b: bool)
    requires
        i < cfg.nodes@.len(),
    ensures
        b == (cfg.nodes@[i as int].data is List),
{
    match &cfg.nodes[i].data {
        NodeData::List(_) => true,
        _ => false,
    }
}

pub fn is_scalar_at(cfg: &Config, i: usize) -> (b: bool)
    requires
        i < cfg.nodes@.len(),
    ensures
        b == (cfg.nodes@[i as int].data is Scalar),
{
    match &cfg.nodes[i].data {
        NodeData::Scalar(_) => true,
        _ => false,
    }
}

/// The value type of the scalar node `i`.
pub fn scalar_kind_at(cfg: &Config, i: usize) -> (k: crate::node::OptionType)
    requires
        i < cfg.nodes@.len(),
        cfg.nodes@[i as int].data is Scalar,
    ensures
        k == scalar_kind(cfg.nodes@[i as int]),
{
    match &cfg.nodes[i].data {
        NodeData::Scalar(v) => value_kind(v),
        _ => {
            proof {
                assert(false);
            }
            crate::node::OptionType::IntegerType
        },
    }
}

/// Whether node `c` carries exactly the name `chars`.
fn child_name_is(cfg: &Config, c: usize, chars: &Vec<char>) -> (b: bool)
    requires
        c < cfg.nodes@.len(),
    ensures
        b == (cfg.nodes@[c as int].name is Some && cfg.nodes@[c as int].name->0@ == chars@),
{
    match &cfg.nodes[c].name {
        Some(nm) => {
            let hi = chars.len();
            let r = str_eq_range(nm, chars, 0, hi);
            proof {
                assert(chars@.subrange(0, chars@.len() as int) =~= chars@);
            }
            r
        },
        None => false,
    }
}

/// Appends a child with payload `data` under node `p`.  When the target is a
/// group the child is named `name`; arrays and lists ignore the name.  Returns
/// the new node's index, or `None` (leaving the document untouched) exactly
/// when `can_add` forbids the insertion.
pub fn add_child(cfg: &mut Config, p: usize, name: &str, data: NodeData) -> (r: Option<usize>)
    requires
        old(cfg).wf(),
        data_children(data).len() == 0,
    ensures
        final(cfg).wf(),
        r is None ==> *final(cfg) == *old(cfg),
        r is Some <==> can_add(old(cfg).nodes@, p as int, name@, data),
        r matches Some(idx) ==> added(
            old(cfg).nodes@,
            final(cfg).nodes@,
            p as int,
            name@,
            data,
            idx as int,
        ),
{
    let ghost s0 = cfg.nodes@;
    if !is_live(cfg, p) {
        return None;
    }
    proof {
        assert(0 <= (p as int) < s0.len());
    }
    let mut stored_name: Option<String> = None;
    if is_group_at(cfg, p) {
        let name_chars = str_to_chars(name);
        if !check_name(&name_chars) {
            return None;
        }
        let m = node_child_count(cfg, p);
        let mut j: usize = 0;
        while j < m
            invariant
                j <= m,
                cfg.nodes@ == s0,
                wf_tree(s0),
                p < s0.len(),
                s0[p as int].data is Group,
                m == children_of(s0[p as int]).len(),
                name_chars@ == name@,
                forall|jj: int|
                    0 <= jj < j ==> !(s0[#[trigger] children_of(s0[p as int])[jj] as int].name
                        is Some && s0[children_of(s0[p as int])[jj] as int].name->0@ == name@),
            decreases m - j,
        {
            let c = node_child_at(cfg, p, j);
            proof {
                assert(wf_node(s0, p as int));
            }
            if child_name_is(cfg, c, &name_chars) {
                proof {
                    assert(group_has_name(s0, p as int, name@));
                }
                return None;
            }
            j += 1;
        }
        proof {
            assert(!group_has_name(s0, p as int, name@));
        }
        stored_name = Some(name.to_owned());
    } else if is_array_at(cfg, p) {
        let ok = match &data {
            NodeData::Scalar(v) => {
                let m = node_child_count(cfg, p);
                if m == 0 {
                    true
                } else {
                    let c0 = node_child_at(cfg, p, 0);
                    proof {
                        assert(wf_node(s0, p as int));
                    }
                    let k0 = scalar_kind_at(cfg, c0);
                    let kn = value_kind(v);
                    k0 == kn
                }
            },
            _ => false,
        };
        if !ok {
            return None;
        }
    } else if is_list_at(cfg, p) {
    } else {
        return None;
    }
    proof {
        assert(can_add(s0, p as int, name@, data));
    }
    let idx = cfg.nodes.len();
    match &mut cfg.nodes[p].data {
        NodeData::Group(v) => v.push(idx),
        NodeData::Array(v) => v.push(idx),
        NodeData::List(v) => v.push(idx),
        NodeData::Scalar(_) => {
            proof {
                assert(false);
            }
        },
    }
    cfg.nodes.push(Node { alive: true, parent: Some(p), name: stored_name, data });
    proof {
        assert(added(s0, cfg.nodes@, p as int, name@, data, idx as int));
        lemma_add_preserves_wf(s0, cfg.nodes@, p as int, name@, data, idx as int);
    }
    Some(idx)
}

/// Unlinks the live non-root node `i` from its parent and marks it not
/// alive; its slot and descendants keep their fields, but no node of the
/// unlinked subtree is live afterwards.
pub fn unlink(cfg: &mut Config, i: usize) -> (pos: usize)
    requires
        old(cfg).wf(),
        live(old(cfg).nodes@, i as int),
        i != 0,
    ensures
        final(cfg).wf(),
        removed(old(cfg).nodes@, final(cfg).nodes@, i as int, pos as int),
        !live(final(cfg).nodes@, i as int),
{
    let ghost s0 = cfg.nodes@;
    proof {
        assert(0 <= (i as int) < s0.len());
        assert(wf_node(s0, i as int));
        assert(s0[i as int].alive);
    }
    let p = match cfg.nodes[i].parent {
        Some(q) => q,
        None => {
            proof {
                assert(false);
            }
            0
        },
    };
    proof {
        assert(children_of(s0[p as int]).contains(i as usize));
    }
    let ghost ch0 = children_of(s0[p as int]);
    let total = cfg.nodes.len();
    proof {
        assert(s0.len() == total);
    }
    let m = node_child_count(cfg, p);
    let mut pos: usize = 0;
    while pos < m && node_child_at(cfg, p, pos) != i
        invariant
            cfg.nodes@ == s0,
            wf_tree(s0),
            p < s0.len(),
            i < s0.len(),
            pos <= m,
            m == ch0.len(),
            ch0 == children_of(s0[p as int]),
            forall|jj: int| 0 <= jj < pos ==> #[trigger] ch0[jj] != i as usize,
        decreases m - pos,
    {
        pos += 1;
    }
    proof {
        if pos >= m {
            let w = choose|w: int| 0 <= w < ch0.len() && ch0[w] == i as usize;
            assert(false);
        }
        assert(ch0[pos as int] == i as usize);
        assert(ch0.len() > 0);
    }
    match &mut cfg.nodes[p].data {
        NodeData::Group(v) => {
            v.remove(pos);
        },
        NodeData::Array(v) => {
            v.remove(pos);
        },
        NodeData::List(v) => {
            v.remove(pos);
        },
        NodeData::Scalar(_) => {
            proof {
                assert(false);
            }
        },
    }
    let slot = &mut cfg.nodes[i];
    slot.alive = false;
    proof {
        assert(children_of(cfg.nodes@[p as int]) =~= ch0.subrange(0, pos as int) + ch0.subrange(
            pos as int + 1,
            ch0.len() as int,
        ));
        assert(removed(s0, cfg.nodes@, i as int, pos as int));
        lemma_remove_preserves_wf(s0, cfg.nodes@, i as int, pos as int);
    }
    pos
}

/// Appending a child that `can_add` allows keeps the arena well-formed.
pub proof fn lemma_add_preserves_wf(
    s0: Seq<Node>,
    s1: Seq<Node>,
    p: int,
    name: Seq<char>,
    data: NodeData,
    idx: int,
)
    requires
        wf_tree(s0),
        s0.len() <= usize::MAX,
        can_add(s0, p, name, data),
        data_children(data).len() == 0,
        added(s0, s1, p, name, data, idx),
    ensures
        wf_tree(s1),
{
    assert(0 <= p < s0.len());
    let ch0 = children_of(s0[p]);
    let ch1 = children_of(s1[p]);
    assert(ch1 == ch0.push(idx as usize));
    assert(ch1[ch0.len() as int] == idx as usize);
    assert forall|i: int| 0 <= i < s1.len() implies wf_node(s1, i) by {
        if i == idx {
            assert(ch1.contains(idx as usize));
            assert(children_of(s1[i]).len() == 0);
            assert(wf_node(s1, i));
        } else if i == p {
            assert(wf_node(s0, p));
            assert forall|j: int| 0 <= j < ch1.len() implies p < #[trigger] ch1[j] < s1.len() by {
                if j < ch0.len() {
                    assert(ch1[j] == ch0[j]);
                }
            }
            assert forall|j: int| 0 <= j < ch1.len() implies s1[#[trigger] ch1[j] as int].parent
                == Some(p as usize) by {
                if j < ch0.len() {
                    assert(ch1[j] == ch0[j]);
                    assert(s1[ch0[j] as int] == s0[ch0[j] as int]);
                }
            }
            if s1[p].data is Group {
                assert(s0[p].data is Group);
                assert forall|j: int| 0 <= j < ch1.len() implies (s1[#[trigger] ch1[j] as int].name
                    is Some && valid_name(s1[ch1[j] as int].name->0@)) by {
                    if j < ch0.len() {
                        assert(ch1[j] == ch0[j]);
                        assert(s1[ch0[j] as int] == s0[ch0[j] as int]);
                    }
                }
                assert forall|j: int, k: int|
                    #![trigger ch1[j], ch1[k]]
                    0 <= j < k < ch1.len() implies s1[ch1[j] as int].name->0@ != s1[ch1[k]
                    as int].name->0@ by {
                    if k < ch0.len() {
                        assert(ch1[j] == ch0[j] && ch1[k] == ch0[k]);
                        assert(s1[ch0[j] as int] == s0[ch0[j] as int]);
                        assert(s1[ch0[k] as int] == s0[ch0[k] as int]);
                    } else {
                        assert(ch1[j] == ch0[j]);
                        assert(s1[ch0[j] as int] == s0[ch0[j] as int]);
                        assert(!group_has_name(s0, p, name));
                        assert(s0[ch0[j] as int].name is Some);
                        assert(s0[ch0[j] as int].name->0@ != name);
                        assert(s1[ch1[k] as int].name->0@ == name);
                    }
                }
            }
            if s1[p].data is Array {
                assert(s0[p].data is Array);
                assert forall|j: int| 0 <= j < ch1.len() implies (is_scalar_node(
                    s1[#[trigger] ch1[j] as int],
                ) && s1[ch1[j] as int].name is None) by {
                    if j < ch0.len() {
                        assert(ch1[j] == ch0[j]);
                        assert(s1[ch0[j] as int] == s0[ch0[j] as int]);
                    }
                }
                assert forall|j: int, k: int|
                    #![trigger ch1[j], ch1[k]]
                    0 <= j < ch1.len() && 0 <= k < ch1.len() implies scalar_kind(
                    s1[ch1[j] as int],
                ) == scalar_kind(s1[ch1[k] as int]) by {
                    if ch0.len() > 0 {
                        assert(scalar_kind(s1[idx]) == kind_of(data->Scalar_0));
                        assert(scalar_kind(s0[ch0[0] as int]) == kind_of(data->Scalar_0));
                        if j < ch0.len() {
                            assert(ch1[j] == ch0[j]);
                            assert(s1[ch0[j] as int] == s0[ch0[j] as int]);
                            assert(scalar_kind(s0[ch0[j] as int]) == scalar_kind(
                                s0[ch0[0] as int],
                            ));
                        }
                        if k < ch0.len() {
                            assert(ch1[k] == ch0[k]);
                            assert(s1[ch0[k] as int] == s0[ch0[k] as int]);
                            assert(scalar_kind(s0[ch0[k] as int]) == scalar_kind(
                                s0[ch0[0] as int],
                            ));
                        }
                    }
                }
            }
            if s1[p].data is List {
                assert forall|j: int| 0 <= j < ch1.len() implies s1[#[trigger] ch1[j]
                    as int].name is None by {
                    if j < ch0.len() {
                        assert(ch1[j] == ch0[j]);
                        assert(s1[ch0[j] as int] == s0[ch0[j] as int]);
                    }
                }
            }
            if p != 0 {
                let q = s0[p].parent->0 as int;
                assert(0 <= q < p);
                assert(s1[q] == s0[q]);
            }
            assert(wf_node(s1, p));
        } else {
            assert(wf_node(s0, i));
            let ch = children_of(s0[i]);
            assert(children_of(s1[i]) == ch);
            if i != 0 {
                let q = s0[i].parent->0 as int;
                if q == p {
                    lemma_push_contains(ch0, idx as usize, i as usize);
                } else {
                    assert(s1[q] == s0[q]);
                }
            }
            assert forall|j: int| 0 <= j < ch.len() implies {
                let c = #[trigger] ch[j] as int;
                &&& i < c < s1.len()
                &&& s1[c].parent == s0[c].parent
                &&& s1[c].name == s0[c].name
                &&& same_variant(s0[c].data, s1[c].data)
            } by {
                let c = ch[j] as int;
                assert(c < s0.len());
                if c != p {
                    assert(s1[c] == s0[c]);
                }
            }
            if s0[i].data is Array {
                assert forall|j: int, k: int|
                    #![trigger ch[j], ch[k]]
                    0 <= j < ch.len() && 0 <= k < ch.len() implies scalar_kind(s1[ch[j] as int])
                    == scalar_kind(s1[ch[k] as int]) by {
                    assert(is_scalar_node(s0[ch[j] as int]));
                    assert(is_scalar_node(s0[ch[k] as int]));
                    assert(ch[j] != p && ch[k] != p) by {
                        assert(!(s0[p].data is Scalar));
                    }
                    assert(s1[ch[j] as int] == s0[ch[j] as int]);
                    assert(s1[ch[k] as int] == s0[ch[k] as int]);
                }
            }
            if s0[i].data is Group {
                assert forall|j: int| 0 <= j < ch.len() implies (s1[#[trigger] ch[j] as int].name
                    is Some && valid_name(s1[ch[j] as int].name->0@)) by {
                    let c = ch[j] as int;
                    assert(s1[c].name == s0[c].name);
                }
                assert forall|j: int, k: int|
                    #![trigger ch[j], ch[k]]
                    0 <= j < k < ch.len() implies s1[ch[j] as int].name->0@ != s1[ch[k]
                    as int].name->0@ by {
                    assert(s1[ch[j] as int].name == s0[ch[j] as int].name);
                    assert(s1[ch[k] as int].name == s0[ch[k] as int].name);
                }
            }
            if s0[i].data is List {
                assert forall|j: int| 0 <= j < ch.len() implies s1[#[trigger] ch[j]
                    as int].name is None by {
                    let c = ch[j] as int;
                    assert(s1[c].name == s0[c].name);
                }
            }
            assert(wf_node(s1, i));
        }
    }
}

/// Unlinking a non-root node keeps the arena well-formed.
pub proof fn lemma_remove_preserves_wf(s0: Seq<Node>, s1: Seq<Node>, d: int, pos: int)
    requires
        wf_tree(s0),
        s0.len() <= usize::MAX,
        live(s0, d),
        d != 0,
        removed(s0, s1, d, pos),
    ensures
        wf_tree(s1),
{
    assert(0 <= d < s0.len());
    assert(wf_node(s0, d));
    let p = s0[d].parent->0 as int;
    assert(0 <= p < d);
    let ch0 = children_of(s0[p]);
    let ch1 = children_of(s1[p]);
    assert(ch1 == ch0.subrange(0, pos) + ch0.subrange(pos + 1, ch0.len() as int));
    assert(wf_node(s0, p));
    assert forall|j: int| 0 <= j < ch1.len() implies #[trigger] ch1[j] == (if j < pos {
        ch0[j]
    } else {
        ch0[j + 1]
    }) by {}
    assert forall|i: int| 0 <= i < s1.len() implies wf_node(s1, i) by {
        if i == p {
            assert forall|j: int, k: int|
                #![trigger ch1[j], ch1[k]]
                0 <= j < k < ch1.len() implies ch1[j] != ch1[k] by {
                let j0 = if j < pos { j } else { j + 1 };
                let k0 = if k < pos { k } else { k + 1 };
                assert(ch1[j] == ch0[j0] && ch1[k] == ch0[k0]);
            }
            assert forall|j: int| 0 <= j < ch1.len() implies {
                let c = #[trigger] ch1[j] as int;
                &&& p < c < s1.len()
                &&& s1[c].parent == s0[c].parent
                &&& s1[c].name == s0[c].name
                &&& same_variant(s0[c].data, s1[c].data)
            } by {
                let j0 = if j < pos { j } else { j + 1 };
                assert(ch1[j] == ch0[j0]);
                let c = ch0[j0] as int;
                if c != d && c != p {
                    assert(s1[c] == s0[c]);
                }
            }
            if s0[p].data is Group {
                assert forall|j: int| 0 <= j < ch1.len() implies (s1[#[trigger] ch1[j] as int].name
                    is Some && valid_name(s1[ch1[j] as int].name->0@)) by {
                    let j0 = if j < pos { j } else { j + 1 };
                    assert(ch1[j] == ch0[j0]);
                    assert(s1[ch0[j0] as int].name == s0[ch0[j0] as int].name);
                }
                assert forall|j: int, k: int|
                    #![trigger ch1[j], ch1[k]]
                    0 <= j < k < ch1.len() implies s1[ch1[j] as int].name->0@ != s1[ch1[k]
                    as int].name->0@ by {
                    let j0 = if j < pos { j } else { j + 1 };
                    let k0 = if k < pos { k } else { k + 1 };
                    assert(ch1[j] == ch0[j0] && ch1[k] == ch0[k0]);
                    assert(s1[ch0[j0] as int].name == s0[ch0[j0] as int].name);
                    assert(s1[ch0[k0] as int].name == s0[ch0[k0] as int].name);
                }
            }
            if s0[p].data is Array {
                assert forall|j: int| 0 <= j < ch1.len() implies (is_scalar_node(
                    s1[#[trigger] ch1[j] as int],
                ) && s1[ch1[j] as int].name is None) by {
                    let j0 = if j < pos { j } else { j + 1 };
                    assert(ch1[j] == ch0[j0]);
                    assert(same_variant(s0[ch0[j0] as int].data, s1[ch0[j0] as int].data) && s1[
                        ch0[j0] as int].name == s0[ch0[j0] as int].name) by {
                        let c = ch0[j0] as int;
                        if c != d && c != p {
                            assert(s1[c] == s0[c]);
                        }
                    }
                }
                assert forall|j: int, k: int|
                    #![trigger ch1[j], ch1[k]]
                    0 <= j < ch1.len() && 0 <= k < ch1.len() implies scalar_kind(
                    s1[ch1[j] as int],
                ) == scalar_kind(s1[ch1[k] as int]) by {
                    let j0 = if j < pos { j } else { j + 1 };
                    let k0 = if k < pos { k } else { k + 1 };
                    assert(ch1[j] == ch0[j0] && ch1[k] == ch0[k0]);
                    assert(s1[ch0[j0] as int].data == s0[ch0[j0] as int].data) by {
                        let c = ch0[j0] as int;
                        assert(c != p);
                        if c == d {
                        } else {
                            assert(s1[c] == s0[c]);
                        }
                    }
                    assert(s1[ch0[k0] as int].data == s0[ch0[k0] as int].data) by {
                        let c = ch0[k0] as int;
                        assert(c != p);
                        if c == d {
                        } else {
                            assert(s1[c] == s0[c]);
                        }
                    }
                }
            }
            if s0[p].data is List {
                assert forall|j: int| 0 <= j < ch1.len() implies s1[#[trigger] ch1[j]
                    as int].name is None by {
                    let j0 = if j < pos { j } else { j + 1 };
                    assert(ch1[j] == ch0[j0]);
                    let c = ch0[j0] as int;
                    if c != d && c != p {
                        assert(s1[c] == s0[c]);
                    }
                }
            }
            if p != 0 {
                let q = s0[p].parent->0 as int;
                assert(0 <= q < p);
                assert(s1[q] == s0[q]);
                lemma_remove_at_contains(ch0, pos, p as usize);
            }
            assert(wf_node(s1, p));
        } else {
            assert(wf_node(s0, i));
            let ch = children_of(s0[i]);
            assert(children_of(s1[i]) == ch);
            if i != 0 {
                let q = s0[i].parent->0 as int;
                assert(s1[i].alive == (if i == d {
                    false
                } else {
                    s0[i].alive
                }));
                if q == p {
                    lemma_remove_at_contains(ch0, pos, i as usize);
                    if i == d {
                        assert(!ch1.contains(i as usize));
                    }
                } else if q == d {
                    assert(children_of(s1[q]) == children_of(s0[q]));
                } else {
                    assert(s1[q] == s0[q]);
                }
            }
            assert forall|j: int| 0 <= j < ch.len() implies {
                let c = #[trigger] ch[j] as int;
                &&& i < c < s1.len()
                &&& s1[c].parent == s0[c].parent
                &&& s1[c].name == s0[c].name
                &&& same_variant(s0[c].data, s1[c].data)
            } by {
                let c = ch[j] as int;
                assert(c < s0.len());
                if c != p && c != d {
                    assert(s1[c] == s0[c]);
                }
            }
            if s0[i].data is Array {
                assert forall|j: int, k: int|
                    #![trigger ch[j], ch[k]]
                    0 <= j < ch.len() && 0 <= k < ch.len() implies scalar_kind(s1[ch[j] as int])
                    == scalar_kind(s1[ch[k] as int]) by {
                    assert(is_scalar_node(s0[ch[j] as int]));
                    assert(is_scalar_node(s0[ch[k] as int]));
                    assert(ch[j] != p && ch[k] != p) by {
                        assert(!(s0[p].data is Scalar));
                    }
                    assert(s1[ch[j] as int].data == s0[ch[j] as int].data);
                    assert(s1[ch[k] as int].data == s0[ch[k] as int].data);
                }
            }
            if s0[i].data is Group {
                assert forall|j: int| 0 <= j < ch.len() implies (s1[#[trigger] ch[j] as int].name
                    is Some && valid_name(s1[ch[j] as int].name->0@)) by {
                    let c = ch[j] as int;
                    assert(s1[c].name == s0[c].name);
                }
                assert forall|j: int, k: int|
                    #![trigger ch[j], ch[k]]
                    0 <= j < k < ch.len() implies s1[ch[j] as int].name->0@ != s1[ch[k]
                    as int].name->0@ by {
                    assert(s1[ch[j] as int].name == s0[ch[j] as int].name);
                    assert(s1[ch[k] as int].name == s0[ch[k] as int].name);
                }
            }
            if s0[i].data is List {
                assert forall|j: int| 0 <= j < ch.len() implies s1[#[trigger] ch[j]
                    as int].name is None by {
                    let c = ch[j] as int;
                    assert(s1[c].name == s0[c].name);
                }
            }
            assert(wf_node(s1, i));
        }
    }
}

} // verus!
