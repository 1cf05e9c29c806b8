//! The ghost mirror of the tree: nodes whose names and string values are
//! character sequences rather than `String`s, so that spec functions (the
//! grammar reading in [`crate::parse`]) can build and compare whole arenas.
//! `arena_view` maps a real arena to its mirror; the bridge lemmas carry
//! `can_add` and the effect of an insertion across.

use vstd::prelude::*;

use crate::config::{added, can_add, group_has_name, live, wf_node, wf_tree};
use crate::ident::valid_name;
use crate::node::{
    children_of, kind_of, scalar_kind, Node, NodeData, OptionType, ScalarValue,
};

verus! {

/// A scalar value, with text payloads as character sequences.
pub ghost enum ScalS {
    I32(i32),
    I64(i64),
    Flt(Seq<char>),
    Bool(bool),
    Str(Seq<char>),
}

/// A node payload in the mirror.
pub ghost enum DataS {
    Scalar(ScalS),
    Group(Seq<usize>),
    Array(Seq<usize>),
    List(Seq<usize>),
}

/// One mirrored arena slot.
pub ghost struct NodeS {
    pub alive: bool,
    pub parent: Option<usize>,
    pub name: Option<Seq<char>>,
    pub data: DataS,
}

/// One lexical token, with text payloads as character sequences.
pub ghost enum TokenS {
    LBrace,
    RBrace,
    LBrack,
    RBrack,
    LParen,
    RParen,
    Semi,
    Comma,
    Assign,
    Name(Seq<char>),
    IntVal(i32),
    Int64Val(i64),
    FloatVal(Seq<char>),
    StrVal(Seq<char>),
    BoolVal(bool),
}

pub open spec fn scal_view(v: ScalarValue) -> ScalS {
    match v {
        ScalarValue::I32(x) => ScalS::I32(x),
        ScalarValue::I64(x) => ScalS::I64(x),
        ScalarValue::Flt(t) => ScalS::Flt(t@),
        ScalarValue::Bool(b) => ScalS::Bool(b),
        ScalarValue::Str(t) => ScalS::Str(t@),
    }
}

pub open spec fn data_view(d: NodeData) -> DataS {
    match d {
        NodeData::Scalar(v) => DataS::Scalar(scal_view(v)),
        NodeData::Group(v) => DataS::Group(v@),
        NodeData::Array(v) => DataS::Array(v@),
        NodeData::List(v) => DataS::List(v@),
    }
}

pub open spec fn node_view(n: Node) -> NodeS {
    NodeS {
        alive: n.alive,
        parent: n.parent,
        name: match n.name {
            Some(t) => Some(t@),
            None => None,
        },
        data: data_view(n.data),
    }
}

pub open spec fn arena_view(s: Seq<Node>) -> Seq<NodeS> {
    s.map_values(|n: Node| node_view(n))
}

/// The arena of a fresh document: one empty root group.
pub open spec fn root_arena() -> Seq<NodeS> {
    seq![
        NodeS { alive: true, parent: None, name: None, data: DataS::Group(Seq::empty()) },
    ]
}

pub open spec fn kind_s(v: ScalS) -> OptionType {
    match v {
        ScalS::I32(_) => OptionType::IntegerType,
        ScalS::I64(_) => OptionType::Int64Type,
        ScalS::Flt(_) => OptionType::FloatType,
        ScalS::Bool(_) => OptionType::BooleanType,
        ScalS::Str(_) => OptionType::StringType,
    }
}

pub open spec fn children_s(n: NodeS) -> Seq<usize> {
    match n.data {
        DataS::Scalar(_) => Seq::empty(),
        DataS::Group(v) => v,
        DataS::Array(v) => v,
        DataS::List(v) => v,
    }
}

/// `live`, on the mirror.
pub open spec fn live_s(g: Seq<NodeS>, i: int) -> bool
    decreases i,
{
    if !(0 <= i < g.len()) {
        false
    } else if !g[i].alive {
        false
    } else if i == 0 {
        true
    } else if g[i].parent is Some && 0 <= g[i].parent->0 < i {
        live_s(g, g[i].parent->0 as int)
    } else {
        false
    }
}

/// `group_has_name`, on the mirror.
pub open spec fn group_has_s(g: Seq<NodeS>, p: int, name: Seq<char>) -> bool {
    exists|j: int|
        0 <= j < children_s(g[p]).len() && g[#[trigger] children_s(g[p])[j] as int].name is Some
            && g[children_s(g[p])[j] as int].name->0 == name
}

/// `can_add`, on the mirror.
pub open spec fn can_add_s(g: Seq<NodeS>, p: int, name: Seq<char>, data: DataS) -> bool {
    &&& live_s(g, p)
    &&& match g[p].data {
        DataS::Group(_) => valid_name(name) && !group_has_s(g, p, name),
        DataS::Array(_) => data is Scalar && (children_s(g[p]).len() == 0 || kind_s(
            data->Scalar_0,
        ) == kind_s(g[children_s(g[p])[0] as int].data->Scalar_0)),
        DataS::List(_) => true,
        DataS::Scalar(_) => false,
    }
}

pub open spec fn data_push(d: DataS, c: usize) -> DataS {
    match d {
        DataS::Scalar(v) => DataS::Scalar(v),
        DataS::Group(v) => DataS::Group(v.push(c)),
        DataS::Array(v) => DataS::Array(v.push(c)),
        DataS::List(v) => DataS::List(v.push(c)),
    }
}

/// The mirror arena after appending a child with payload `data` under `p`,
/// named `name` when the parent is a group: exactly the effect that
/// `crate::config::added` describes.
pub open spec fn add_s(g: Seq<NodeS>, p: int, name: Seq<char>, data: DataS) -> Seq<NodeS> {
    let idx = g.len() as usize;
    let child = NodeS {
        alive: true,
        parent: Some(p as usize),
        name: if g[p].data is Group {
            Some(name)
        } else {
            None
        },
        data,
    };
    g.update(p, NodeS { data: data_push(g[p].data, idx), ..g[p] }).push(child)
}

/// `live` agrees with its mirror.
pub proof fn lemma_live_view(s: Seq<Node>, i: int)
    ensures
        live_s(arena_view(s), i) == live(s, i),
    decreases i,
{
    let g = arena_view(s);
    if 0 <= i < s.len() {
        assert(g[i] == node_view(s[i]));
        if s[i].alive && i != 0 && s[i].parent is Some && 0 <= s[i].parent->0 < i {
            lemma_live_view(s, s[i].parent->0 as int);
        }
    }
}

/// `can_add` agrees with its mirror on well-formed arenas.
pub proof fn lemma_can_add_view(s: Seq<Node>, p: int, name: Seq<char>, data: NodeData)
    requires
        wf_tree(s),
    ensures
        can_add_s(arena_view(s), p, name, data_view(data)) == can_add(s, p, name, data),
{
    let g = arena_view(s);
    lemma_live_view(s, p);
    if 0 <= p < s.len() {
        assert(g[p] == node_view(s[p]));
        assert(children_s(g[p]) == children_of(s[p]));
        assert(wf_node(s, p));
        let ch = children_of(s[p]);
        if s[p].data is Group {
            if group_has_name(s, p, name) {
                let j = choose|j: int|
                    0 <= j < ch.len() && s[#[trigger] ch[j] as int].name is Some && s[ch[j]
                        as int].name->0@ == name;
                assert(g[ch[j] as int] == node_view(s[ch[j] as int]));
                assert(group_has_s(g, p, name));
            }
            if group_has_s(g, p, name) {
                let j = choose|j: int|
                    0 <= j < children_s(g[p]).len() && g[#[trigger] children_s(g[p])[j]
                        as int].name is Some && g[children_s(g[p])[j] as int].name->0 == name;
                assert(g[ch[j] as int] == node_view(s[ch[j] as int]));
                assert(group_has_name(s, p, name));
            }
        }
        if s[p].data is Array && ch.len() > 0 {
            assert(g[ch[0] as int] == node_view(s[ch[0] as int]));
            assert(data_view(data) is Scalar <==> data is Scalar);
            if data is Scalar {
                assert(kind_s(data_view(data)->Scalar_0) == kind_of(data->Scalar_0));
            }
            if s[ch[0] as int].data is Scalar {
                assert(kind_s(g[ch[0] as int].data->Scalar_0) == scalar_kind(s[ch[0] as int]));
            }
        }
    }
}

/// The effect of an insertion carries to the mirror.
pub proof fn lemma_added_view(
    s0: Seq<Node>,
    s1: Seq<Node>,
    p: int,
    name: Seq<char>,
    data: NodeData,
    idx: int,
)
    requires
        added(s0, s1, p, name, data, idx),
        0 <= p < s0.len(),
        s0.len() <= usize::MAX,
    ensures
        arena_view(s1) == add_s(arena_view(s0), p, name, data_view(data)),
{
    let g0 = arena_view(s0);
    let g1 = arena_view(s1);
    let gr = add_s(g0, p, name, data_view(data));
    assert(g0[p] == node_view(s0[p]));
    assert forall|j: int| 0 <= j < g1.len() implies g1[j] == gr[j] by {
        assert(g1[j] == node_view(s1[j]));
        if j == idx {
            assert(s1[idx].data == data);
            assert((g0.len() as usize) as int == idx);
        } else if j == p {
            assert(children_of(s1[p]) == children_of(s0[p]).push(idx as usize));
            assert(data_view(s1[p].data) == data_push(data_view(s0[p].data), idx as usize)) by {
                if s0[p].data is Group {
                    assert(s1[p].data is Group);
                    assert(s1[p].data->Group_0@ == s0[p].data->Group_0@.push(idx as usize));
                } else if s0[p].data is Array {
                    assert(s1[p].data is Array);
                    assert(s1[p].data->Array_0@ == s0[p].data->Array_0@.push(idx as usize));
                } else if s0[p].data is List {
                    assert(s1[p].data is List);
                    assert(s1[p].data->List_0@ == s0[p].data->List_0@.push(idx as usize));
                } else {
                    assert(children_of(s1[p]).len() == 0);
                }
            }
        } else {
            assert(s1[j] == s0[j]);
            assert(g0[j] == node_view(s0[j]));
        }
    }
    assert(g1 =~= gr);
}

} // verus!
