//! The tree data model: typed scalar values and tree nodes.
//!
//! A node is a scalar, a group (ordered, uniquely-named children), an array
//! (ordered scalars that all share one value type) or a list (ordered,
//! heterogeneous children).  Nodes live in the arena of a
//! [`crate::config::Config`]; a node refers to its children and to its parent
//! by arena index, and a child's index is always greater than its parent's.

use vstd::prelude::*;

verus! {

/// The type tag of a scalar value.
#[derive(Debug, Clone, Copy, PartialEq, Eq, Structural)]
pub enum OptionType {
    IntegerType,
    Int64Type,
    FloatType,
    StringType,
    BooleanType,
}

/// A typed scalar payload.
///
/// A floating-point value is carried as the text of its decimal literal,
/// exactly as it was written or will be written in the configuration text;
/// numeric interpretation of that literal is left to the caller.
#[derive(Debug)]
pub enum ScalarValue {
    I32(i32),
    I64(i64),
    Flt(String),
    Bool(bool),
    Str(String),
}

/// The payload of a tree node: a scalar, or a container holding the arena
/// indices of its children in order.
#[derive(Debug)]
pub enum NodeData {
    Scalar(ScalarValue),
    Group(Vec<usize>),
    Array(Vec<usize>),
    List(Vec<usize>),
}

/// One arena slot.  A deleted node keeps its slot but is marked not alive;
/// arena indices are never reused, so a stale handle can always be detected.
#[derive(Debug)]
pub struct Node {
    pub alive: bool,
    pub parent: Option<usize>,
    pub name: Option<String>,
    pub data: NodeData,
}

pub open spec fn kind_of(v: ScalarValue) -> OptionType {
    match v {
        ScalarValue::I32(_) => OptionType::IntegerType,
        ScalarValue::I64(_) => OptionType::Int64Type,
        ScalarValue::Flt(_) => OptionType::FloatType,
        ScalarValue::Bool(_) => OptionType::BooleanType,
        ScalarValue::Str(_) => OptionType::StringType,
    }
}

/// The child indices a payload carries; a scalar has none.
pub open spec fn data_children(d: NodeData) -> Seq<usize> {
    match d {
        NodeData::Scalar(_) => Seq::empty(),
        NodeData::Group(v) => v@,
        NodeData::Array(v) => v@,
        NodeData::List(v) => v@,
    }
}

/// The child indices of a node, in order.
pub open spec fn children_of(n: Node) -> Seq<usize> {
    data_children(n.data)
}

pub open spec fn is_group_node(n: Node) -> bool {
    n.data is Group
}

pub open spec fn is_array_node(n: Node) -> bool {
    n.data is Array
}

pub open spec fn is_list_node(n: Node) -> bool {
    n.data is List
}

pub open spec fn is_scalar_node(n: Node) -> bool {
    n.data is Scalar
}

/// The value type of a scalar node.
pub open spec fn scalar_kind(n: Node) -> OptionType {
    kind_of(n.data->Scalar_0)
}

/// Computes the type tag of a scalar value.
pub fn value_kind(v: &ScalarValue) -> (k: OptionType)
    ensures
        k == kind_of(*v),
{
    match v {
        ScalarValue::I32(_) => OptionType::IntegerType,
        ScalarValue::I64(_) => OptionType::Int64Type,
        ScalarValue::Flt(_) => OptionType::FloatType,
        ScalarValue::Bool(_) => OptionType::BooleanType,
        ScalarValue::Str(_) => OptionType::StringType,
    }
}

} // verus!
