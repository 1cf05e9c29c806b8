//! The mutation view: a handle that appends children to, and removes nodes
//! from, a [`Config`] tree.
//!
//! A writer is a copyable handle holding the index of its node, or nothing.
//! Every operation takes the owning document explicitly and re-validates the
//! handle against it, so a handle held across a deletion fails cleanly
//! instead of touching stale data.

use vstd::prelude::*;

use crate::config::{
    add_child, can_create, can_write, child_appended, is_group_at, is_live, live, removed, unlink,
    Config, Errors,
};
use crate::node::{children_of, NodeData, OptionType, ScalarValue};

verus! {

/// A mutation handle into a [`Config`] tree.
#[derive(Debug, Clone, Copy)]
pub struct OptionWriter {
    pub element: Option<usize>,
}

/// Deletion is refused for the root (it has no parent) and for a group that
/// carries no name (a group standing inside a list), which has no name to be
/// looked up by.
pub open spec fn delete_blocked(s: Seq<crate::node::Node>, i: int) -> bool {
    i == 0 || (s[i].data is Group && s[i].name is None)
}

impl OptionWriter {
    /// A handle on the given slot.
    pub fn new(elem: Option<usize>) -> (w: OptionWriter)
        ensures
            w.element == elem,
    {
        OptionWriter { element: elem }
    }

    /// The node this handle points at, when it points at all.
    pub open spec fn target(self) -> int {
        self.element->0 as int
    }

    /// Whether this handle points at a live node of `cfg`.
    pub open spec fn bound(self, cfg: Config) -> bool {
        self.element is Some && live(cfg.nodes@, self.target())
    }

    /// Appends a new empty group named `name` under this node.  Returns a
    /// handle on the new group, or `None` (leaving the document untouched)
    /// when the handle is unbound or stale, the node cannot take a container
    /// child, the name is invalid, or a sibling already bears it.
    pub fn create_section(&self, cfg: &mut Config, name: &str) -> (r: Option<OptionWriter>)
        requires
            old(cfg).wf(),
        ensures
            final(cfg).wf(),
            r is None ==> *final(cfg) == *old(cfg),
            r is Some <==> self.element is Some && can_create(
                old(cfg).nodes@,
                self.target(),
                name@,
            ),
            r matches Some(w) ==> ({
                let idx = old(cfg).nodes@.len() as int;
                &&& w.element is Some
                &&& w.element->0 == idx
                &&& child_appended(old(cfg).nodes@, final(cfg).nodes@, self.target(), name@, idx)
                &&& final(cfg).nodes@[idx].data is Group
                &&& children_of(final(cfg).nodes@[idx]).len() == 0
            }),
    {
        let i = match self.element {
            Some(i) => i,
            None => {
                return None;
            },
        };
        let idx = match add_child(cfg, i, name, NodeData::Group(Vec::new())) {
            Some(idx) => idx,
            None => {
                return None;
            },
        };
        Some(OptionWriter { element: Some(idx) })
    }

    /// Appends a new empty array named `name` under this node; the contract
    /// is that of [`Self::create_section`].
    pub fn create_array(&self, cfg: &mut Config, name: &str) -> (r: Option<OptionWriter>)
        requires
            old(cfg).wf(),
        ensures
            final(cfg).wf(),
            r is None ==> *final(cfg) == *old(cfg),
            r is Some <==> self.element is Some && can_create(
                old(cfg).nodes@,
                self.target(),
                name@,
            ),
            r matches Some(w) ==> ({
                let idx = old(cfg).nodes@.len() as int;
                &&& w.element is Some
                &&& w.element->0 == idx
                &&& child_appended(old(cfg).nodes@, final(cfg).nodes@, self.target(), name@, idx)
                &&& final(cfg).nodes@[idx].data is Array
                &&& children_of(final(cfg).nodes@[idx]).len() == 0
            }),
    {
        let i = match self.element {
            Some(i) => i,
            None => {
                return None;
            },
        };
        let idx = match add_child(cfg, i, name, NodeData::Array(Vec::new())) {
            Some(idx) => idx,
            None => {
                return None;
            },
        };
        Some(OptionWriter { element: Some(idx) })
    }

    /// Appends a new empty list named `name` under this node; the contract
    /// is that of [`Self::create_section`].
    pub fn create_list(&self, cfg: &mut Config, name: &str) -> (r: Option<OptionWriter>)
        requires
            old(cfg).wf(),
        ensures
            final(cfg).wf(),
            r is None ==> *final(cfg) == *old(cfg),
            r is Some <==> self.element is Some && can_create(
                old(cfg).nodes@,
                self.target(),
                name@,
            ),
            r matches Some(w) ==> ({
                let idx = old(cfg).nodes@.len() as int;
                &&& w.element is Some
                &&& w.element->0 == idx
                &&& child_appended(old(cfg).nodes@, final(cfg).nodes@, self.target(), name@, idx)
                &&& final(cfg).nodes@[idx].data is List
                &&& children_of(final(cfg).nodes@[idx]).len() == 0
            }),
    {
        let i = match self.element {
            Some(i) => i,
            None => {
                return None;
            },
        };
        let idx = match add_child(cfg, i, name, NodeData::List(Vec::new())) {
            Some(idx) => idx,
            None => {
                return None;
            },
        };
        Some(OptionWriter { element: Some(idx) })
    }

    /// Appends a scalar child carrying `value` under this node and hands the
    /// same handle back, so writes can be chained.  Returns `None`, leaving
    /// the document untouched, exactly when `can_write` forbids the write.
    fn write_scalar(&self, cfg: &mut Config, name: &str, value: ScalarValue) -> (r: Option<
        OptionWriter,
    >)
        requires
            old(cfg).wf(),
        ensures
            final(cfg).wf(),
            r is None ==> *final(cfg) == *old(cfg),
            r is Some <==> self.element is Some && can_write(
                old(cfg).nodes@,
                self.target(),
                name@,
                crate::node::kind_of(value),
            ),
            r matches Some(w) ==> w == *self && ({
                let idx = old(cfg).nodes@.len() as int;
                &&& child_appended(old(cfg).nodes@, final(cfg).nodes@, self.target(), name@, idx)
                &&& final(cfg).nodes@[idx].data == NodeData::Scalar(value)
            }),
    {
        let i = match self.element {
            Some(i) => i,
            None => {
                return None;
            },
        };
        match add_child(cfg, i, name, NodeData::Scalar(value)) {
            Some(_) => Some(*self),
            None => None,
        }
    }

    /// Appends a 32-bit integer scalar; see [`Self::write_scalar`].
    pub fn write_int32(&self, cfg: &mut Config, name: &str, value: i32) -> (r: Option<
        OptionWriter,
    >)
        requires
            old(cfg).wf(),
        ensures
            final(cfg).wf(),
            r is None ==> *final(cfg) == *old(cfg),
            r is Some <==> self.element is Some && can_write(
                old(cfg).nodes@,
                self.target(),
                name@,
                OptionType::IntegerType,
            ),
            r matches Some(w) ==> w == *self && ({
                let idx = old(cfg).nodes@.len() as int;
                &&& child_appended(old(cfg).nodes@, final(cfg).nodes@, self.target(), name@, idx)
                &&& final(cfg).nodes@[idx].data == NodeData::Scalar(ScalarValue::I32(value))
            }),
    {
        self.write_scalar(cfg, name, ScalarValue::I32(value))
    }

    /// Appends a 64-bit integer scalar; see [`Self::write_scalar`].
    pub fn write_int64(&self, cfg: &mut Config, name: &str, value: i64) -> (r: Option<
        OptionWriter,
    >)
        requires
            old(cfg).wf(),
        ensures
            final(cfg).wf(),
            r is None ==> *final(cfg) == *old(cfg),
            r is Some <==> self.element is Some && can_write(
                old(cfg).nodes@,
                self.target(),
                name@,
                OptionType::Int64Type,
            ),
            r matches Some(w) ==> w == *self && ({
                let idx = old(cfg).nodes@.len() as int;
                &&& child_appended(old(cfg).nodes@, final(cfg).nodes@, self.target(), name@, idx)
                &&& final(cfg).nodes@[idx].data == NodeData::Scalar(ScalarValue::I64(value))
            }),
    {
        self.write_scalar(cfg, name, ScalarValue::I64(value))
    }

    /// Appends a boolean scalar; see [`Self::write_scalar`].
    pub fn write_bool(&self, cfg: &mut Config, name: &str, value: bool) -> (r: Option<
        OptionWriter,
    >)
        requires
            old(cfg).wf(),
        ensures
            final(cfg).wf(),
            r is None ==> *final(cfg) == *old(cfg),
            r is Some <==> self.element is Some && can_write(
                old(cfg).nodes@,
                self.target(),
                name@,
                OptionType::BooleanType,
            ),
            r matches Some(w) ==> w == *self && ({
                let idx = old(cfg).nodes@.len() as int;
                &&& child_appended(old(cfg).nodes@, final(cfg).nodes@, self.target(), name@, idx)
                &&& final(cfg).nodes@[idx].data == NodeData::Scalar(ScalarValue::Bool(value))
            }),
    {
        self.write_scalar(cfg, name, ScalarValue::Bool(value))
    }

    /// Appends a string scalar; see [`Self::write_scalar`].
    pub fn write_string(&self, cfg: &mut Config, name: &str, value: &str) -> (r: Option<
        OptionWriter,
    >)
        requires
            old(cfg).wf(),
        ensures
            final(cfg).wf(),
            r is None ==> *final(cfg) == *old(cfg),
            r is Some <==> self.element is Some && can_write(
                old(cfg).nodes@,
                self.target(),
                name@,
                OptionType::StringType,
            ),
            r matches Some(w) ==> w == *self && ({
                let idx = old(cfg).nodes@.len() as int;
                &&& child_appended(old(cfg).nodes@, final(cfg).nodes@, self.target(), name@, idx)
                &&& final(cfg).nodes@[idx].data is Scalar
                &&& final(cfg).nodes@[idx].data->Scalar_0 is Str
                &&& final(cfg).nodes@[idx].data->Scalar_0->Str_0@ == value@
            }),
    {
        self.write_scalar(cfg, name, ScalarValue::Str(value.to_owned()))
    }

    /// Appends a floating-point scalar carried as its decimal literal text;
    /// see [`Self::write_scalar`].  The text must be a well-shaped literal
    /// (digits with a point or an exponent), or the write is refused.
    pub fn write_float(&self, cfg: &mut Config, name: &str, literal: &str) -> (r: Option<
        OptionWriter,
    >)
        requires
            old(cfg).wf(),
        ensures
            final(cfg).wf(),
            r is None ==> *final(cfg) == *old(cfg),
            r is Some <==> self.element is Some && crate::ident::valid_float_literal(literal@)
                && can_write(
                old(cfg).nodes@,
                self.target(),
                name@,
                OptionType::FloatType,
            ),
            r matches Some(w) ==> w == *self && ({
                let idx = old(cfg).nodes@.len() as int;
                &&& child_appended(old(cfg).nodes@, final(cfg).nodes@, self.target(), name@, idx)
                &&& final(cfg).nodes@[idx].data is Scalar
                &&& final(cfg).nodes@[idx].data->Scalar_0 is Flt
                &&& final(cfg).nodes@[idx].data->Scalar_0->Flt_0@ == literal@
            }),
    {
        let lit_chars = crate::chars::str_to_chars(literal);
        if !crate::ident::check_float_literal(&lit_chars) {
            return None;
        }
        self.write_scalar(cfg, name, ScalarValue::Flt(literal.to_owned()))
    }

    /// Removes this node from its parent.  Fails with `ElementNotExists`
    /// when the handle is unbound or stale, and with `DeleteError` when the
    /// node is the root or a group without a name; otherwise the node is
    /// unlinked and no handle on it (or anything below it) is live again.
    pub fn delete(&self, cfg: &mut Config) -> (r: Result<(), Errors>)
        requires
            old(cfg).wf(),
        ensures
            final(cfg).wf(),
            r is Err ==> *final(cfg) == *old(cfg),
            r == Result::<(), Errors>::Err(Errors::ElementNotExists) <==> !self.bound(*old(cfg)),
            r == Result::<(), Errors>::Err(Errors::DeleteError) <==> self.bound(*old(cfg))
                && delete_blocked(old(cfg).nodes@, self.target()),
            r is Ok <==> self.bound(*old(cfg)) && !delete_blocked(old(cfg).nodes@, self.target()),
            r is Ok ==> (exists|pos: int|
                removed(old(cfg).nodes@, final(cfg).nodes@, self.target(), pos)) && !live(
                final(cfg).nodes@,
                self.target(),
            ),
    {
        let i = match self.element {
            Some(i) => i,
            None => {
                return Err(Errors::ElementNotExists);
            },
        };
        if !is_live(cfg, i) {
            return Err(Errors::ElementNotExists);
        }
        if i == 0 {
            return Err(Errors::DeleteError);
        }
        if is_group_at(cfg, i) {
            let unnamed = match &cfg.nodes[i].name {
                Some(_) => false,
                None => true,
            };
            if unnamed {
                return Err(Errors::DeleteError);
            }
        }
        let pos = unlink(cfg, i);
        proof {
            assert(removed(old(cfg).nodes@, cfg.nodes@, i as int, pos as int));
        }
        Ok(())
    }
}

} // verus!
