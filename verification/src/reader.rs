//! The read view: typed, non-mutating access to a node of a [`Config`].
//!
//! A reader is a copyable handle holding the index of its node, or nothing.
//! Every accessor takes the owning document explicitly and re-validates the
//! handle against it; a stale or unbound handle reports absence (`None`)
//! from every accessor, never stale data.

use vstd::prelude::*;

use crate::chars::str_to_chars;
use crate::config::{
    is_array_at, is_group_at, is_list_at, is_live, is_scalar_at, live, removed, scalar_kind_at,
    Config, Errors,
};
use crate::node::{scalar_kind, NodeData, OptionType, ScalarValue};
use crate::path::{resolve, resolve_from};
use crate::writer::{delete_blocked, OptionWriter};

verus! {

/// A read handle into a [`Config`] tree.
#[derive(Debug, Clone, Copy)]
pub struct OptionReader {
    pub element: Option<usize>,
}

impl OptionReader {
    /// A handle on the given slot.
    pub fn new(elem: Option<usize>) -> (rd: OptionReader)
        ensures
            rd.element == elem,
    {
        OptionReader { element: elem }
    }

    /// The node this handle points at, when it points at all.
    pub open spec fn target(self) -> int {
        self.element->0 as int
    }

    /// Whether this handle points at a live node of `cfg`.
    pub open spec fn bound(self, cfg: Config) -> bool {
        self.element is Some && live(cfg.nodes@, self.target())
    }

    /// Whether this handle points at a live scalar node of `cfg`.
    pub open spec fn on_scalar(self, cfg: Config) -> bool {
        self.bound(cfg) && cfg.nodes@[self.target()].data is Scalar
    }

    /// The scalar value under this handle, for contracts.
    pub open spec fn scalar_of(self, cfg: Config) -> ScalarValue {
        cfg.nodes@[self.target()].data->Scalar_0
    }

    /// Whether the node is a group; `None` exactly when the handle is
    /// unbound or stale.
    pub fn is_section(&self, cfg: &Config) -> (r: Option<bool>)
        ensures
            r is Some <==> self.bound(*cfg),
            r matches Some(b) ==> b == (cfg.nodes@[self.target()].data is Group),
    {
        match self.element {
            Some(i) => {
                if is_live(cfg, i) {
                    Some(is_group_at(cfg, i))
                } else {
                    None
                }
            },
            None => None,
        }
    }

    /// Whether the node is an array; `None` exactly when the handle is
    /// unbound or stale.
    pub fn is_array(&self, cfg: &Config) -> (r: Option<bool>)
        ensures
            r is Some <==> self.bound(*cfg),
            r matches Some(b) ==> b == (cfg.nodes@[self.target()].data is Array),
    {
        match self.element {
            Some(i) => {
                if is_live(cfg, i) {
                    Some(is_array_at(cfg, i))
                } else {
                    None
                }
            },
            None => None,
        }
    }

    /// Whether the node is a list; `None` exactly when the handle is
    /// unbound or stale.
    pub fn is_list(&self, cfg: &Config) -> (r: Option<bool>)
        ensures
            r is Some <==> self.bound(*cfg),
            r matches Some(b) ==> b == (cfg.nodes@[self.target()].data is List),
    {
        match self.element {
            Some(i) => {
                if is_live(cfg, i) {
                    Some(is_list_at(cfg, i))
                } else {
                    None
                }
            },
            None => None,
        }
    }

    /// The value type of the scalar under this handle; `None` when the
    /// handle is unbound or stale or the node is not a scalar.
    pub fn value_type(&self, cfg: &Config) -> (r: Option<OptionType>)
        ensures
            r is Some <==> self.on_scalar(*cfg),
            r matches Some(k) ==> k == scalar_kind(cfg.nodes@[self.target()]),
    {
        match self.element {
            Some(i) => {
                if is_live(cfg, i) && is_scalar_at(cfg, i) {
                    Some(scalar_kind_at(cfg, i))
                } else {
                    None
                }
            },
            None => None,
        }
    }

    /// The parent of this node; `None` at the root and for an unbound or
    /// stale handle.
    pub fn parent(&self, cfg: &Config) -> (r: Option<OptionReader>)
        ensures
            r is Some <==> self.bound(*cfg) && self.target() != 0,
            r matches Some(rd) ==> rd.element == cfg.nodes@[self.target()].parent && rd.bound(
                *cfg,
            ),
    {
        match self.element {
            Some(i) => {
                if is_live(cfg, i) && i != 0 {
                    match cfg.nodes[i].parent {
                        Some(p) => Some(OptionReader { element: Some(p) }),
                        None => {
                            proof {
                                assert(false);
                            }
                            None
                        },
                    }
                } else {
                    None
                }
            },
            None => None,
        }
    }

    /// Resolves a dotted path relative to this node; `None` when the handle
    /// is unbound or stale or the path does not resolve.
    pub fn value(&self, cfg: &Config, path: &str) -> (r: Option<OptionReader>)
        requires
            cfg.wf(),
        ensures
            !self.bound(*cfg) ==> r is None,
            self.bound(*cfg) ==> ({
                let res = resolve_from(cfg.nodes@, self.element->0, path@);
                &&& (r is Some <==> res is Some)
                &&& (r matches Some(rd) ==> rd.element == res && rd.bound(*cfg))
            }),
    {
        let i = match self.element {
            Some(i) => i,
            None => {
                return None;
            },
        };
        if !is_live(cfg, i) {
            return None;
        }
        let chars = str_to_chars(path);
        match resolve(cfg, i, &chars) {
            Some(t) => Some(OptionReader { element: Some(t) }),
            None => None,
        }
    }

    /// The value as a 32-bit integer: the stored value of an integer
    /// scalar, or the stored value of a 64-bit integer scalar truncated to
    /// 32 bits; `None` for every other node and for an unbound or stale
    /// handle.
    pub fn as_int32(&self, cfg: &Config) -> (r: Option<i32>)
        ensures
            r is Some <==> self.on_scalar(*cfg) && (self.scalar_of(*cfg) is I32 || self.scalar_of(
                *cfg,
            ) is I64),
            r matches Some(v) ==> v == (if self.scalar_of(*cfg) is I32 {
                self.scalar_of(*cfg)->I32_0
            } else {
                self.scalar_of(*cfg)->I64_0 as i32
            }),
    {
        let i = match self.element {
            Some(i) => i,
            None => {
                return None;
            },
        };
        if !is_live(cfg, i) {
            return None;
        }
        match &cfg.nodes[i].data {
            NodeData::Scalar(ScalarValue::I32(v)) => Some(*v),
            NodeData::Scalar(ScalarValue::I64(v)) => Some(
                #[verifier::truncate]
                (*v as i32),
            ),
            _ => None,
        }
    }

    /// [`Self::as_int32`], with `def` in place of `None`.
    pub fn as_int32_default(&self, cfg: &Config, def: i32) -> (r: i32)
        ensures
            r == (if self.on_scalar(*cfg) && self.scalar_of(*cfg) is I32 {
                self.scalar_of(*cfg)->I32_0
            } else if self.on_scalar(*cfg) && self.scalar_of(*cfg) is I64 {
                self.scalar_of(*cfg)->I64_0 as i32
            } else {
                def
            }),
    {
        match self.as_int32(cfg) {
            Some(x) => x,
            None => def,
        }
    }

    /// The value as a 64-bit integer: the stored value of a 64-bit integer
    /// scalar, or an integer scalar widened; `None` for every other node
    /// and for an unbound or stale handle.
    pub fn as_int64(&self, cfg: &Config) -> (r: Option<i64>)
        ensures
            r is Some <==> self.on_scalar(*cfg) && (self.scalar_of(*cfg) is I32 || self.scalar_of(
                *cfg,
            ) is I64),
            r matches Some(v) ==> v == (if self.scalar_of(*cfg) is I64 {
                self.scalar_of(*cfg)->I64_0
            } else {
                self.scalar_of(*cfg)->I32_0 as i64
            }),
    {
        let i = match self.element {
            Some(i) => i,
            None => {
                return None;
            },
        };
        if !is_live(cfg, i) {
            return None;
        }
        match &cfg.nodes[i].data {
            NodeData::Scalar(ScalarValue::I64(v)) => Some(*v),
            NodeData::Scalar(ScalarValue::I32(v)) => Some(*v as i64),
            _ => None,
        }
    }

    /// [`Self::as_int64`], with `def` in place of `None`.
    pub fn as_int64_default(&self, cfg: &Config, def: i64) -> (r: i64)
        ensures
            r == (if self.on_scalar(*cfg) && self.scalar_of(*cfg) is I64 {
                self.scalar_of(*cfg)->I64_0
            } else if self.on_scalar(*cfg) && self.scalar_of(*cfg) is I32 {
                self.scalar_of(*cfg)->I32_0 as i64
            } else {
                def
            }),
    {
        match self.as_int64(cfg) {
            Some(x) => x,
            None => def,
        }
    }

    /// The value of a boolean scalar; `None` for every other node and for
    /// an unbound or stale handle.
    pub fn as_bool(&self, cfg: &Config) -> (r: Option<bool>)
        ensures
            r is Some <==> self.on_scalar(*cfg) && self.scalar_of(*cfg) is Bool,
            r matches Some(v) ==> v == self.scalar_of(*cfg)->Bool_0,
    {
        let i = match self.element {
            Some(i) => i,
            None => {
                return None;
            },
        };
        if !is_live(cfg, i) {
            return None;
        }
        match &cfg.nodes[i].data {
            NodeData::Scalar(ScalarValue::Bool(v)) => Some(*v),
            _ => None,
        }
    }

    /// [`Self::as_bool`], with `def` in place of `None`.
    pub fn as_bool_default(&self, cfg: &Config, def: bool) -> (r: bool)
        ensures
            r == (if self.on_scalar(*cfg) && self.scalar_of(*cfg) is Bool {
                self.scalar_of(*cfg)->Bool_0
            } else {
                def
            }),
    {
        match self.as_bool(cfg) {
            Some(x) => x,
            None => def,
        }
    }

    /// The value of a string scalar; `None` for every other node and for an
    /// unbound or stale handle.
    pub fn as_string(&self, cfg: &Config) -> (r: Option<String>)
        ensures
            r is Some <==> self.on_scalar(*cfg) && self.scalar_of(*cfg) is Str,
            r matches Some(v) ==> v@ == self.scalar_of(*cfg)->Str_0@,
    {
        let i = match self.element {
            Some(i) => i,
            None => {
                return None;
            },
        };
        if !is_live(cfg, i) {
            return None;
        }
        match &cfg.nodes[i].data {
            NodeData::Scalar(ScalarValue::Str(v)) => Some(v.clone()),
            _ => None,
        }
    }

    /// [`Self::as_string`], with `def` in place of `None`.
    pub fn as_string_default(&self, cfg: &Config, def: &str) -> (r: String)
        ensures
            r@ == (if self.on_scalar(*cfg) && self.scalar_of(*cfg) is Str {
                self.scalar_of(*cfg)->Str_0@
            } else {
                def@
            }),
    {
        match self.as_string(cfg) {
            Some(x) => x,
            None => def.to_owned(),
        }
    }

    /// The literal text of a floating-point scalar, exactly as it was
    /// parsed or written; `None` for every other node and for an unbound or
    /// stale handle.  Numeric interpretation is the caller's.
    pub fn as_float_text(&self, cfg: &Config) -> (r: Option<String>)
        ensures
            r is Some <==> self.on_scalar(*cfg) && self.scalar_of(*cfg) is Flt,
            r matches Some(v) ==> v@ == self.scalar_of(*cfg)->Flt_0@,
    {
        let i = match self.element {
            Some(i) => i,
            None => {
                return None;
            },
        };
        if !is_live(cfg, i) {
            return None;
        }
        match &cfg.nodes[i].data {
            NodeData::Scalar(ScalarValue::Flt(v)) => Some(v.clone()),
            _ => None,
        }
    }

    /// Removes the node under this handle from its parent; the contract is
    /// that of [`OptionWriter::delete`].
    pub fn delete(&self, cfg: &mut Config) -> (r: Result<(), Errors>)
        requires
            old(cfg).wf(),
        ensures
            final(cfg).wf(),
            r is Err ==> *final(cfg) == *old(cfg),
            r == Result::<(), Errors>::Err(Errors::ElementNotExists) <==> !(self.element is Some
                && live(old(cfg).nodes@, self.target())),
            r == Result::<(), Errors>::Err(Errors::DeleteError) <==> self.element is Some && live(
                old(cfg).nodes@,
                self.target(),
            ) && delete_blocked(old(cfg).nodes@, self.target()),
            r is Ok <==> self.element is Some && live(old(cfg).nodes@, self.target())
                && !delete_blocked(old(cfg).nodes@, self.target()),
            r is Ok ==> (exists|pos: int|
                removed(old(cfg).nodes@, final(cfg).nodes@, self.target(), pos)) && !live(
                final(cfg).nodes@,
                self.target(),
            ),
    {
        let w = OptionWriter { element: self.element };
        w.delete(cfg)
    }
}

} // verus!
