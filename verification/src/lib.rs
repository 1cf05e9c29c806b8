//! A typed configuration-tree library.
//!
//! A [`config::Config`] owns a tree of named settings: groups (ordered,
//! uniquely-named children), arrays (homogeneous scalar sequences), lists
//! (heterogeneous sequences) and typed scalar values.  Trees are built
//! programmatically through [`writer::OptionWriter`], read back through
//! [`reader::OptionReader`] with dotted-path addressing, parsed from the
//! structured text format and serialized back to it.

pub mod chars;
pub mod config;
pub mod ident;
pub mod laws;
pub mod model;
pub mod node;
pub mod parse;
pub mod path;
pub mod reader;
pub mod serialize;
pub mod writer;
