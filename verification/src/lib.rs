//! Field masks over values that a schema describes: select fields by
//! dotted paths, then project, update or merge.
//!
//! A [`Schema`] registers records, unions and enumerations. A [`Value`] is
//! a value of one of its types. A [`Mask`] of a type is built from paths
//! such as `"child.b"`, and then
//!
//! * projects a value: what it selects is kept, the rest is reset;
//! * updates a target from a source: what it selects is copied;
//!
//! while a merge combines two values without a mask. Every operation has a
//! contract over the mathematical models of masks and values, and the
//! module `laws` proves how the operations relate.

pub mod declare;
pub mod error;
pub mod laws;


pub mod mask;
pub mod merge;
pub mod names;
pub mod node;
pub mod options;
pub mod path;
pub mod project;
pub mod schema;
pub mod typing;
pub mod update;
pub mod validate;
pub mod value;

pub use error::{DeserializeFieldMaskError, DeserializeMaskError};
pub use mask::{Mask, MaskInput};
pub use node::MaskNode;
pub use options::{ProjectOptions, UpdateOptions};
pub use schema::{MessageField, MessageInfo, MessageType, ScalarKind, Schema, TypeRef};
pub use value::Value;
