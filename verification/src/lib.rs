//! In-memory representation of a GraphQL literal/runtime value, together
//! with the protocols that act on it: structural equality (with a
//! documented filename-only exception for uploads), exact GraphQL
//! source-text rendering, and a lossy two-way mapping to a generic JSON
//! tree.

pub mod fields;
pub mod json;
pub mod order;
pub mod text;
pub mod value;

pub use json::JsonValue;
pub use value::{Number, UploadValue, Value};
