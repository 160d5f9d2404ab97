//! AON: a compact, schema-deduplicated textual notation for JSON-like
//! documents, with a verified codec.
//!
//! A document (a tagged-union [`value::Value`]) is converted to AON text by
//! discovering every distinct nested record shape reachable from the root,
//! emitting a header that lists each shape once, and then encoding each data
//! row positionally against its shape.  The reverse direction parses the
//! header back into a schema table and reconstructs the document row by row.

pub mod builder;
pub mod decode;
pub mod encode;
pub mod error;
pub mod laws;
pub mod model;
pub mod schema;
pub mod text;
pub mod value;
