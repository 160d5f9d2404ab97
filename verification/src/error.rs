//! Errors and the last-error slot.
//!
//! Every fallible operation returns a structured [`AonError`] through its
//! result, so no ambient state is needed inside the library.  The slot type
//! below is for callers that still want a "most recent failure" channel: they
//! own the slot, and because the error travels in each return value first,
//! racing callers can at worst overwrite each other's copy of a message.

use crate::text::{chars_to_string, dec_digits, push_str_chars, push_usize_digits};
use vstd::prelude::*;

verus! {

/// Why a conversion failed.
#[derive(Debug, PartialEq, Eq)]
pub enum AonError {
    /// The document root is neither an object nor a collection of objects.
    NonComposite,
    /// The row collection is empty.
    EmptyInput,
    /// The designated root schema name is absent from the schema table.
    RootSchemaMissing,
    /// The notation text declares no schema at all.
    NoSchemas,
    /// A data row's top-level field count differs from its schema's.
    RowArity { expected: usize, got: usize },
}

impl AonError {
    /// Human-readable failure message.
    pub fn message(&self) -> (r: String)
        ensures
            r@ == spec_message(*self),
    {
        match self {
            AonError::NonComposite => {
                let mut out: Vec<char> = Vec::new();
                push_str_chars(&mut out, "JSON root must be array or object");
                chars_to_string(&out)
            },
            AonError::EmptyInput => {
                let mut out: Vec<char> = Vec::new();
                push_str_chars(&mut out, "Empty JSON");
                chars_to_string(&out)
            },
            AonError::RootSchemaMissing => {
                let mut out: Vec<char> = Vec::new();
                push_str_chars(&mut out, "Root schema not found");
                chars_to_string(&out)
            },
            AonError::NoSchemas => {
                let mut out: Vec<char> = Vec::new();
                push_str_chars(&mut out, "No schemas found");
                chars_to_string(&out)
            },
            AonError::RowArity { expected, got } => {
                let mut out: Vec<char> = Vec::new();
                push_str_chars(&mut out, "Data row size mismatch: expected ");
                push_usize_digits(&mut out, *expected);
                push_str_chars(&mut out, ", got ");
                push_usize_digits(&mut out, *got);
                chars_to_string(&out)
            },
        }
    }
}

/// The text `message` returns for each error.
pub open spec fn spec_message(e: AonError) -> Seq<char> {
    match e {
        AonError::NonComposite => "JSON root must be array or object"@,
        AonError::EmptyInput => "Empty JSON"@,
        AonError::RootSchemaMissing => "Root schema not found"@,
        AonError::NoSchemas => "No schemas found"@,
        AonError::RowArity { expected, got } => "Data row size mismatch: expected "@ + dec_digits(
            expected as nat,
        ) + ", got "@ + dec_digits(got as nat),
    }
}

/// A caller-owned slot for the most recent failure message.
pub struct ErrorSlot {
    pub msg: Option<String>,
}

/// Records a failure message in the slot.
pub fn set_error(slot: &mut ErrorSlot, msg: String)
    ensures
        final(slot).msg == Some(msg),
{
    slot.msg = Some(msg);
}

/// Empties the slot; done at the start of each externally driven conversion.
pub fn clear_error(slot: &mut ErrorSlot)
    ensures
        final(slot).msg is None,
{
    slot.msg = None;
}

} // verus!
