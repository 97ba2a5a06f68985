//! Failure taxonomy shared by the projection and binding stages.

use vstd::prelude::*;

verus! {

/// A field of the target record could not be filled from the
/// intermediate document.  Each variant carries the name of the field
/// it reports.
#[derive(Debug)]
pub enum ConversionError {
    /// A required field had no matching document entry after rename
    /// resolution.
    MissingField(String),
    /// The matching entry did not fit the field's declared kind: the
    /// scalar was of another kind, out of range for the declared width,
    /// or an explicit null where a value was required.
    FieldMismatch(String),
}

/// Why a row could not be turned into a typed record: either the
/// projection met a value kind it does not support, or the document did
/// not satisfy the target record's shape.
#[derive(Debug)]
pub enum RowError {
    /// A column held a value kind outside the supported set; carries the
    /// diagnostic description of the offending kind.  Fatal to the whole
    /// row and deterministic, so never worth retrying.
    DataTypeError(String),
    /// The intermediate document did not bind to the target record.
    ConvertError(ConversionError),
}

impl ConversionError {
    /// The name of the field this error reports.
    pub fn field_name(&self) -> (r: &String)
        ensures
            r@ == self.spec_field_name(),
    {
        match self {
            ConversionError::MissingField(n) => n,
            ConversionError::FieldMismatch(n) => n,
        }
    }

    /// The name of the field this error reports.
    pub open spec fn spec_field_name(&self) -> Seq<char> {
        match self {
            ConversionError::MissingField(n) => n@,
            ConversionError::FieldMismatch(n) => n@,
        }
    }
}

} // verus!
