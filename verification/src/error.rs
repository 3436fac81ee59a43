use crate::endpoint::Endpoint;
use crate::schema::Op;
use vstd::prelude::*;

verus! {

/// Why a run failed. Every error is fatal to the whole batch.
#[derive(Debug, Clone, PartialEq)]
pub enum ValidateError {
    /// A row and the header differ in length, or a coerced field no longer
    /// holds the text the schema expects: a contract violation, not bad data.
    MalformedInput,
    /// A declared coercion could not parse a field's text; carries the field
    /// name, the operator that failed, and the raw text.
    FieldFormat { field: String, op: Op, raw: String },
    /// The selected endpoint has no declared schema.
    UnimplementedSchema { endpoint: Endpoint },
}

/// The mathematical shape of an error.
pub enum ErrVal {
    MalformedInput,
    FieldFormat { field: Seq<char>, op: Op, raw: Seq<char> },
    UnimplementedSchema { endpoint: Endpoint },
}

impl View for ValidateError {
    type V = ErrVal;

    open spec fn view(&self) -> ErrVal {
        match self {
            ValidateError::MalformedInput => ErrVal::MalformedInput,
            ValidateError::FieldFormat { field, op, raw } => ErrVal::FieldFormat {
                field: field@,
                op: *op,
                raw: raw@,
            },
            ValidateError::UnimplementedSchema { endpoint } => ErrVal::UnimplementedSchema {
                endpoint: *endpoint,
            },
        }
    }
}

} // verus!
