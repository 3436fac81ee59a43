//! A schema-driven field-coercion and validation engine: flat, string-valued
//! rows become typed events under an endpoint's declared schema, which names
//! the fields to drop and the type each remaining field is coerced to, and
//! every error is attributed to the field and operator that caused it.

mod endpoint;
mod error;
mod event;
mod float;
mod laws;
mod parse;
mod pipeline;
mod schema;
mod value;

pub use endpoint::Endpoint;
pub use endpoint::endpoint_of_token;
pub use endpoint::endpoint_token;
pub use endpoint::reference_data_account_schema;
pub use endpoint::reference_data_account_steps;
pub use error::ErrVal;
pub use error::ValidateError;
pub use event::Event;
pub use event::names_of;
pub use event::row_map;
pub use float::check_float_literal;
pub use float::float_literal_ok;
pub use laws::lemma_batch_fail_fast;
pub use laws::lemma_coerce_error_names_field;
pub use laws::lemma_coerce_failure;
pub use laws::lemma_coerce_success;
pub use laws::lemma_disjoint_ops_commute;
pub use laws::lemma_drop_absent;
pub use laws::lemma_drop_idempotent;
pub use laws::lemma_drop_removes_exactly;
pub use laws::lemma_reference_data_account_shape;
pub use laws::lemma_schema_passes_through;
pub use laws::lemma_to_array_parses;
pub use laws::lemma_to_int_parses;
pub use laws::lemma_unimplemented_endpoint;
pub use laws::then_keys;
pub use parse::bool_literal_ok;
pub use parse::bool_literal_value;
pub use parse::int_literal_ok;
pub use parse::int_literal_value;
pub use parse::parse_bool_literal;
pub use parse::parse_int_literal;
pub use pipeline::batch_result;
pub use pipeline::events_view;
pub use pipeline::row_result;
pub use pipeline::rows_result;
pub use pipeline::rows_view;
pub use pipeline::validate_batch;
pub use schema::apply_keys;
pub use schema::apply_one;
pub use schema::apply_steps;
pub use schema::coerce_ok;
pub use schema::coerce_val;
pub use schema::Op;
pub use schema::Schema;
pub use schema::Step;
pub use schema::StepVal;
pub use value::FieldValue;
pub use value::json_array_parse;
pub use value::Val;

use vstd::prelude::*;

verus! {

/// Verbosity level chosen for a run.
#[derive(Clone, Copy, PartialEq, Eq, Structural, Debug)]
pub enum LogLevel {
    Info,
    Debug,
}

/// The arguments that steer a run, reduced to what the engine reads.
pub struct Args {
    /// Whether to print debug information.
    pub debug: bool,
}

impl Args {
    /// The verbosity that the `debug` flag selects.
    pub fn log_level(&self) -> (r: LogLevel)
        ensures
            r == (if self.debug {
                LogLevel::Debug
            } else {
                LogLevel::Info
            }),
    {
        if self.debug {
            LogLevel::Debug
        } else {
            LogLevel::Info
        }
    }
}

} // verus!
