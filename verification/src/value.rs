use vstd::prelude::*;

verus! {

/// `serde_json::Value` carries the elements of a parsed array literal through
/// the engine; the engine never looks inside one.
#[verifier::external_type_specification]
#[verifier::external_body]
pub struct ExJsonValue(serde_json::Value);

/// What parsing a text as a JSON array literal yields: `Some` with the element
/// sequence when the text is a well-formed array literal, `None` otherwise.
/// The outcome depends on the text alone.
pub uninterp spec fn json_array_parse(s: Seq<char>) -> Option<Seq<serde_json::Value>>;

/// Relies on `serde_json::from_str::<Vec<serde_json::Value>>`: parses a JSON
/// array literal into its elements, failing exactly on malformed text, with a
/// result that depends on the text alone.
#[verifier::external_body]
pub(crate) fn parse_json_array(s: &str) -> (r: Option<Vec<serde_json::Value>>)
    ensures
        (r is Some) == (json_array_parse(s@) is Some),
        r matches Some(v) ==> v@ == json_array_parse(s@)->0,
{
    serde_json::from_str::<Vec<serde_json::Value>>(s).ok()
}

/// One field's value: a tagged union of the shapes a field can take.
///
/// A `Float` holds the accepted literal text of the number rather than a
/// machine float; the engine only ever checks such a literal, never computes
/// with it.
#[derive(Debug, Clone, PartialEq)]
pub enum FieldValue {
    Null,
    Str(String),
    Int(i64),
    Float(String),
    Bool(bool),
    Array(Vec<serde_json::Value>),
}

/// The mathematical shape of a field's value.
pub enum Val {
    Null,
    Str(Seq<char>),
    Int(int),
    Float(Seq<char>),
    Bool(bool),
    Arr(Seq<serde_json::Value>),
}

impl View for FieldValue {
    type V = Val;

    open spec fn view(&self) -> Val {
        match self {
            FieldValue::Null => Val::Null,
            FieldValue::Str(s) => Val::Str(s@),
            FieldValue::Int(i) => Val::Int(*i as int),
            FieldValue::Float(s) => Val::Float(s@),
            FieldValue::Bool(b) => Val::Bool(*b),
            FieldValue::Array(v) => Val::Arr(v@),
        }
    }
}

} // verus!
