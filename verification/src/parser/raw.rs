use vstd::prelude::*;

verus! {

use vstd::string::StringExecFns;
use crate::model::json_parse_error::ErrorKind;
use crate::model::json_parse_error::JsonParseError;
use crate::model::json_parse_error::ErrModel;
use crate::model::json_parse_error::KindModel;
use crate::model::json_parse_error::kind_view;
use crate::model::json_parse_error::is_error_for;
use crate::model::json_parse_error::unmatched_text;

/// A parse failure as the grammar engine produces it: a kind, a character
/// offset, and the dispatch class (`fallback` marks a "not this type"
/// signal that the value dispatcher may fall past).
pub(crate) struct RawError {
    pub kind: ErrorKind,
    pub pos: usize,
    pub fallback: bool,
}

/// The abstract content of a `RawError`.
pub(crate) open spec fn raw_view(e: RawError) -> ErrModel {
    ErrModel { kind: kind_view(e.kind), pos: e.pos as int, fallback: e.fallback }
}

/// Turns an engine failure into the public error value, deriving line,
/// column and snippet from the given input.
pub(crate) fn raise(input: &str, e: RawError) -> (r: JsonParseError)
    ensures
        is_error_for(r, input@, raw_view(e)),
{
    JsonParseError::new(input, e.pos, e.kind)
}

/// The kind of an unmatched-literal fallback error.
pub(crate) fn unmatched_kind(expected: &str) -> (k: ErrorKind)
    ensures
        kind_view(k) == KindModel::Custom(unmatched_text(expected@)),
{
    let mut m = String::from_str("Expected '");
    m.append(expected);
    m.append("' literal");
    ErrorKind::Custom(m)
}

} // verus!
