use vstd::prelude::*;

verus! {

/// Configuration for the JSON parser: strict mode rejects trailing content
/// after the top-level value, and `allow_trailing_commas` is the tolerance
/// switch for trailing commas.
#[derive(Debug, Clone, Copy, PartialEq, Eq, Structural)]
pub struct JsonParseOptions {
    /// If true, the parser enforces strict parsing rules: content left over
    /// after the top-level value is rejected.
    pub strict: bool,

    /// If true, the parser allows trailing commas.
    pub allow_trailing_commas: bool,
}

impl JsonParseOptions {
    /// Builds an options record with the given switches.
    pub fn new(strict: bool, allow_trailing_commas: bool) -> (r: Self)
        ensures
            r.strict == strict,
            r.allow_trailing_commas == allow_trailing_commas,
    {
        JsonParseOptions { strict, allow_trailing_commas }
    }

    /// The strict preset: trailing content and trailing commas are rejected.
    pub fn strict() -> (r: Self)
        ensures
            r.strict,
            !r.allow_trailing_commas,
    {
        JsonParseOptions { strict: true, allow_trailing_commas: false }
    }

    /// The tolerant preset: trailing content is ignored and trailing commas
    /// are allowed.
    pub fn tolerant() -> (r: Self)
        ensures
            !r.strict,
            r.allow_trailing_commas,
    {
        JsonParseOptions { strict: false, allow_trailing_commas: true }
    }
}

impl Default for JsonParseOptions {
    /// The default options equal the strict preset.
    fn default() -> (r: Self)
        ensures
            r.strict,
            !r.allow_trailing_commas,
    {
        JsonParseOptions { strict: true, allow_trailing_commas: false }
    }
}

} // verus!
