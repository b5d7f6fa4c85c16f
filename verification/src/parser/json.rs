use vstd::prelude::*;

verus! {

use vstd::string::StringExecFns;
use crate::model::json_parse_error::ErrorKind;
use crate::model::json_parse_error::ErrModel;
use crate::model::json_parse_error::KindModel;
use crate::model::json_parse_error::JsonParseError;
use crate::model::json_parse_error::is_error_for;
use crate::model::json_parse_options::JsonParseOptions;
use crate::model::json_value::JsonValue;
use crate::model::json_value::ValueModel;
use crate::parser::grammar::spec_parse_value;
use crate::parser::raw::RawError;
use crate::parser::raw::raise;
use crate::parser::value::eng_value;
use crate::text::chars_of;
use crate::text::clamp;
use crate::text::skip_ws;
use crate::text::ws_end;

/// What parsing a whole document yields: one value, then, in strict mode,
/// nothing but whitespace may remain; leftover content is a trailing-
/// characters error at the first non-whitespace position. In tolerant mode
/// the leftover content is ignored.
pub open spec fn spec_parse_json(s: Seq<char>, strict: bool) -> Result<ValueModel, ErrModel> {
    match spec_parse_value(s, 0) {
        Err(e) => Err(e),
        Ok(p) => {
            let j = clamp(ws_end(s, p.1), p.1, s.len() as int);
            if j < s.len() && strict {
                Err(
                    ErrModel {
                        kind: KindModel::Custom("Trailing characters after JSON value"@),
                        pos: j,
                        fallback: false,
                    },
                )
            } else {
                Ok(p.0)
            }
        },
    }
}

/// The strictness that an optional options argument selects: absent
/// options mean strict parsing.
pub open spec fn spec_strict_of(options: Option<&JsonParseOptions>) -> bool {
    match options {
        Some(o) => o.strict,
        None => true,
    }
}

/// Parses a complete JSON value from a string slice. The whole input must
/// be consumed up to trailing whitespace when the options are strict or
/// absent; in tolerant mode a parsed prefix is accepted and the rest is
/// ignored.
///
/// Parsing descends once per nesting level, so the nesting depth an input
/// may use is bounded by the call stack, not by the grammar.
pub fn parse_json(input: &str, options: Option<&JsonParseOptions>) -> (r: Result<
    JsonValue,
    JsonParseError,
>)
    ensures
        match r {
            Ok(v) => spec_parse_json(input@, spec_strict_of(options)) matches Ok(m) && v@ == m,
            Err(e) => spec_parse_json(input@, spec_strict_of(options)) matches Err(em)
                && is_error_for(e, input@, em),
        },
{
    let cs = chars_of(input);
    match eng_value(&cs, 0) {
        Err(e) => Err(raise(input, e)),
        Ok(p) => {
            let (v, jend) = p;
            let j = skip_ws(&cs, jend);
            let strict = match options {
                Some(o) => o.strict,
                None => true,
            };
            if j < cs.len() && strict {
                let msg = String::from_str("Trailing characters after JSON value");
                Err(
                    raise(
                        input,
                        RawError { kind: ErrorKind::Custom(msg), pos: j, fallback: false },
                    ),
                )
            } else {
                Ok(v)
            }
        },
    }
}

} // verus!
