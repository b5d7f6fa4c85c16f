use vstd::prelude::*;

verus! {

use vstd::string::StrSliceExecFns;
use crate::model::json_parse_error::ErrorKind;
use crate::model::json_parse_error::ErrModel;
use crate::model::json_parse_error::KindModel;
use crate::model::json_parse_error::JsonParseError;
use crate::model::json_parse_error::is_error_for;
use crate::model::json_value::JsonValue;
use crate::model::json_value::ValueModel;
use crate::parser::grammar::spec_parse_value;
use crate::parser::raw::RawError;
use crate::parser::raw::raise;
use crate::parser::string::eng_string;
use crate::parser::string::spec_parse_string;
use crate::parser::value::eng_value;
use crate::text::chars_of;
use crate::text::clamp;
use crate::text::skip_ws;
use crate::text::ws_end;

/// What parsing a single `"key": value` pair yields: a string key (any
/// string-parse failure becomes an expected-string-key error at the inner
/// offset), a colon, and a value, together with the offset just past the
/// value.
pub open spec fn spec_parse_key_value(s: Seq<char>) -> Result<
    ((Seq<char>, ValueModel), int),
    ErrModel,
> {
    match spec_parse_string(s, 0) {
        Err(e) => Err(
            ErrModel { kind: KindModel::ExpectedStringKey, pos: e.pos, fallback: false },
        ),
        Ok(kp) => match kp.0 {
            ValueModel::String(key) => {
                let m = clamp(ws_end(s, kp.1), kp.1, s.len() as int);
                if !(m < s.len() && s[m] == ':') {
                    Err(ErrModel { kind: KindModel::ExpectedColon, pos: m, fallback: false })
                } else {
                    let p = clamp(ws_end(s, m + 1), m + 1, s.len() as int);
                    match spec_parse_value(s, p) {
                        Err(e) => Err(e),
                        Ok(vp) => Ok(((key, vp.0), vp.1)),
                    }
                }
            },
            _ => Err(ErrModel { kind: KindModel::InvalidObjectKey, pos: 0, fallback: false }),
        },
    }
}

/// Parses a single `"key": value` pair at the front of the input and
/// returns the key, the value, and the remaining input.
pub fn parse_key_value_pair<'a>(input: &'a str) -> (r: Result<
    ((String, JsonValue), &'a str),
    JsonParseError,
>)
    ensures
        match r {
            Ok(p) => spec_parse_key_value(input@) matches Ok(q) && (p.0).0@ == q.0.0 && (
            p.0).1@ == q.0.1 && p.1@ == input@.subrange(q.1, input@.len() as int),
            Err(e) => spec_parse_key_value(input@) matches Err(em) && is_error_for(
                e,
                input@,
                em,
            ),
        },
{
    let cs = chars_of(input);
    let kp = match eng_string(&cs, 0) {
        Err(e) => {
            return Err(
                raise(
                    input,
                    RawError { kind: ErrorKind::ExpectedStringKey, pos: e.pos, fallback: false },
                ),
            );
        },
        Ok(kp) => kp,
    };
    let (kv, j) = kp;
    let key: String = match kv {
        JsonValue::String(ks) => ks,
        _ => {
            return Err(
                raise(
                    input,
                    RawError { kind: ErrorKind::InvalidObjectKey, pos: 0, fallback: false },
                ),
            );
        },
    };
    let m = skip_ws(&cs, j);
    if !(m < cs.len() && cs[m] == ':') {
        return Err(
            raise(input, RawError { kind: ErrorKind::ExpectedColon, pos: m, fallback: false }),
        );
    }
    let p = skip_ws(&cs, m + 1);
    match eng_value(&cs, p) {
        Err(e) => Err(raise(input, e)),
        Ok(vp) => {
            let (v, jend) = vp;
            let n = input.unicode_len();
            Ok(((key, v), input.substring_char(jend, n)))
        },
    }
}

} // verus!
