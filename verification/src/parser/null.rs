use vstd::prelude::*;

verus! {

use vstd::string::StrSliceExecFns;
use crate::model::json_parse_error::ErrorKind;
use crate::model::json_parse_error::ErrModel;
use crate::model::json_parse_error::KindModel;
use crate::model::json_parse_error::JsonParseError;
use crate::model::json_parse_error::is_error_for;
use crate::model::json_parse_error::unmatched_text;
use crate::model::json_value::JsonValue;
use crate::model::json_value::ValueModel;
use crate::parser::raw::RawError;
use crate::parser::raw::raw_view;
use crate::parser::raw::raise;
use crate::parser::raw::unmatched_kind;
use crate::text::chars_of;
use crate::text::ch_is_alnum;
use crate::text::is_alnum;
use crate::text::skip_ws;
use crate::text::ws_end;

/// What parsing the `null` literal at offset `i` of `s` yields: the value
/// and the offset just past it, or the failure. Leading whitespace is
/// skipped; a letter or digit directly after the literal is a malformed
/// token, a hard error just past the literal; anything that does not begin
/// with `null` is an unmatched fallback signal at the starting offset.
pub open spec fn spec_parse_null(s: Seq<char>, i: int) -> Result<(ValueModel, int), ErrModel> {
    let t = ws_end(s, i);
    if t + 4 <= s.len() && s[t] == 'n' && s[t + 1] == 'u' && s[t + 2] == 'l' && s[t + 3]
        == 'l' {
        if t + 4 < s.len() && is_alnum(s[t + 4]) {
            Err(
                ErrModel {
                    kind: KindModel::UnexpectedChar(s[t + 4]),
                    pos: t + 4,
                    fallback: false,
                },
            )
        } else {
            Ok((ValueModel::Null, t + 4))
        }
    } else {
        Err(
            ErrModel {
                kind: KindModel::Custom(unmatched_text("null"@)),
                pos: i,
                fallback: true,
            },
        )
    }
}

pub(crate) fn eng_null(s: &Vec<char>, i: usize) -> (r: Result<(JsonValue, usize), RawError>)
    requires
        i <= s@.len(),
    ensures
        match r {
            Ok(p) => spec_parse_null(s@, i as int) == Ok::<(ValueModel, int), ErrModel>(
                (p.0@, p.1 as int),
            ) && i < p.1 <= s@.len(),
            Err(e) => spec_parse_null(s@, i as int) == Err::<(ValueModel, int), ErrModel>(
                raw_view(e),
            ),
        },
{
    let t = skip_ws(s, i);
    if s.len() - t >= 4 && s[t] == 'n' && s[t + 1] == 'u' && s[t + 2] == 'l' && s[t + 3]
        == 'l' {
        if s.len() - t > 4 && ch_is_alnum(s[t + 4]) {
            Err(RawError { kind: ErrorKind::UnexpectedChar(s[t + 4]), pos: t + 4, fallback: false })
        } else {
            Ok((JsonValue::Null, t + 4))
        }
    } else {
        Err(RawError { kind: unmatched_kind("null"), pos: i, fallback: true })
    }
}

/// Parses the JSON `null` literal at the front of the input, after any
/// leading whitespace, and returns the value together with the remaining
/// input.
pub fn parse_null<'a>(input: &'a str) -> (r: Result<(JsonValue, &'a str), JsonParseError>)
    ensures
        match r {
            Ok(p) => spec_parse_null(input@, 0) matches Ok(q) && p.0@ == q.0 && p.1@
                == input@.subrange(q.1, input@.len() as int),
            Err(e) => spec_parse_null(input@, 0) matches Err(em) && is_error_for(
                e,
                input@,
                em,
            ),
        },
{
    let cs = chars_of(input);
    match eng_null(&cs, 0) {
        Ok(p) => {
            let n = input.unicode_len();
            Ok((p.0, input.substring_char(p.1, n)))
        },
        Err(e) => Err(raise(input, e)),
    }
}

} // verus!
