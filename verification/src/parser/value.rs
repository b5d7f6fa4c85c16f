use vstd::prelude::*;

verus! {

use vstd::string::StrSliceExecFns;
use crate::model::json_parse_error::JsonParseError;
use crate::model::json_parse_error::ErrModel;
use crate::model::json_parse_error::is_error_for;
use crate::model::json_value::JsonValue;
use crate::model::json_value::ValueModel;
use crate::parser::array::eng_array;
use crate::parser::bool::eng_bool;
use crate::parser::grammar::spec_parse_value;
use crate::parser::null::eng_null;
use crate::parser::number::eng_number;
use crate::parser::object::eng_object;
use crate::parser::raw::RawError;
use crate::parser::string::eng_string;
use crate::parser::raw::raw_view;
use crate::parser::raw::raise;
use crate::text::chars_of;
use crate::text::imax;

pub(crate) fn eng_value(s: &Vec<char>, i: usize) -> (r: Result<(JsonValue, usize), RawError>)
    requires
        i <= s@.len(),
    ensures
        match r {
            Ok(p) => spec_parse_value(s@, i as int) == Ok::<(ValueModel, int), ErrModel>(
                (p.0@, p.1 as int),
            ) && i < p.1 <= s@.len(),
            Err(e) => spec_parse_value(s@, i as int) == Err::<(ValueModel, int), ErrModel>(
                raw_view(e),
            ),
        },
    decreases imax(s@.len() - i, 0), 3int,
{
    let e1 = match eng_object(s, i) {
        Ok(p) => {
            return Ok(p);
        },
        Err(e) => e,
    };
    if !e1.fallback {
        return Err(e1);
    }
    match eng_array(s, i) {
        Ok(p) => {
            return Ok(p);
        },
        Err(e) => {
            if !e.fallback {
                return Err(e);
            }
        },
    }
    match eng_string(s, i) {
        Ok(p) => {
            return Ok(p);
        },
        Err(e) => {
            if !e.fallback {
                return Err(e);
            }
        },
    }
    match eng_number(s, i) {
        Ok(p) => {
            return Ok(p);
        },
        Err(e) => {
            if !e.fallback {
                return Err(e);
            }
        },
    }
    match eng_bool(s, i) {
        Ok(p) => {
            return Ok(p);
        },
        Err(e) => {
            if !e.fallback {
                return Err(e);
            }
        },
    }
    match eng_null(s, i) {
        Ok(p) => {
            return Ok(p);
        },
        Err(e) => {
            if !e.fallback {
                return Err(e);
            }
        },
    }
    Err(e1)
}

/// Parses any valid JSON value at the front of the input, trying object,
/// array, string, number, boolean and null in that order, and returns the
/// value together with the remaining input.
pub fn parse_value<'a>(input: &'a str) -> (r: Result<(JsonValue, &'a str), JsonParseError>)
    ensures
        match r {
            Ok(p) => spec_parse_value(input@, 0) matches Ok(q) && p.0@ == q.0 && p.1@
                == input@.subrange(q.1, input@.len() as int),
            Err(e) => spec_parse_value(input@, 0) matches Err(em) && is_error_for(
                e,
                input@,
                em,
            ),
        },
{
    let cs = chars_of(input);
    match eng_value(&cs, 0) {
        Ok(p) => {
            let n = input.unicode_len();
            Ok((p.0, input.substring_char(p.1, n)))
        },
        Err(e) => Err(raise(input, e)),
    }
}

} // verus!
