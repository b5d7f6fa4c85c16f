use vstd::prelude::*;

verus! {

use vstd::string::StrSliceExecFns;
use crate::model::json_parse_error::ErrorKind;
use crate::model::json_parse_error::ErrModel;
use crate::model::json_parse_error::JsonParseError;
use crate::model::json_parse_error::is_error_for;
use crate::model::json_value::JsonValue;
use crate::model::json_value::ValueModel;
use crate::model::json_value::jv_view_seq;
use crate::model::json_value::lemma_jv_view_seq_push;
use crate::parser::grammar::spec_arr_items;
use crate::parser::grammar::spec_parse_array;
use crate::parser::raw::RawError;
use crate::parser::raw::raw_view;
use crate::parser::raw::raise;
use crate::parser::raw::unmatched_kind;
use crate::parser::value::eng_value;
use crate::text::chars_of;
use crate::text::imax;
use crate::text::skip_ws;

#[verifier::rlimit(50)]
pub(crate) fn eng_array(s: &Vec<char>, i: usize) -> (r: Result<(JsonValue, usize), RawError>)
    requires
        i <= s@.len(),
    ensures
        match r {
            Ok(p) => spec_parse_array(s@, i as int) == Ok::<(ValueModel, int), ErrModel>(
                (p.0@, p.1 as int),
            ) && i < p.1 <= s@.len(),
            Err(e) => spec_parse_array(s@, i as int) == Err::<(ValueModel, int), ErrModel>(
                raw_view(e),
            ),
        },
    decreases imax(s@.len() - i, 0), 2int,
{
    let t = skip_ws(s, i);
    if !(t < s.len() && s[t] == '[') {
        return Err(RawError { kind: unmatched_kind("array"), pos: i, fallback: true });
    }
    let mut j = t + 1;
    let mut vals: Vec<JsonValue> = Vec::new();
    loop
        invariant
            i <= t < s@.len(),
            s@[t as int] == '[',
            t + 1 <= j <= s@.len(),
            spec_parse_array(s@, i as int) == spec_arr_items(s@, j as int, jv_view_seq(vals@)),
        decreases s@.len() - j,
    {
        let ghost j0 = j as int;
        let ghost acc0 = jv_view_seq(vals@);
        let k = skip_ws(s, j);
        if k < s.len() && s[k] == ']' {
            return Ok((JsonValue::Array(vals), k + 1));
        }
        match eng_value(s, k) {
            Err(e) => {
                return Err(
                    RawError { kind: ErrorKind::ExpectedValue, pos: e.pos, fallback: false },
                );
            },
            Ok(vp) => {
                let (v, j2) = vp;
                let ghost vm = v@;
                let m = skip_ws(s, j2);
                if m < s.len() && s[m] == ',' {
                    let n = skip_ws(s, m + 1);
                    if n < s.len() && s[n] == ']' {
                        return Err(
                            RawError { kind: ErrorKind::TrailingComma, pos: n, fallback: false },
                        );
                    }
                    let ghost old_vals = vals@;
                    vals.push(v);
                    proof {
                        lemma_jv_view_seq_push(old_vals, vals@.last());
                        assert(old_vals.push(vals@.last()) =~= vals@);
                        assert(jv_view_seq(vals@) =~= acc0.push(vm));
                        assert(spec_arr_items(s@, j0, acc0) == spec_arr_items(
                            s@,
                            m as int + 1,
                            acc0.push(vm),
                        ));
                    }
                    j = m + 1;
                } else if m < s.len() && s[m] == ']' {
                    let ghost old_vals = vals@;
                    vals.push(v);
                    proof {
                        lemma_jv_view_seq_push(old_vals, vals@.last());
                        assert(old_vals.push(vals@.last()) =~= vals@);
                        assert(jv_view_seq(vals@) =~= acc0.push(vm));
                    }
                    return Ok((JsonValue::Array(vals), m + 1));
                } else {
                    return Err(
                        RawError { kind: ErrorKind::ExpectedComma, pos: m, fallback: false },
                    );
                }
            },
        }
    }
}

/// Parses a JSON array with potentially nested values at the front of the
/// input, after any leading whitespace, and returns the value together
/// with the remaining input.
pub fn parse_array<'a>(input: &'a str) -> (r: Result<(JsonValue, &'a str), JsonParseError>)
    ensures
        match r {
            Ok(p) => spec_parse_array(input@, 0) matches Ok(q) && p.0@ == q.0 && p.1@
                == input@.subrange(q.1, input@.len() as int),
            Err(e) => spec_parse_array(input@, 0) matches Err(em) && is_error_for(
                e,
                input@,
                em,
            ),
        },
{
    let cs = chars_of(input);
    match eng_array(&cs, 0) {
        Ok(p) => {
            let n = input.unicode_len();
            Ok((p.0, input.substring_char(p.1, n)))
        },
        Err(e) => Err(raise(input, e)),
    }
}

} // verus!
