use vstd::prelude::*;

verus! {

use vstd::string::StrSliceExecFns;
use crate::model::json_parse_error::ErrorKind;
use crate::model::json_parse_error::ErrModel;
use crate::model::json_parse_error::JsonParseError;
use crate::model::json_parse_error::is_error_for;
use crate::model::json_value::JsonValue;
use crate::model::json_value::ValueModel;
use crate::model::json_value::jv_view_entries;
use crate::model::json_value::lemma_jv_view_entries;
use crate::model::json_value::lemma_jv_view_entries_push;
use crate::parser::grammar::has_key;
use crate::parser::grammar::spec_obj_items;
use crate::parser::grammar::spec_parse_object;
use crate::parser::raw::RawError;
use crate::parser::raw::raw_view;
use crate::parser::raw::raise;
use crate::parser::value::eng_value;
use crate::text::chars_of;
use crate::text::imax;
use crate::text::skip_ws;

/// Whether the entries gathered so far already bind `key`.
fn contains_key(entries: &Vec<(String, JsonValue)>, key: &String) -> (b: bool)
    ensures
        b == has_key(jv_view_entries(entries@), key@),
{
    proof {
        lemma_jv_view_entries(entries@);
    }
    let mut idx: usize = 0;
    while idx < entries.len()
        invariant
            idx <= entries@.len(),
            jv_view_entries(entries@).len() == entries@.len(),
            forall|q: int|
                0 <= q < entries@.len() ==> jv_view_entries(entries@)[q] == (
                    entries@[q].0@,
                    crate::model::json_value::jv_view(entries@[q].1),
                ),
            forall|q: int| 0 <= q < idx ==> entries@[q].0@ != key@,
        decreases entries@.len() - idx,
    {
        if entries[idx].0 == *key {
            proof {
                assert(jv_view_entries(entries@)[idx as int].0 == key@);
                assert(has_key(jv_view_entries(entries@), key@));
            }
            return true;
        }
        idx = idx + 1;
    }
    false
}

#[verifier::rlimit(50)]
pub(crate) fn eng_object(s: &Vec<char>, i: usize) -> (r: Result<(JsonValue, usize), RawError>)
    requires
        i <= s@.len(),
    ensures
        match r {
            Ok(p) => spec_parse_object(s@, i as int) == Ok::<(ValueModel, int), ErrModel>(
                (p.0@, p.1 as int),
            ) && i < p.1 <= s@.len(),
            Err(e) => spec_parse_object(s@, i as int) == Err::<(ValueModel, int), ErrModel>(
                raw_view(e),
            ),
        },
    decreases imax(s@.len() - i, 0), 2int,
{
    let t = skip_ws(s, i);
    if !(t < s.len() && s[t] == '{') {
        let c = if t < s.len() {
            s[t]
        } else {
            '?'
        };
        return Err(RawError { kind: ErrorKind::UnexpectedChar(c), pos: i, fallback: true });
    }
    let mut j = t + 1;
    let mut entries: Vec<(String, JsonValue)> = Vec::new();
    loop
        invariant
            i <= t < s@.len(),
            s@[t as int] == '{',
            t + 1 <= j <= s@.len(),
            spec_parse_object(s@, i as int) == spec_obj_items(
                s@,
                j as int,
                jv_view_entries(entries@),
            ),
        decreases s@.len() - j,
    {
        let ghost j0 = j as int;
        let ghost acc0 = jv_view_entries(entries@);
        let k = skip_ws(s, j);
        if k < s.len() && s[k] == '}' {
            return Ok((JsonValue::Object(entries), k + 1));
        }
        let kp = match eng_value(s, k) {
            Err(e) => {
                return Err(e);
            },
            Ok(kp) => kp,
        };
        let (kv, j2) = kp;
        let key: String = match kv {
            JsonValue::String(ks) => ks,
            _ => {
                return Err(
                    RawError { kind: ErrorKind::InvalidObjectKey, pos: k, fallback: false },
                );
            },
        };
        let m = skip_ws(s, j2);
        if !(m < s.len() && s[m] == ':') {
            return Err(RawError { kind: ErrorKind::ExpectedColon, pos: m, fallback: false });
        }
        let p = skip_ws(s, m + 1);
        let vp = match eng_value(s, p) {
            Err(e) => {
                return Err(e);
            },
            Ok(vp) => vp,
        };
        let (v, j3) = vp;
        let ghost vm = v@;
        let ghost keym = key@;
        if contains_key(&entries, &key) {
            return Err(
                RawError { kind: ErrorKind::DuplicateKey(key), pos: p, fallback: false },
            );
        }
        let ghost old_entries = entries@;
        entries.push((key, v));
        proof {
            lemma_jv_view_entries_push(old_entries, entries@.last());
            assert(old_entries.push(entries@.last()) =~= entries@);
            assert(jv_view_entries(entries@) =~= acc0.push((keym, vm)));
        }
        let j4 = skip_ws(s, j3);
        if j4 < s.len() && s[j4] == ',' {
            let n = skip_ws(s, j4 + 1);
            if n < s.len() && s[n] == '}' {
                return Err(RawError { kind: ErrorKind::TrailingComma, pos: n, fallback: false });
            }
            proof {
                assert(spec_obj_items(s@, j0, acc0) == spec_obj_items(
                    s@,
                    j4 as int + 1,
                    acc0.push((keym, vm)),
                ));
            }
            j = j4 + 1;
        } else if j4 < s.len() && s[j4] == '}' {
            return Ok((JsonValue::Object(entries), j4 + 1));
        } else {
            return Err(RawError { kind: ErrorKind::ExpectedComma, pos: j4, fallback: false });
        }
    }
}

/// Parses a JSON object with string keys and potentially nested values at
/// the front of the input, after any leading whitespace, and returns the
/// value together with the remaining input. Duplicate keys are rejected.
pub fn parse_object<'a>(input: &'a str) -> (r: Result<(JsonValue, &'a str), JsonParseError>)
    ensures
        match r {
            Ok(p) => spec_parse_object(input@, 0) matches Ok(q) && p.0@ == q.0 && p.1@
                == input@.subrange(q.1, input@.len() as int),
            Err(e) => spec_parse_object(input@, 0) matches Err(em) && is_error_for(
                e,
                input@,
                em,
            ),
        },
{
    let cs = chars_of(input);
    match eng_object(&cs, 0) {
        Ok(p) => {
            let n = input.unicode_len();
            Ok((p.0, input.substring_char(p.1, n)))
        },
        Err(e) => Err(raise(input, e)),
    }
}

} // verus!
