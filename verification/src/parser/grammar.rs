use vstd::prelude::*;

verus! {

use crate::model::json_parse_error::ErrModel;
use crate::model::json_parse_error::KindModel;
use crate::model::json_parse_error::unmatched_text;
use crate::model::json_value::ValueModel;
use crate::parser::bool::spec_parse_bool;
use crate::parser::null::spec_parse_null;
use crate::parser::number::spec_parse_number;
use crate::parser::string::spec_parse_string;
use crate::text::clamp;
use crate::text::imax;
use crate::text::ws_end;

/// Whether `entries` already binds `key`.
pub open spec fn has_key(entries: Seq<(Seq<char>, ValueModel)>, key: Seq<char>) -> bool {
    exists|idx: int| 0 <= idx < entries.len() && entries[idx].0 == key
}

/// What parsing any JSON value at offset `i` of `s` yields. The candidate
/// grammars are tried in a fixed order: object, array, string, number,
/// boolean, null. The first success wins; a hard failure of any candidate
/// ends the search at once; if every candidate reports an unmatched
/// fallback signal, the object parser's signal is the result.
pub open spec fn spec_parse_value(s: Seq<char>, i: int) -> Result<(ValueModel, int), ErrModel>
    decreases imax(s.len() - i, 0), 3int,
{
    match spec_parse_object(s, i) {
        Ok(p) => Ok(p),
        Err(e1) => if !e1.fallback {
            Err(e1)
        } else {
            match spec_parse_array(s, i) {
                Ok(p) => Ok(p),
                Err(e2) => if !e2.fallback {
                    Err(e2)
                } else {
                    match spec_parse_string(s, i) {
                        Ok(p) => Ok(p),
                        Err(e3) => if !e3.fallback {
                            Err(e3)
                        } else {
                            match spec_parse_number(s, i) {
                                Ok(p) => Ok(p),
                                Err(e4) => if !e4.fallback {
                                    Err(e4)
                                } else {
                                    match spec_parse_bool(s, i) {
                                        Ok(p) => Ok(p),
                                        Err(e5) => if !e5.fallback {
                                            Err(e5)
                                        } else {
                                            match spec_parse_null(s, i) {
                                                Ok(p) => Ok(p),
                                                Err(e6) => if !e6.fallback {
                                                    Err(e6)
                                                } else {
                                                    Err(e1)
                                                },
                                            }
                                        },
                                    }
                                },
                            }
                        },
                    }
                },
            }
        },
    }
}

/// What parsing an array at offset `i` of `s` yields: a `[`, then elements
/// as `spec_arr_items` describes. Input that does not start with `[` is an
/// unmatched fallback signal.
pub open spec fn spec_parse_array(s: Seq<char>, i: int) -> Result<(ValueModel, int), ErrModel>
    decreases imax(s.len() - i, 0), 2int,
{
    let t = clamp(ws_end(s, i), i, s.len() as int);
    if t < s.len() && s[t] == '[' {
        spec_arr_items(s, t + 1, Seq::empty())
    } else {
        Err(
            ErrModel {
                kind: KindModel::Custom(unmatched_text("array"@)),
                pos: i,
                fallback: true,
            },
        )
    }
}

/// The elements of an array from offset `j` on, with `acc` the elements
/// read so far. Elements are separated by commas; a comma directly before
/// the closing bracket is a trailing comma; a failed element parse is
/// reported as an expected-value error at the inner failure's offset.
pub open spec fn spec_arr_items(s: Seq<char>, j: int, acc: Seq<ValueModel>) -> Result<
    (ValueModel, int),
    ErrModel,
>
    decreases imax(s.len() - j, 0), 4int,
{
    let k = clamp(ws_end(s, j), j, s.len() as int);
    if k < s.len() && s[k] == ']' {
        Ok((ValueModel::Array(acc), k + 1))
    } else {
        match spec_parse_value(s, k) {
            Err(e) => Err(ErrModel { kind: KindModel::ExpectedValue, pos: e.pos, fallback: false }),
            Ok(vp) => {
                let j2 = clamp(vp.1, k + 1, s.len() as int);
                let m = clamp(ws_end(s, j2), j2, s.len() as int);
                if m < s.len() && s[m] == ',' {
                    let n = clamp(ws_end(s, m + 1), m + 1, s.len() as int);
                    if n < s.len() && s[n] == ']' {
                        Err(ErrModel { kind: KindModel::TrailingComma, pos: n, fallback: false })
                    } else {
                        spec_arr_items(s, m + 1, acc.push(vp.0))
                    }
                } else if m < s.len() && s[m] == ']' {
                    Ok((ValueModel::Array(acc.push(vp.0)), m + 1))
                } else {
                    Err(ErrModel { kind: KindModel::ExpectedComma, pos: m, fallback: false })
                }
            },
        }
    }
}

/// What parsing an object at offset `i` of `s` yields: a `{`, then entries
/// as `spec_obj_items` describes. Input that does not start with `{` is an
/// unmatched fallback signal carrying the offending character, or `?` at
/// the end of input.
pub open spec fn spec_parse_object(s: Seq<char>, i: int) -> Result<(ValueModel, int), ErrModel>
    decreases imax(s.len() - i, 0), 2int,
{
    let t = clamp(ws_end(s, i), i, s.len() as int);
    if t < s.len() && s[t] == '{' {
        spec_obj_items(s, t + 1, Seq::empty())
    } else {
        let c = if t < s.len() {
            s[t]
        } else {
            '?'
        };
        Err(ErrModel { kind: KindModel::UnexpectedChar(c), pos: i, fallback: true })
    }
}

/// The entries of an object from offset `j` on, with `acc` the entries read
/// so far. Each entry is a value that must be a string key, a colon, and a
/// value; a key already bound is a duplicate-key error before insertion;
/// the comma logic matches arrays.
pub open spec fn spec_obj_items(
    s: Seq<char>,
    j: int,
    acc: Seq<(Seq<char>, ValueModel)>,
) -> Result<(ValueModel, int), ErrModel>
    decreases imax(s.len() - j, 0), 4int,
{
    let k = clamp(ws_end(s, j), j, s.len() as int);
    if k < s.len() && s[k] == '}' {
        Ok((ValueModel::Object(acc), k + 1))
    } else {
        match spec_parse_value(s, k) {
            Err(e) => Err(e),
            Ok(kp) => {
                let j2 = clamp(kp.1, k + 1, s.len() as int);
                match kp.0 {
                    ValueModel::String(key) => {
                        let m = clamp(ws_end(s, j2), j2, s.len() as int);
                        if !(m < s.len() && s[m] == ':') {
                            Err(
                                ErrModel {
                                    kind: KindModel::ExpectedColon,
                                    pos: m,
                                    fallback: false,
                                },
                            )
                        } else {
                            let p = clamp(ws_end(s, m + 1), m + 1, s.len() as int);
                            match spec_parse_value(s, p) {
                                Err(e) => Err(e),
                                Ok(vp) => {
                                    if has_key(acc, key) {
                                        Err(
                                            ErrModel {
                                                kind: KindModel::DuplicateKey(key),
                                                pos: p,
                                                fallback: false,
                                            },
                                        )
                                    } else {
                                        let j3 = clamp(vp.1, p + 1, s.len() as int);
                                        let j4 = clamp(ws_end(s, j3), j3, s.len() as int);
                                        if j4 < s.len() && s[j4] == ',' {
                                            let n = clamp(
                                                ws_end(s, j4 + 1),
                                                j4 + 1,
                                                s.len() as int,
                                            );
                                            if n < s.len() && s[n] == '}' {
                                                Err(
                                                    ErrModel {
                                                        kind: KindModel::TrailingComma,
                                                        pos: n,
                                                        fallback: false,
                                                    },
                                                )
                                            } else {
                                                spec_obj_items(s, j4 + 1, acc.push((key, vp.0)))
                                            }
                                        } else if j4 < s.len() && s[j4] == '}' {
                                            Ok(
                                                (
                                                    ValueModel::Object(acc.push((key, vp.0))),
                                                    j4 + 1,
                                                ),
                                            )
                                        } else {
                                            Err(
                                                ErrModel {
                                                    kind: KindModel::ExpectedComma,
                                                    pos: j4,
                                                    fallback: false,
                                                },
                                            )
                                        }
                                    }
                                },
                            }
                        }
                    },
                    _ => Err(
                        ErrModel { kind: KindModel::InvalidObjectKey, pos: k, fallback: false },
                    ),
                }
            },
        }
    }
}

} // verus!
