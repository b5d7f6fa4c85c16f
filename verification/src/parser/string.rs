use vstd::prelude::*;

verus! {

use vstd::string::StrSliceExecFns;
use crate::model::json_parse_error::ErrorKind;
use crate::model::json_parse_error::ErrModel;
use crate::model::json_parse_error::KindModel;
use crate::model::json_parse_error::JsonParseError;
use crate::model::json_parse_error::is_error_for;
use crate::model::json_value::JsonValue;
use crate::model::json_value::ValueModel;
use crate::parser::raw::RawError;
use crate::parser::raw::raw_view;
use crate::parser::raw::raise;
use crate::text::chars_of;
use crate::text::ch_is_hex;
use crate::text::ch_hex_val;
use crate::text::char_from_u32;
use crate::text::hex_val;
use crate::text::imax;
use crate::text::is_hex;
use crate::text::push_char;
use crate::text::skip_ws;
use crate::text::ws_end;

/// Whether four hexadecimal digits stand at offset `a`.
pub open spec fn is_hex4(s: Seq<char>, a: int) -> bool {
    is_hex(s[a]) && is_hex(s[a + 1]) && is_hex(s[a + 2]) && is_hex(s[a + 3])
}

/// The value of the four hexadecimal digits at offset `a`.
pub open spec fn hex4_val(s: Seq<char>, a: int) -> int {
    hex_val(s[a]) * 4096 + hex_val(s[a + 1]) * 256 + hex_val(s[a + 2]) * 16 + hex_val(s[a + 3])
}

/// The body of a string literal from offset `j` on, with `acc` the text
/// unescaped so far. A backslash starts an escape; a `u` escape reads four
/// hexadecimal digits forming a UTF-16 code unit, and a high surrogate must
/// be followed by an escaped low surrogate, the pair combining into one
/// scalar. The body ends at an unescaped quote; input that ends first is an
/// unterminated string.
pub open spec fn spec_string_body(s: Seq<char>, j: int, acc: Seq<char>) -> Result<
    (Seq<char>, int),
    ErrModel,
>
    decreases imax(s.len() - j, 0), 1int,
{
    if j < 0 {
        Err(ErrModel { kind: KindModel::UnterminatedString, pos: s.len() as int, fallback: false })
    } else if j >= s.len() {
        Err(ErrModel { kind: KindModel::UnterminatedString, pos: s.len() as int, fallback: false })
    } else if s[j] == '"' {
        Ok((acc, j + 1))
    } else if s[j] == '\\' {
        if j + 1 >= s.len() {
            Err(
                ErrModel {
                    kind: KindModel::UnterminatedString,
                    pos: s.len() as int,
                    fallback: false,
                },
            )
        } else {
            let e = s[j + 1];
            if e == '"' {
                spec_string_body(s, j + 2, acc.push('"'))
            } else if e == '\\' {
                spec_string_body(s, j + 2, acc.push('\\'))
            } else if e == '/' {
                spec_string_body(s, j + 2, acc.push('/'))
            } else if e == 'b' {
                spec_string_body(s, j + 2, acc.push('\u{0008}'))
            } else if e == 'f' {
                spec_string_body(s, j + 2, acc.push('\u{000C}'))
            } else if e == 'n' {
                spec_string_body(s, j + 2, acc.push('\n'))
            } else if e == 'r' {
                spec_string_body(s, j + 2, acc.push('\r'))
            } else if e == 't' {
                spec_string_body(s, j + 2, acc.push('\t'))
            } else if e == 'u' {
                spec_string_unicode(s, j, acc)
            } else {
                Err(ErrModel { kind: KindModel::InvalidEscape, pos: j + 1, fallback: false })
            }
        }
    } else {
        spec_string_body(s, j + 1, acc.push(s[j]))
    }
}

/// The `\u` escape whose backslash stands at offset `j`.
pub open spec fn spec_string_unicode(s: Seq<char>, j: int, acc: Seq<char>) -> Result<
    (Seq<char>, int),
    ErrModel,
>
    decreases imax(s.len() - j, 0), 0int,
{
    if j + 6 >= s.len() || j < 0 {
        Err(ErrModel { kind: KindModel::InvalidUnicode, pos: j + 1, fallback: false })
    } else if !is_hex4(s, j + 2) {
        Err(ErrModel { kind: KindModel::InvalidUnicode, pos: j + 1, fallback: false })
    } else {
        let code = hex4_val(s, j + 2);
        if 0xD800 <= code && code <= 0xDBFF {
            let m = j + 5;
            if m + 6 >= s.len() {
                Err(ErrModel { kind: KindModel::InvalidUnicode, pos: m, fallback: false })
            } else if s[m + 1] != '\\' || s[m + 2] != 'u' {
                Err(ErrModel { kind: KindModel::InvalidUnicode, pos: m, fallback: false })
            } else if !is_hex4(s, m + 3) {
                Err(ErrModel { kind: KindModel::InvalidUnicode, pos: m, fallback: false })
            } else {
                let low = hex4_val(s, m + 3);
                if !(0xDC00 <= low && low <= 0xDFFF) {
                    Err(ErrModel { kind: KindModel::InvalidUnicode, pos: m, fallback: false })
                } else {
                    let sc = 0x10000 + (code - 0xD800) * 0x400 + (low - 0xDC00);
                    spec_string_body(s, m + 7, acc.push(((sc as u32) as char)))
                }
            }
        } else if 0xDC00 <= code && code <= 0xDFFF {
            Err(ErrModel { kind: KindModel::InvalidUnicode, pos: j + 5, fallback: false })
        } else {
            spec_string_body(s, j + 6, acc.push(((code as u32) as char)))
        }
    }
}

/// What parsing a string literal at offset `i` of `s` yields. Leading
/// whitespace is skipped; the literal must begin with a quote, and its body
/// is unescaped as `spec_string_body` describes.
pub open spec fn spec_parse_string(s: Seq<char>, i: int) -> Result<(ValueModel, int), ErrModel> {
    let t = ws_end(s, i);
    if t >= s.len() {
        Err(ErrModel { kind: KindModel::UnexpectedEof, pos: i, fallback: false })
    } else if s[t] != '"' {
        Err(ErrModel { kind: KindModel::UnexpectedChar(s[t]), pos: i, fallback: true })
    } else {
        match spec_string_body(s, t + 1, Seq::empty()) {
            Ok(p) => Ok((ValueModel::String(p.0), p.1)),
            Err(e) => Err(e),
        }
    }
}

#[verifier::rlimit(50)]
pub(crate) fn eng_string(s: &Vec<char>, i: usize) -> (r: Result<(JsonValue, usize), RawError>)
    requires
        i <= s@.len(),
    ensures
        match r {
            Ok(p) => spec_parse_string(s@, i as int) == Ok::<(ValueModel, int), ErrModel>(
                (p.0@, p.1 as int),
            ) && i < p.1 <= s@.len(),
            Err(e) => spec_parse_string(s@, i as int) == Err::<(ValueModel, int), ErrModel>(
                raw_view(e),
            ),
        },
{
    let t = skip_ws(s, i);
    if t >= s.len() {
        return Err(RawError { kind: ErrorKind::UnexpectedEof, pos: i, fallback: false });
    }
    if s[t] != '"' {
        return Err(RawError { kind: ErrorKind::UnexpectedChar(s[t]), pos: i, fallback: true });
    }
    let mut j = t + 1;
    let mut out = String::new();
    while j < s.len()
        invariant
            t as int + 1 <= j as int <= s@.len(),
            i <= t < s@.len(),
            spec_string_body(s@, t as int + 1, Seq::empty()) == spec_string_body(
                s@,
                j as int,
                out@,
            ),
            spec_parse_string(s@, i as int) == (match spec_string_body(
                s@,
                t as int + 1,
                Seq::empty(),
            ) {
                Ok(p) => Ok::<(ValueModel, int), ErrModel>((ValueModel::String(p.0), p.1)),
                Err(e) => Err::<(ValueModel, int), ErrModel>(e),
            }),
        decreases s@.len() - j,
    {
        let ghost j0 = j as int;
        let ghost out0 = out@;
        let c = s[j];
        if c == '"' {
            return Ok((JsonValue::String(out), j + 1));
        }
        if c == '\\' {
            if j + 1 >= s.len() {
                return Err(
                    RawError { kind: ErrorKind::UnterminatedString, pos: s.len(), fallback: false },
                );
            }
            let e = s[j + 1];
            if e == '"' {
                push_char(&mut out, '"');
                j = j + 2;
            } else if e == '\\' {
                push_char(&mut out, '\\');
                j = j + 2;
            } else if e == '/' {
                push_char(&mut out, '/');
                j = j + 2;
            } else if e == 'b' {
                push_char(&mut out, '\u{0008}');
                j = j + 2;
            } else if e == 'f' {
                push_char(&mut out, '\u{000C}');
                j = j + 2;
            } else if e == 'n' {
                push_char(&mut out, '\n');
                j = j + 2;
            } else if e == 'r' {
                push_char(&mut out, '\r');
                j = j + 2;
            } else if e == 't' {
                push_char(&mut out, '\t');
                j = j + 2;
            } else if e == 'u' {
                proof {
                    reveal_with_fuel(spec_string_body, 2);
                }
                if s.len() - j <= 6 {
                    return Err(
                        RawError { kind: ErrorKind::InvalidUnicode, pos: j + 1, fallback: false },
                    );
                }
                if !(ch_is_hex(s[j + 2]) && ch_is_hex(s[j + 3]) && ch_is_hex(s[j + 4])
                    && ch_is_hex(s[j + 5])) {
                    return Err(
                        RawError { kind: ErrorKind::InvalidUnicode, pos: j + 1, fallback: false },
                    );
                }
                let code: u32 = ch_hex_val(s[j + 2]) * 4096 + ch_hex_val(s[j + 3]) * 256
                    + ch_hex_val(s[j + 4]) * 16 + ch_hex_val(s[j + 5]);
                if 0xD800 <= code && code <= 0xDBFF {
                    let m = j + 5;
                    if s.len() - m <= 6 {
                        return Err(
                            RawError { kind: ErrorKind::InvalidUnicode, pos: m, fallback: false },
                        );
                    }
                    if s[m + 1] != '\\' || s[m + 2] != 'u' {
                        return Err(
                            RawError { kind: ErrorKind::InvalidUnicode, pos: m, fallback: false },
                        );
                    }
                    if !(ch_is_hex(s[m + 3]) && ch_is_hex(s[m + 4]) && ch_is_hex(s[m + 5])
                        && ch_is_hex(s[m + 6])) {
                        return Err(
                            RawError { kind: ErrorKind::InvalidUnicode, pos: m, fallback: false },
                        );
                    }
                    let low: u32 = ch_hex_val(s[m + 3]) * 4096 + ch_hex_val(s[m + 4]) * 256
                        + ch_hex_val(s[m + 5]) * 16 + ch_hex_val(s[m + 6]);
                    if !(0xDC00 <= low && low <= 0xDFFF) {
                        return Err(
                            RawError { kind: ErrorKind::InvalidUnicode, pos: m, fallback: false },
                        );
                    }
                    let sc: u32 = 0x10000 + (code - 0xD800) * 0x400 + (low - 0xDC00);
                    proof {
                        assert(vstd::utf8::is_scalar(sc));
                    }
                    match char_from_u32(sc) {
                        Some(ch) => {
                            push_char(&mut out, ch);
                        },
                        None => {
                            proof {
                                assert(false);
                            }
                            return Err(
                                RawError {
                                    kind: ErrorKind::InvalidUnicode,
                                    pos: m,
                                    fallback: false,
                                },
                            );
                        },
                    }
                    j = m + 7;
                } else if 0xDC00 <= code && code <= 0xDFFF {
                    return Err(
                        RawError { kind: ErrorKind::InvalidUnicode, pos: j + 5, fallback: false },
                    );
                } else {
                    proof {
                        assert(vstd::utf8::is_scalar(code));
                    }
                    match char_from_u32(code) {
                        Some(ch) => {
                            push_char(&mut out, ch);
                        },
                        None => {
                            proof {
                                assert(false);
                            }
                            return Err(
                                RawError {
                                    kind: ErrorKind::InvalidUnicode,
                                    pos: j + 1,
                                    fallback: false,
                                },
                            );
                        },
                    }
                    j = j + 6;
                }
            } else {
                return Err(
                    RawError { kind: ErrorKind::InvalidEscape, pos: j + 1, fallback: false },
                );
            }
        } else {
            push_char(&mut out, c);
            j = j + 1;
        }
        proof {
            reveal_with_fuel(spec_string_body, 2);
            assert(spec_string_body(s@, j0, out0) == spec_string_body(s@, j as int, out@));
        }
    }
    Err(RawError { kind: ErrorKind::UnterminatedString, pos: s.len(), fallback: false })
}

/// Parses a JSON string literal with escape support at the front of the
/// input, after any leading whitespace, and returns the unescaped value
/// together with the remaining input.
pub fn parse_string<'a>(input: &'a str) -> (r: Result<(JsonValue, &'a str), JsonParseError>)
    ensures
        match r {
            Ok(p) => spec_parse_string(input@, 0) matches Ok(q) && p.0@ == q.0 && p.1@
                == input@.subrange(q.1, input@.len() as int),
            Err(e) => spec_parse_string(input@, 0) matches Err(em) && is_error_for(
                e,
                input@,
                em,
            ),
        },
{
    let cs = chars_of(input);
    match eng_string(&cs, 0) {
        Ok(p) => {
            let n = input.unicode_len();
            Ok((p.0, input.substring_char(p.1, n)))
        },
        Err(e) => Err(raise(input, e)),
    }
}

} // verus!
