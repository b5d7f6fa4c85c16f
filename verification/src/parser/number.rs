use vstd::prelude::*;

verus! {

use vstd::string::StrSliceExecFns;
use crate::model::json_parse_error::ErrorKind;
use crate::model::json_parse_error::ErrModel;
use crate::model::json_parse_error::KindModel;
use crate::model::json_parse_error::JsonParseError;
use crate::model::json_parse_error::is_error_for;
use crate::model::json_parse_error::unmatched_text;
use crate::model::json_value::JsonValue;
use crate::model::json_value::ValueModel;
use crate::parser::raw::RawError;
use crate::parser::raw::raw_view;
use crate::parser::raw::raise;
use crate::parser::raw::unmatched_kind;
use crate::text::chars_of;
use crate::text::ch_is_alpha;
use crate::text::ch_is_digit;
use crate::text::digits_end;
use crate::text::is_alpha;
use crate::text::is_digit;
use crate::text::skip_digits;
use crate::text::skip_ws;
use crate::text::string_from_range;
use crate::text::ws_end;

/// The tail of number parsing: after the digits end at `j`, a following
/// letter or decimal point is a malformed token, a hard error at that
/// offset; otherwise the literal text from `t` to `j` is the number's
/// value.
pub open spec fn spec_number_end(s: Seq<char>, t: int, j: int) -> Result<
    (ValueModel, int),
    ErrModel,
> {
    if j < s.len() && (is_alpha(s[j]) || s[j] == '.') {
        Err(ErrModel { kind: KindModel::UnexpectedChar(s[j]), pos: j, fallback: false })
    } else {
        Ok((ValueModel::Number(s.subrange(t, j)), j))
    }
}

/// The exponent part of a number starting at `jf`: `e` or `E`, an optional
/// sign, and at least one digit; an exponent without digits is a hard
/// error at the position of the `e`.
pub open spec fn spec_number_exp(s: Seq<char>, t: int, jf: int) -> Result<
    (ValueModel, int),
    ErrModel,
> {
    if jf < s.len() && (s[jf] == 'e' || s[jf] == 'E') {
        let k = if jf + 1 < s.len() && (s[jf + 1] == '+' || s[jf + 1] == '-') {
            jf + 2
        } else {
            jf + 1
        };
        let xe = digits_end(s, k);
        if xe == k {
            Err(ErrModel { kind: KindModel::InvalidExponent, pos: jf, fallback: false })
        } else {
            spec_number_end(s, t, xe)
        }
    } else {
        spec_number_end(s, t, jf)
    }
}

/// The fractional part of a number starting at `je`: a decimal point must
/// be followed by at least one digit, else it is a hard error at the
/// position of the point.
pub open spec fn spec_number_frac(s: Seq<char>, t: int, je: int) -> Result<
    (ValueModel, int),
    ErrModel,
> {
    if je < s.len() && s[je] == '.' {
        let fe = digits_end(s, je + 1);
        if fe == je + 1 {
            Err(ErrModel { kind: KindModel::DecimalWithoutDigits, pos: je, fallback: false })
        } else {
            spec_number_exp(s, t, fe)
        }
    } else {
        spec_number_exp(s, t, je)
    }
}

/// What parsing a number at offset `i` of `s` yields. Leading whitespace is
/// skipped; the grammar is an optional minus, an integer part without
/// leading zeros, an optional fraction and an optional exponent. Input that
/// does not begin like a number at all is an unmatched fallback signal;
/// input that commits to a number but violates its grammar is a hard error.
pub open spec fn spec_parse_number(s: Seq<char>, i: int) -> Result<(ValueModel, int), ErrModel> {
    let t = ws_end(s, i);
    let j0 = if t < s.len() && s[t] == '-' {
        t + 1
    } else {
        t
    };
    if j0 < s.len() && s[j0] == '.' {
        Err(
            ErrModel {
                kind: KindModel::Custom(unmatched_text("number"@)),
                pos: i,
                fallback: true,
            },
        )
    } else if !(j0 < s.len() && is_digit(s[j0])) {
        Err(
            ErrModel {
                kind: KindModel::Custom(unmatched_text("number"@)),
                pos: i,
                fallback: true,
            },
        )
    } else {
        let je = if s[j0] == '0' {
            j0 + 1
        } else {
            digits_end(s, j0)
        };
        if s[j0] == '0' && je < s.len() && is_digit(s[je]) {
            Err(ErrModel { kind: KindModel::LeadingZero, pos: je, fallback: false })
        } else {
            spec_number_frac(s, t, je)
        }
    }
}

pub(crate) fn eng_number(s: &Vec<char>, i: usize) -> (r: Result<(JsonValue, usize), RawError>)
    requires
        i <= s@.len(),
    ensures
        match r {
            Ok(p) => spec_parse_number(s@, i as int) == Ok::<(ValueModel, int), ErrModel>(
                (p.0@, p.1 as int),
            ) && i < p.1 <= s@.len(),
            Err(e) => spec_parse_number(s@, i as int) == Err::<(ValueModel, int), ErrModel>(
                raw_view(e),
            ),
        },
{
    let t = skip_ws(s, i);
    let j0 = if t < s.len() && s[t] == '-' {
        t + 1
    } else {
        t
    };
    if j0 < s.len() && s[j0] == '.' {
        return Err(RawError { kind: unmatched_kind("number"), pos: i, fallback: true });
    }
    if !(j0 < s.len() && ch_is_digit(s[j0])) {
        return Err(RawError { kind: unmatched_kind("number"), pos: i, fallback: true });
    }
    let je = if s[j0] == '0' {
        j0 + 1
    } else {
        skip_digits(s, j0)
    };
    if s[j0] == '0' && je < s.len() && ch_is_digit(s[je]) {
        return Err(RawError { kind: ErrorKind::LeadingZero, pos: je, fallback: false });
    }
    // Fractional part
    let jf = if je < s.len() && s[je] == '.' {
        let fe = skip_digits(s, je + 1);
        if fe == je + 1 {
            return Err(RawError { kind: ErrorKind::DecimalWithoutDigits, pos: je, fallback: false });
        }
        fe
    } else {
        je
    };
    // Exponent part
    let jx = if jf < s.len() && (s[jf] == 'e' || s[jf] == 'E') {
        let k = if jf + 1 < s.len() && (s[jf + 1] == '+' || s[jf + 1] == '-') {
            jf + 2
        } else {
            jf + 1
        };
        let xe = skip_digits(s, k);
        if xe == k {
            return Err(RawError { kind: ErrorKind::InvalidExponent, pos: jf, fallback: false });
        }
        xe
    } else {
        jf
    };
    if jx < s.len() && (ch_is_alpha(s[jx]) || s[jx] == '.') {
        return Err(RawError { kind: ErrorKind::UnexpectedChar(s[jx]), pos: jx, fallback: false });
    }
    Ok((JsonValue::Number(string_from_range(s, t, jx)), jx))
}

/// Parses a JSON number at the front of the input, after any leading
/// whitespace, and returns the value together with the remaining input.
/// The number's literal text becomes the value's payload.
pub fn parse_number<'a>(input: &'a str) -> (r: Result<(JsonValue, &'a str), JsonParseError>)
    ensures
        match r {
            Ok(p) => spec_parse_number(input@, 0) matches Ok(q) && p.0@ == q.0 && p.1@
                == input@.subrange(q.1, input@.len() as int),
            Err(e) => spec_parse_number(input@, 0) matches Err(em) && is_error_for(
                e,
                input@,
                em,
            ),
        },
{
    let cs = chars_of(input);
    match eng_number(&cs, 0) {
        Ok(p) => {
            let n = input.unicode_len();
            Ok((p.0, input.substring_char(p.1, n)))
        },
        Err(e) => Err(raise(input, e)),
    }
}

} // verus!
