use vstd::prelude::*;

verus! {

use crate::model::json_parse_error::ErrModel;
use crate::model::json_value::ValueModel;
use crate::model::serialize::ser;
use crate::parser::number::spec_parse_number;
use crate::text::digits_end;
use crate::text::is_alnum;
use crate::text::is_alpha;
use crate::text::is_digit;
use crate::text::imax;
use crate::text::imin;
use crate::text::is_ws;
use crate::text::lemma_digits_end;
use crate::text::lemma_ws_end;
use crate::text::ws_end;

broadcast use {vstd::std_specs::vec::group_vec_axioms, vstd::seq::group_seq_axioms};

/// A text that the number parser accepts whole: parsing it alone succeeds,
/// consumes every character, and returns the text itself as the value.
pub open spec fn num_token(t: Seq<char>) -> bool {
    spec_parse_number(t, 0) == Ok::<(ValueModel, int), ErrModel>(
        (ValueModel::Number(t), t.len() as int),
    )
}

/// A well-formed value: every number holds a valid numeric literal, and
/// every object's keys are distinct, recursively.
pub open spec fn wf_model(m: ValueModel) -> bool
    decreases m,
{
    match m {
        ValueModel::Null => true,
        ValueModel::Bool(_) => true,
        ValueModel::Number(t) => num_token(t),
        ValueModel::String(_) => true,
        ValueModel::Array(es) => wf_seq(es),
        ValueModel::Object(en) => keys_unique(en) && wf_entries(en),
    }
}

/// Every element well-formed.
pub open spec fn wf_seq(es: Seq<ValueModel>) -> bool
    decreases es,
{
    es.len() == 0 || (wf_model(es[0]) && wf_seq(es.drop_first()))
}

/// Every entry's value well-formed.
pub open spec fn wf_entries(en: Seq<(Seq<char>, ValueModel)>) -> bool
    decreases en,
{
    en.len() == 0 || (wf_model(en[0].1) && wf_entries(en.drop_first()))
}

/// All keys distinct.
pub open spec fn keys_unique(en: Seq<(Seq<char>, ValueModel)>) -> bool {
    forall|q: int, r: int| 0 <= q < r < en.len() ==> en[q].0 != en[r].0
}

/// A position where a serialized value may end: the end of the input, or
/// one of the separators and closers that follow a value inside a
/// document.
pub open spec fn boundary_ok(s: Seq<char>, e: int) -> bool {
    e == s.len() || s[e] == ',' || s[e] == ']' || s[e] == '}' || s[e] == ':'
}

/// Every boundary character is inert: not whitespace, not a digit, not a
/// letter, not a dot, and none of the characters a value can begin with.
pub proof fn lemma_boundary_char(s: Seq<char>, e: int)
    requires
        0 <= e < s.len(),
        boundary_ok(s, e),
    ensures
        !is_ws(s[e]),
        !is_digit(s[e]),
        !is_alpha(s[e]),
        !is_alnum(s[e]),
        s[e] != '.',
        s[e] != '"',
        s[e] != '-',
{
}

/// Digit scanning inside an embedded token mirrors digit scanning in the
/// token alone, as long as nothing after the token continues the digits.
pub proof fn lemma_digits_end_embed(s: Seq<char>, i: int, t: Seq<char>, a: int)
    requires
        0 <= i,
        i + t.len() <= s.len(),
        s.subrange(i, i + t.len()) == t,
        0 <= a <= t.len(),
        i + t.len() == s.len() || !is_digit(s[i + t.len()]),
    ensures
        digits_end(s, i + a) == i + digits_end(t, a),
    decreases t.len() - a,
{
    assert(forall|d: int| 0 <= d < t.len() ==> s[i + d] == t[d]);
    if a == t.len() {
        assert(digits_end(t, a) == a);
        if i + a == s.len() {
        } else {
            assert(!is_digit(s[i + a]));
        }
    } else {
        assert(s[i + a] == t[a]);
        if is_digit(t[a]) {
            lemma_digits_end_embed(s, i, t, a + 1);
        }
    }
}

/// The shape of a valid number token: it is nonempty, starts at its first
/// character with a minus sign or digit, and has no leading whitespace.
pub proof fn lemma_num_token_shape(t: Seq<char>)
    requires
        num_token(t),
    ensures
        t.len() > 0,
        ws_end(t, 0) == 0,
        t[0] == '-' || is_digit(t[0]),
        !is_ws(t[0]),
{
    let t0 = ws_end(t, 0);
    lemma_ws_end(t, 0);
    let j0 = if t0 < t.len() && t[t0] == '-' {
        t0 + 1
    } else {
        t0
    };
    assert(j0 < t.len() && is_digit(t[j0]));
    let je = if t[j0] == '0' {
        j0 + 1
    } else {
        digits_end(t, j0)
    };
    lemma_digits_end(t, j0);
    if je < t.len() && t[je] == '.' {
        lemma_digits_end(t, je + 1);
    }
    // The successful result's payload is the subrange from the first
    // non-whitespace character; it equals the whole text only when no
    // whitespace was skipped.
    assert(t0 == 0) by {
        if t0 > 0 {
            assert(spec_parse_number(t, 0) is Ok);
            let p = spec_parse_number(t, 0)->Ok_0;
            assert(p.0 == ValueModel::Number(t));
        }
    }
    assert(!is_ws(t[0])) by {
        if is_ws(t[0]) {
            assert(ws_end(t, 0) == ws_end(t, 1));
            lemma_ws_end(t, 1);
        }
    }
}

/// A valid number token embedded in a larger text parses to itself, up to
/// the token's end, whenever a boundary character follows.
pub proof fn lemma_number_embed(s: Seq<char>, i: int, t: Seq<char>)
    requires
        num_token(t),
        0 <= i,
        i + t.len() <= s.len(),
        s.subrange(i, i + t.len()) == t,
        boundary_ok(s, i + t.len()),
    ensures
        spec_parse_number(s, i) == Ok::<(ValueModel, int), ErrModel>(
            (ValueModel::Number(t), i + t.len()),
        ),
{
    let e = i + t.len();
    lemma_num_token_shape(t);
    assert(forall|d: int| 0 <= d < t.len() ==> s[i + d] == t[d]);
    if e < s.len() {
        lemma_boundary_char(s, e);
    }
    assert(ws_end(s, i) == i);
    let neg = t[0] == '-';
    let j0t = if neg {
        1int
    } else {
        0int
    };
    let j0 = i + j0t;
    assert(j0t < t.len() && is_digit(t[j0t]));
    assert(s[j0] == t[j0t]);
    let jet = if t[j0t] == '0' {
        j0t + 1
    } else {
        digits_end(t, j0t)
    };
    lemma_digits_end(t, j0t);
    lemma_digits_end_embed(s, i, t, j0t);
    let jft = if jet < t.len() && t[jet] == '.' {
        digits_end(t, jet + 1)
    } else {
        jet
    };
    if jet < t.len() && t[jet] == '.' {
        lemma_digits_end(t, jet + 1);
        lemma_digits_end_embed(s, i, t, jet + 1);
    }
    if jft < t.len() && (t[jft] == 'e' || t[jft] == 'E') {
        let kt = if jft + 1 < t.len() && (t[jft + 1] == '+' || t[jft + 1] == '-') {
            jft + 2
        } else {
            jft + 1
        };
        if kt <= t.len() {
            lemma_digits_end(t, kt);
            lemma_digits_end_embed(s, i, t, kt);
        }
    }
    assert(s.subrange(i, e) =~= t);
}

use crate::parser::null::spec_parse_null;
use crate::parser::bool::spec_parse_bool;

/// The serialized `null` literal parses to the null value.
pub proof fn lemma_null_embed(s: Seq<char>, i: int)
    requires
        0 <= i,
        i + 4 <= s.len(),
        s[i] == 'n' && s[i + 1] == 'u' && s[i + 2] == 'l' && s[i + 3] == 'l',
        boundary_ok(s, i + 4),
    ensures
        spec_parse_null(s, i) == Ok::<(ValueModel, int), ErrModel>((ValueModel::Null, i + 4)),
{
    assert(ws_end(s, i) == i);
    if i + 4 < s.len() {
        lemma_boundary_char(s, i + 4);
    }
}

/// The serialized boolean literals parse to their values.
pub proof fn lemma_bool_embed(s: Seq<char>, i: int, b: bool)
    requires
        0 <= i,
        i + ser(ValueModel::Bool(b)).len() <= s.len(),
        s.subrange(i, i + ser(ValueModel::Bool(b)).len()) == ser(ValueModel::Bool(b)),
        boundary_ok(s, i + ser(ValueModel::Bool(b)).len()),
    ensures
        spec_parse_bool(s, i) == Ok::<(ValueModel, int), ErrModel>(
            (ValueModel::Bool(b), i + ser(ValueModel::Bool(b)).len()),
        ),
{
    let t = ser(ValueModel::Bool(b));
    let e = i + t.len();
    assert(forall|d: int| 0 <= d < t.len() ==> s[i + d] == t[d]);
    if e < s.len() {
        lemma_boundary_char(s, e);
    }
    if b {
        assert(s[i] == 't');
        assert(ws_end(s, i) == i);
    } else {
        assert(s[i] == 'f');
        assert(ws_end(s, i) == i);
    }
}

use crate::model::serialize::json_escape;
use crate::model::serialize::json_escape_char;
use crate::model::serialize::is_ctl;
use crate::parser::string::spec_parse_string;
use crate::parser::string::spec_string_body;
use crate::parser::string::spec_string_unicode;
use crate::parser::string::is_hex4;
use crate::parser::string::hex4_val;
use crate::text::hex_digit_char;
use crate::text::hex_text4;
use crate::text::hex_val;
use crate::text::is_hex;

/// A hexadecimal digit character carries its value.
pub proof fn lemma_hex_digit_char(d: int)
    requires
        0 <= d < 16,
    ensures
        is_hex(hex_digit_char(d)),
        hex_val(hex_digit_char(d)) == d,
{
}

/// The four-digit hexadecimal text of `u` reads back as `u`.
pub proof fn lemma_hex_text4_val(s: Seq<char>, a: int, u: int)
    requires
        0 <= u < 0x10000,
        0 <= a,
        a + 4 <= s.len(),
        s[a] == hex_text4(u)[0],
        s[a + 1] == hex_text4(u)[1],
        s[a + 2] == hex_text4(u)[2],
        s[a + 3] == hex_text4(u)[3],
    ensures
        is_hex4(s, a),
        hex4_val(s, a) == u,
{
    lemma_hex_digit_char((u / 4096) % 16);
    lemma_hex_digit_char((u / 256) % 16);
    lemma_hex_digit_char((u / 16) % 16);
    lemma_hex_digit_char(u % 16);
    assert(((u / 4096) % 16) * 4096 + ((u / 256) % 16) * 256 + ((u / 16) % 16) * 16 + u % 16
        == u) by (nonlinear_arith)
        requires
            0 <= u < 0x10000,
    ;
}

/// The escaped body of a string, followed by a closing quote, unescapes
/// back to the original text.
#[verifier::rlimit(100)]
pub proof fn lemma_string_body_embed(s: Seq<char>, j: int, cs: Seq<char>, acc: Seq<char>)
    requires
        0 <= j,
        j + json_escape(cs).len() + 1 <= s.len(),
        s.subrange(j, j + json_escape(cs).len()) == json_escape(cs),
        s[j + json_escape(cs).len()] == '"',
    ensures
        spec_string_body(s, j, acc) == Ok::<(Seq<char>, int), ErrModel>(
            (acc + cs, j + json_escape(cs).len() + 1),
        ),
    decreases cs.len(),
{
    reveal_with_fuel(spec_string_body, 2);
    let esc = json_escape(cs);
    assert(forall|d: int| 0 <= d < esc.len() ==> s[j + d] == esc[d]);
    if cs.len() == 0 {
        assert(esc.len() == 0);
        assert(s[j] == '"');
        assert(acc + cs =~= acc);
    } else {
        let c = cs[0];
        let ec = json_escape_char(c);
        let rest = cs.drop_first();
        assert(esc == ec + json_escape(rest));
        assert(forall|d: int| 0 <= d < ec.len() ==> esc[d] == ec[d]);
        assert(forall|d: int|
            0 <= d < json_escape(rest).len() ==> esc[ec.len() + d] == json_escape(rest)[d]);
        let j2 = j + ec.len();
        assert(forall|d: int|
            0 <= d < json_escape(rest).len() ==> s[j2 + d] == json_escape(rest)[d]);
        assert(s.subrange(j2, j2 + json_escape(rest).len()) =~= json_escape(rest));
        if c == '"' || c == '\\' || c == '\n' || c == '\r' || c == '\t' || c == '\u{0008}'
            || c == '\u{000C}' {
            assert(ec.len() == 2);
            assert(s[j] == '\\');
            lemma_string_body_embed(s, j + 2, rest, acc.push(c));
            assert(acc.push(c) + rest =~= acc + cs);
        } else if is_ctl(c) {
            let u = c as u32;
            assert(ec == seq!['\\', 'u'] + hex_text4(u as int));
            assert(ec.len() == 6);
            assert(esc[0] == '\\' && esc[1] == 'u');
            assert(s[j] == esc[0]) by {
                assert(s[j + 0] == esc[0]);
            }
            assert(s[j + 1] == 'u');
            assert(u < 0x10000);
            assert(hex_text4(u as int).len() == 4);
            assert(forall|d: int| 0 <= d < 4 ==> ec[2 + d] == hex_text4(u as int)[d]);
            assert(s[j + 2] == esc[2] && s[j + 3] == esc[3] && s[j + 4] == esc[4] && s[j + 5]
                == esc[5]);
            assert(s[j + 2] == hex_text4(u as int)[0]);
            assert(s[j + 3] == hex_text4(u as int)[1]);
            assert(s[j + 4] == hex_text4(u as int)[2]);
            assert(s[j + 5] == hex_text4(u as int)[3]);
            lemma_hex_text4_val(s, j + 2, u as int);
            let code = hex4_val(s, j + 2);
            assert(code == u as int);
            assert(!(0xD800 <= code && code <= 0xDBFF));
            assert(!(0xDC00 <= code && code <= 0xDFFF));
            vstd::utf8::char_u32_cast(c, u);
            assert(((code as u32) as char) == c);
            lemma_string_body_embed(s, j + 6, rest, acc.push(c));
            assert(acc.push(c) + rest =~= acc + cs);
            assert(spec_string_body(s, j, acc) == spec_string_unicode(s, j, acc));
        } else {
            assert(ec == seq![c]);
            assert(esc[0] == c);
            assert(s[j] == esc[0]) by {
                assert(s[j + 0] == esc[0]);
            }
            assert(c != '"' && c != '\\');
            lemma_string_body_embed(s, j + 1, rest, acc.push(c));
            assert(acc.push(c) + rest =~= acc + cs);
        }
    }
}

use crate::model::serialize::ser_items;
use crate::model::serialize::ser_entries;
use crate::model::serialize::entry_text;
use crate::parser::grammar::has_key;
use crate::parser::grammar::spec_arr_items;
use crate::parser::grammar::spec_obj_items;
use crate::parser::grammar::spec_parse_array;
use crate::parser::grammar::spec_parse_object;
use crate::parser::grammar::spec_parse_value;

/// What each candidate parser does on input it does not begin: it reports
/// a fallback signal the dispatcher may pass over.
pub proof fn lemma_fallbacks(s: Seq<char>, i: int)
    requires
        0 <= i < s.len(),
        !is_ws(s[i]),
    ensures
        s[i] != '{' ==> (spec_parse_object(s, i) matches Err(e) && e.fallback),
        s[i] != '[' ==> (spec_parse_array(s, i) matches Err(e) && e.fallback),
        s[i] != '"' ==> (spec_parse_string(s, i) matches Err(e) && e.fallback),
        (s[i] != '-' && !is_digit(s[i]) && s[i] != '.') ==> (spec_parse_number(s, i) matches Err(
            e,
        ) && e.fallback),
        (s[i] != 't' && s[i] != 'f') ==> (spec_parse_bool(s, i) matches Err(e) && e.fallback),
        s[i] != 'n' ==> (spec_parse_null(s, i) matches Err(e) && e.fallback),
{
    assert(ws_end(s, i) == i);
}

/// A serialized string literal embedded in a larger text parses back to
/// its payload.
pub proof fn lemma_string_embed(s: Seq<char>, i: int, k: Seq<char>)
    requires
        0 <= i,
        i + ser(ValueModel::String(k)).len() <= s.len(),
        s.subrange(i, i + ser(ValueModel::String(k)).len()) == ser(ValueModel::String(k)),
    ensures
        spec_parse_string(s, i) == Ok::<(ValueModel, int), ErrModel>(
            (ValueModel::String(k), i + ser(ValueModel::String(k)).len()),
        ),
{
    let t = ser(ValueModel::String(k));
    let esc = json_escape(k);
    assert(t == seq!['"'] + esc + seq!['"']);
    assert(t.len() == esc.len() + 2);
    assert(forall|d: int| 0 <= d < t.len() ==> s[i + d] == t[d]);
    assert(t[0] == '"');
    assert(s[i] == t[0]) by {
        assert(s[i + 0] == t[0]);
    }
    assert(ws_end(s, i) == i);
    assert(forall|d: int| 0 <= d < esc.len() ==> t[1 + d] == esc[d]);
    assert(forall|d: int| 0 <= d < esc.len() ==> s[i + 1 + d] == esc[d]);
    assert(s.subrange(i + 1, i + 1 + esc.len()) =~= esc);
    assert(t[1 + esc.len() as int] == '"');
    assert(s[i + 1 + esc.len()] == '"');
    lemma_string_body_embed(s, i + 1, k, Seq::empty());
    assert(Seq::empty() + k =~= k);
}

/// A serialized string literal parses as a value: the object and array
/// candidates fall past it, and the string parser takes it.
pub proof fn lemma_value_string_embed(s: Seq<char>, i: int, k: Seq<char>)
    requires
        0 <= i,
        i + ser(ValueModel::String(k)).len() <= s.len(),
        s.subrange(i, i + ser(ValueModel::String(k)).len()) == ser(ValueModel::String(k)),
    ensures
        spec_parse_value(s, i) == Ok::<(ValueModel, int), ErrModel>(
            (ValueModel::String(k), i + ser(ValueModel::String(k)).len()),
        ),
{
    let t = ser(ValueModel::String(k));
    assert(t[0] == '"');
    assert(s[i] == t[0]) by {
        assert(s[i + 0] == t[0]);
    }
    lemma_fallbacks(s, i);
    lemma_string_embed(s, i, k);
}

/// The first character of a serialized well-formed value: never
/// whitespace, and never a separator or closer.
pub proof fn lemma_ser_head(c: ValueModel)
    requires
        wf_model(c),
    ensures
        ser(c).len() > 0,
        !is_ws(ser(c)[0]),
        ser(c)[0] != ']',
        ser(c)[0] != '}',
        ser(c)[0] != ',',
        ser(c)[0] != ':',
{
    match c {
        ValueModel::Null => {
            assert(ser(c)[0] == 'n');
        },
        ValueModel::Bool(b) => {
            if b {
                assert(ser(c)[0] == 't');
            } else {
                assert(ser(c)[0] == 'f');
            }
        },
        ValueModel::Number(t) => {
            lemma_num_token_shape(t);
        },
        ValueModel::String(k) => {
            assert(ser(c)[0] == '"');
        },
        ValueModel::Array(es) => {
            assert(ser(c)[0] == '[');
        },
        ValueModel::Object(en) => {
            assert(ser(c)[0] == '{');
        },
    }
}

/// A serialized well-formed value embedded in a larger text parses back to
/// itself whenever a boundary character follows.
pub proof fn lemma_value_embed(s: Seq<char>, i: int, c: ValueModel)
    requires
        wf_model(c),
        0 <= i,
        i + ser(c).len() <= s.len(),
        s.subrange(i, i + ser(c).len()) == ser(c),
        boundary_ok(s, i + ser(c).len()),
    ensures
        spec_parse_value(s, i) == Ok::<(ValueModel, int), ErrModel>((c, i + ser(c).len())),
    decreases c,
{
    let t = ser(c);
    let e = i + t.len();
    lemma_ser_head(c);
    assert(forall|d: int| 0 <= d < t.len() ==> s[i + d] == t[d]);
    assert(s[i] == t[0]) by {
        assert(s[i + 0] == t[0]);
    }
    assert(!is_ws(s[i]));
    match c {
        ValueModel::Null => {
            assert(s[i] == 'n');
            lemma_fallbacks(s, i);
            lemma_null_embed(s, i);
        },
        ValueModel::Bool(b) => {
            assert(s[i] == 't' || s[i] == 'f');
            lemma_fallbacks(s, i);
            lemma_bool_embed(s, i, b);
        },
        ValueModel::Number(tt) => {
            assert(s[i] == '-' || is_digit(s[i]));
            lemma_fallbacks(s, i);
            assert(s.subrange(i, i + tt.len()) =~= tt);
            lemma_number_embed(s, i, tt);
        },
        ValueModel::String(k) => {
            lemma_value_string_embed(s, i, k);
        },
        ValueModel::Array(es) => {
            assert(s[i] == '[');
            lemma_fallbacks(s, i);
            let items = ser_items(es);
            assert(t == seq!['['] + items + seq![']']);
            assert(forall|d: int| 0 <= d < items.len() ==> t[1 + d] == items[d]);
            assert(forall|d: int| 0 <= d < items.len() ==> s[i + 1 + d] == items[d]);
            assert(s.subrange(i + 1, i + 1 + items.len()) =~= items);
            assert(t[1 + items.len() as int] == ']');
            assert(s[i + 1 + items.len()] == ']');
            lemma_arr_items_embed(s, i + 1, Seq::empty(), es);
            assert(Seq::empty() + es =~= es);
            assert(ws_end(s, i) == i);
            assert(spec_parse_array(s, i) == Ok::<(ValueModel, int), ErrModel>((c, e)));
        },
        ValueModel::Object(en) => {
            assert(s[i] == '{');
            let ents = ser_entries(en);
            assert(t == seq!['{'] + ents + seq!['}']);
            assert(forall|d: int| 0 <= d < ents.len() ==> t[1 + d] == ents[d]);
            assert(forall|d: int| 0 <= d < ents.len() ==> s[i + 1 + d] == ents[d]);
            assert(s.subrange(i + 1, i + 1 + ents.len()) =~= ents);
            assert(t[1 + ents.len() as int] == '}');
            assert(s[i + 1 + ents.len()] == '}');
            lemma_obj_items_embed(s, i + 1, Seq::empty(), en);
            assert(Seq::empty() + en =~= en);
            assert(ws_end(s, i) == i);
            assert(spec_parse_object(s, i) == Ok::<(ValueModel, int), ErrModel>((c, e)));
        },
    }
}

/// The serialized elements of an array, read back one at a time, rebuild
/// the element sequence.
pub proof fn lemma_arr_items_embed(
    s: Seq<char>,
    j: int,
    done: Seq<ValueModel>,
    rest: Seq<ValueModel>,
)
    requires
        wf_seq(rest),
        0 <= j,
        j + ser_items(rest).len() + 1 <= s.len(),
        s.subrange(j, j + ser_items(rest).len()) == ser_items(rest),
        s[j + ser_items(rest).len()] == ']',
        boundary_ok(s, j + ser_items(rest).len() + 1),
    ensures
        spec_arr_items(s, j, done) == Ok::<(ValueModel, int), ErrModel>(
            (ValueModel::Array(done + rest), j + ser_items(rest).len() + 1),
        ),
    decreases rest,
{
    let items = ser_items(rest);
    assert(forall|d: int| 0 <= d < items.len() ==> s[j + d] == items[d]);
    if rest.len() == 0 {
        assert(items.len() == 0);
        assert(s[j] == ']');
        assert(ws_end(s, j) == j);
        assert(done + rest =~= done);
    } else {
        let e0 = rest[0];
        let t0 = ser(e0);
        let drop = rest.drop_first();
        assert(wf_model(e0) && wf_seq(drop));
        lemma_ser_head(e0);
        if rest.len() == 1 {
            assert(items == t0);
        } else {
            assert(items == t0 + seq![','] + ser_items(drop));
        }
        assert(forall|d: int| 0 <= d < t0.len() ==> items[d] == t0[d]);
        assert(forall|d: int| 0 <= d < t0.len() ==> s[j + d] == t0[d]);
        assert(s.subrange(j, j + t0.len()) =~= t0);
        assert(s[j] == t0[0]) by {
            assert(s[j + 0] == t0[0]);
        }
        assert(!is_ws(s[j]) && s[j] != ']');
        assert(ws_end(s, j) == j);
        let vend = j + t0.len();
        if rest.len() == 1 {
            assert(s[vend] == ']');
            lemma_value_embed(s, j, e0);
            assert(ws_end(s, vend) == vend);
            assert(spec_arr_items(s, j, done) == Ok::<(ValueModel, int), ErrModel>(
                (ValueModel::Array(done.push(e0)), vend + 1),
            ));
            assert(done.push(e0) =~= done + rest);
        } else {
            assert(items[t0.len() as int] == ',');
            assert(s[vend] == ',');
            lemma_value_embed(s, j, e0);
            assert(ws_end(s, vend) == vend);
            let j2 = vend + 1;
            assert(forall|d: int|
                0 <= d < ser_items(drop).len() ==> items[t0.len() + 1 + d] == ser_items(
                    drop,
                )[d]);
            assert(forall|d: int|
                0 <= d < ser_items(drop).len() ==> s[j2 + d] == ser_items(drop)[d]);
            assert(s.subrange(j2, j2 + ser_items(drop).len()) =~= ser_items(drop));
            assert(j2 + ser_items(drop).len() == j + items.len());
            lemma_arr_items_embed(s, j2, done.push(e0), drop);
            assert(drop.len() > 0);
            lemma_ser_head(drop[0]);
            assert(ser_items(drop)[0] == ser(drop[0])[0]);
            assert(s[j2] == ser_items(drop)[0]) by {
                assert(s[j2 + 0] == ser_items(drop)[0]);
            }
            assert(!is_ws(s[j2]) && s[j2] != ']');
            assert(ws_end(s, j2) == j2);
            assert(done.push(e0) + drop =~= done + rest);
        }
    }
}

/// The serialized entries of an object, read back one at a time, rebuild
/// the entry sequence; distinct keys never trip the duplicate check.
#[verifier::rlimit(100)]
#[verifier::spinoff_prover]
pub proof fn lemma_obj_items_embed(
    s: Seq<char>,
    j: int,
    done: Seq<(Seq<char>, ValueModel)>,
    rest: Seq<(Seq<char>, ValueModel)>,
)
    requires
        wf_entries(rest),
        keys_unique(done + rest),
        0 <= j,
        j + ser_entries(rest).len() + 1 <= s.len(),
        s.subrange(j, j + ser_entries(rest).len()) == ser_entries(rest),
        s[j + ser_entries(rest).len()] == '}',
        boundary_ok(s, j + ser_entries(rest).len() + 1),
    ensures
        spec_obj_items(s, j, done) == Ok::<(ValueModel, int), ErrModel>(
            (ValueModel::Object(done + rest), j + ser_entries(rest).len() + 1),
        ),
    decreases rest,
{
    let ents = ser_entries(rest);
    assert(forall|d: int| 0 <= d < ents.len() ==> s[j + d] == ents[d]);
    if rest.len() == 0 {
        assert(ents.len() == 0);
        assert(s[j] == '}');
        assert(ws_end(s, j) == j);
        assert(done + rest =~= done);
    } else {
        let e0 = rest[0];
        let key = e0.0;
        let val = e0.1;
        let et = entry_text(e0);
        let drop = rest.drop_first();
        assert(wf_model(val) && wf_entries(drop));
        if rest.len() == 1 {
            assert(ents == et);
        } else {
            assert(ents == et + seq![','] + ser_entries(drop));
        }
        assert(forall|d: int| 0 <= d < et.len() ==> ents[d] == et[d]);
        assert(forall|d: int| 0 <= d < et.len() ==> s[j + d] == et[d]);
        // The entry's text opens with the serialized key string, then a
        // colon, then the serialized value.
        let kt = ser(ValueModel::String(key));
        let esc = json_escape(key);
        assert(et == seq!['"'] + esc + seq!['"', ':'] + ser(val));
        assert(kt == seq!['"'] + esc + seq!['"']);
        assert(kt.len() == esc.len() + 2);
        assert(et.len() == esc.len() + 3 + ser(val).len());
        assert(forall|d: int| 0 <= d < kt.len() ==> et[d] == kt[d]);
        assert(forall|d: int| 0 <= d < kt.len() ==> s[j + d] == kt[d]);
        assert(s.subrange(j, j + kt.len()) =~= kt);
        assert(s[j] == '"') by {
            assert(s[j + 0] == kt[0]);
        }
        assert(!is_ws(s[j]) && s[j] != '}');
        assert(ws_end(s, j) == j);
        lemma_value_string_embed(s, j, key);
        let kend = j + kt.len();
        assert(et[kt.len() as int] == ':');
        assert(s[kend] == ':');
        assert(ws_end(s, kend) == kend);
        let p = kend + 1;
        assert(forall|d: int| 0 <= d < ser(val).len() ==> et[kt.len() + 1 + d] == ser(val)[d]);
        assert(forall|d: int| 0 <= d < ser(val).len() ==> s[p + d] == ser(val)[d]);
        assert(s.subrange(p, p + ser(val).len()) =~= ser(val));
        let vend = p + ser(val).len();
        assert(vend == j + et.len());
        lemma_ser_head(val);
        assert(s[p] == ser(val)[0]) by {
            assert(s[p + 0] == ser(val)[0]);
        }
        assert(ws_end(s, p) == p);
        assert(!has_key(done, key)) by {
            if has_key(done, key) {
                let idx = choose|idx: int| 0 <= idx < done.len() && done[idx].0 == key;
                assert((done + rest)[idx].0 == key);
                assert((done + rest)[done.len() as int].0 == key);
            }
        }
        if rest.len() == 1 {
            assert(s[vend] == '}');
            lemma_value_embed(s, p, val);
            assert(ws_end(s, vend) == vend);
            assert(spec_obj_items(s, j, done) == Ok::<(ValueModel, int), ErrModel>(
                (ValueModel::Object(done.push(e0)), vend + 1),
            ));
            assert(done.push(e0) =~= done + rest);
        } else {
            assert(ents[et.len() as int] == ',');
            assert(s[vend] == ',');
            lemma_value_embed(s, p, val);
            assert(ws_end(s, vend) == vend);
            let j2 = vend + 1;
            assert(forall|d: int|
                0 <= d < ser_entries(drop).len() ==> ents[et.len() + 1 + d] == ser_entries(
                    drop,
                )[d]);
            assert(forall|d: int|
                0 <= d < ser_entries(drop).len() ==> s[j2 + d] == ser_entries(drop)[d]);
            assert(s.subrange(j2, j2 + ser_entries(drop).len()) =~= ser_entries(drop));
            assert(j2 + ser_entries(drop).len() == j + ents.len());
            assert(done + rest =~= done.push(e0) + drop);
            lemma_obj_items_embed(s, j2, done.push(e0), drop);
            assert(drop.len() > 0);
            assert(ser_entries(drop)[0] == entry_text(drop[0])[0]);
            assert(entry_text(drop[0])[0] == '"');
            assert(s[j2] == ser_entries(drop)[0]) by {
                assert(s[j2 + 0] == ser_entries(drop)[0]);
            }
            assert(!is_ws(s[j2]) && s[j2] != '}');
            assert(ws_end(s, j2) == j2);
            assert(done.push(e0) + drop =~= done + rest);
        }
    }
}

/// Digit scanning inside a window of the input mirrors digit scanning in
/// the window taken alone: the standalone scan stops at the window's end.
pub proof fn lemma_digits_end_restrict(s: Seq<char>, t: int, jx: int, a: int)
    requires
        0 <= t <= a <= jx <= s.len(),
    ensures
        digits_end(s.subrange(t, jx), a - t) == imin(digits_end(s, a), jx) - t,
    decreases jx - a,
{
    let u = s.subrange(t, jx);
    assert(forall|d: int| 0 <= d < u.len() ==> u[d] == s[t + d]);
    if a == jx {
        assert(digits_end(u, a - t) == u.len());
        lemma_digits_end(s, a);
    } else {
        assert(u[a - t] == s[a]);
        if is_digit(s[a]) {
            lemma_digits_end_restrict(s, t, jx, a + 1);
        } else {
            assert(digits_end(u, a - t) == a - t);
            assert(digits_end(s, a) == a);
        }
    }
}

/// What a successful number parse yields: a payload that is itself a
/// valid number token.
pub proof fn lemma_parse_number_wf(s: Seq<char>, i: int)
    requires
        0 <= i <= s.len(),
    ensures
        spec_parse_number(s, i) matches Ok(p) ==> wf_model(p.0),
{
    if spec_parse_number(s, i) is Ok {
        let t = ws_end(s, i);
        lemma_ws_end(s, i);
        let j0 = if t < s.len() && s[t] == '-' {
            t + 1
        } else {
            t
        };
        assert(j0 < s.len() && is_digit(s[j0]));
        let je = if s[j0] == '0' {
            j0 + 1
        } else {
            digits_end(s, j0)
        };
        lemma_digits_end(s, j0);
        let jf = if je < s.len() && s[je] == '.' {
            digits_end(s, je + 1)
        } else {
            je
        };
        if je < s.len() && s[je] == '.' {
            lemma_digits_end(s, je + 1);
        }
        let k = if jf + 1 < s.len() && (s[jf + 1] == '+' || s[jf + 1] == '-') {
            jf + 2
        } else {
            jf + 1
        };
        let jx = if jf < s.len() && (s[jf] == 'e' || s[jf] == 'E') {
            digits_end(s, k)
        } else {
            jf
        };
        if jf < s.len() && (s[jf] == 'e' || s[jf] == 'E') {
            assert(k <= s.len());
            lemma_digits_end(s, k);
        }
        let u = s.subrange(t, jx);
        assert(forall|d: int| 0 <= d < u.len() ==> u[d] == s[t + d]);
        assert(spec_parse_number(s, i) == Ok::<(ValueModel, int), ErrModel>(
            (ValueModel::Number(u), jx),
        ));
        // Walk the scan again over the payload alone: every step lands on
        // the same characters, and the payload ends exactly where the
        // embedded scan ended.
        assert(!is_ws(u[0])) by {
            assert(u[0] == s[t]);
        }
        assert(ws_end(u, 0) == 0);
        let j0u = if 0 < u.len() && u[0] == '-' {
            1int
        } else {
            0int
        };
        assert(j0u == j0 - t);
        assert(u[j0u] == s[j0]);
        if s[j0] == '0' {
            assert(!(je < s.len() && is_digit(s[je])));
            if je - t < u.len() {
                assert(u[je - t] == s[je]);
                assert(!is_digit(u[je - t]));
            }
        } else {
            lemma_digits_end_restrict(s, t, jx, j0);
            assert(je <= jf <= jx);
            assert(digits_end(u, j0 - t) == je - t);
        }
        let jeu = je - t;
        if je < s.len() && s[je] == '.' {
            assert(jf > je + 1);
            assert(jf <= jx);
            assert(u[jeu] == s[je]);
            lemma_digits_end_restrict(s, t, jx, je + 1);
            assert(digits_end(u, jeu + 1) == jf - t);
        } else {
            if jeu < u.len() {
                assert(u[jeu] == s[je]);
            }
        }
        let jfu = jf - t;
        if jf < s.len() && (s[jf] == 'e' || s[jf] == 'E') {
            assert(jx >= k > jf);
            assert(jfu < u.len());
            assert(u[jfu] == s[jf]);
            if jf + 1 < s.len() && (s[jf + 1] == '+' || s[jf + 1] == '-') {
                assert(u[jfu + 1] == s[jf + 1]);
            } else {
                assert(jfu + 1 < u.len() ==> u[jfu + 1] == s[jf + 1]);
            }
            lemma_digits_end_restrict(s, t, jx, k);
            assert(digits_end(u, k - t) == jx - t);
        } else {
            if jfu < u.len() {
                assert(u[jfu] == s[jf]);
            }
        }
        assert(spec_parse_number(u, 0) == Ok::<(ValueModel, int), ErrModel>(
            (ValueModel::Number(u.subrange(0, u.len() as int)), u.len() as int),
        ));
        assert(u.subrange(0, u.len() as int) =~= u);
    }
}

use crate::model::serialize::canon;
use crate::model::serialize::canon_entries;
use crate::model::serialize::canon_seq;
use crate::model::serialize::insert_entry;
use crate::model::serialize::lemma_canon_entries;
use crate::model::serialize::lemma_canon_seq;
use crate::model::serialize::sort_entries;
use crate::model::serialize::sort_entries_from;
use crate::parser::json::spec_parse_json;
use vstd::multiset::Multiset;

/// Serializing any well-formed value and parsing the result in either
/// mode returns exactly the value that was serialized: the value model's
/// canonical text is a fixed point of the parser.
pub proof fn lemma_serialize_parse_round_trip(m: ValueModel, strict: bool)
    requires
        wf_model(m),
    ensures
        spec_parse_json(ser(m), strict) == Ok::<ValueModel, ErrModel>(m),
{
    let s = ser(m);
    assert(s.subrange(0, s.len() as int) =~= s);
    lemma_value_embed(s, 0, m);
    assert(ws_end(s, s.len() as int) == s.len());
}

/// The keys that stand in an entry sequence, as the parser's lookup sees
/// them: pushing at the front shifts the others.
pub proof fn lemma_has_key_cons(en: Seq<(Seq<char>, ValueModel)>)
    requires
        en.len() > 0,
    ensures
        forall|k: Seq<char>|
            #[trigger] has_key(en, k) <==> (k == en[0].0 || has_key(en.drop_first(), k)),
{
    assert forall|k: Seq<char>|
        #[trigger] has_key(en, k) <==> (k == en[0].0 || has_key(en.drop_first(), k)) by {
        if has_key(en, k) {
            let idx = choose|idx: int| 0 <= idx < en.len() && en[idx].0 == k;
            if idx > 0 {
                assert(en.drop_first()[idx - 1].0 == k);
                assert(has_key(en.drop_first(), k));
            }
        }
        if k == en[0].0 {
            assert(en[0].0 == k);
            assert(has_key(en, k));
        }
        if has_key(en.drop_first(), k) {
            let idx = choose|idx: int|
                0 <= idx < en.drop_first().len() && en.drop_first()[idx].0 == k;
            assert(en[idx + 1].0 == k);
            assert(has_key(en, k));
        }
    }
}

/// What inserting one entry into an ordered entry sequence preserves: the
/// bound keys grow by the new key, and distinct keys, well-formed values
/// and the entry multiset are kept.
pub proof fn lemma_insert_entry_props(
    x: (Seq<char>, ValueModel),
    es: Seq<(Seq<char>, ValueModel)>,
)
    ensures
        forall|k: Seq<char>|
            #[trigger] has_key(insert_entry(x, es), k) <==> (k == x.0 || has_key(es, k)),
        keys_unique(es) && !has_key(es, x.0) ==> keys_unique(insert_entry(x, es)),
        wf_entries(es) && wf_model(x.1) ==> wf_entries(insert_entry(x, es)),
        insert_entry(x, es).to_multiset() == es.to_multiset().insert(x),
    decreases es.len(),
{
    broadcast use vstd::seq_lib::group_to_multiset_ensures;
    broadcast use vstd::multiset::group_multiset_axioms;

    let res = insert_entry(x, es);
    if es.len() == 0 {
        assert(res =~= seq![x]);
        assert(res =~= Seq::<(Seq<char>, ValueModel)>::empty().push(x));
        assert(res.to_multiset() =~= es.to_multiset().insert(x));
        lemma_has_key_cons(res);
        assert(forall|k: Seq<char>| !(#[trigger] has_key(es, k)));
        assert(res.drop_first() =~= es);
        assert(res[0] == x);
        assert(res.len() == 1);
        if wf_model(x.1) {
            assert(wf_entries(res.drop_first()));
            assert(wf_entries(res));
        }
    } else if crate::model::serialize::lex_le(x.0, es[0].0) {
        assert(res == seq![x] + es);
        assert(res.len() == es.len() + 1);
        assert(res[0] == x);
        assert(res.drop_first() =~= es);
        lemma_has_key_cons(res);
        if keys_unique(es) && !has_key(es, x.0) {
            assert forall|q: int, r: int| 0 <= q < r < res.len() implies res[q].0 != res[r].0 by {
                if q == 0 {
                    assert(res[r] == es[r - 1]);
                    if es[r - 1].0 == x.0 {
                        assert(has_key(es, x.0));
                    }
                } else {
                    assert(res[q] == es[q - 1] && res[r] == es[r - 1]);
                }
            }
        }
        if wf_entries(es) && wf_model(x.1) {
            assert(wf_entries(res));
        }
        assert(res =~= es.insert(0, x));
        vstd::seq_lib::lemma_multiset_commutative(seq![x], es);
        assert(seq![x].to_multiset() =~= Multiset::<(Seq<char>, ValueModel)>::empty().insert(
            x,
        )) by {
            assert(seq![x] =~= Seq::<(Seq<char>, ValueModel)>::empty().push(x));
        }
        assert(res.to_multiset() =~= es.to_multiset().insert(x));
    } else {
        let drop = es.drop_first();
        lemma_insert_entry_props(x, drop);
        assert(res == seq![es[0]] + insert_entry(x, drop));
        assert(res.len() == insert_entry(x, drop).len() + 1);
        assert(res[0] == es[0]);
        assert(res.drop_first() =~= insert_entry(x, drop));
        lemma_has_key_cons(res);
        lemma_has_key_cons(es);
        if keys_unique(es) && !has_key(es, x.0) {
            assert(keys_unique(drop)) by {
                assert(forall|q: int, r: int|
                    0 <= q < r < drop.len() ==> drop[q] == es[q + 1] && drop[r] == es[r + 1]);
            }
            assert(!has_key(drop, x.0));
            assert(keys_unique(insert_entry(x, drop)));
            assert forall|q: int, r: int| 0 <= q < r < res.len() implies res[q].0 != res[r].0 by {
                if q == 0 {
                    assert(res[r] == insert_entry(x, drop)[r - 1]);
                    if res[r].0 == es[0].0 {
                        assert(has_key(insert_entry(x, drop), es[0].0)) by {
                            assert(insert_entry(x, drop)[r - 1].0 == es[0].0);
                        }
                        if es[0].0 == x.0 {
                            assert(es[0].0 == x.0 && has_key(es, x.0));
                        } else {
                            assert(has_key(drop, es[0].0));
                            let idx = choose|idx: int|
                                0 <= idx < drop.len() && drop[idx].0 == es[0].0;
                            assert(es[idx + 1].0 == es[0].0);
                        }
                    }
                } else {
                    assert(res[q] == insert_entry(x, drop)[q - 1] && res[r] == insert_entry(
                        x,
                        drop,
                    )[r - 1]);
                }
            }
        }
        if wf_entries(es) && wf_model(x.1) {
            assert(wf_entries(insert_entry(x, drop)));
            assert(wf_entries(res));
        }
        vstd::seq_lib::lemma_multiset_commutative(seq![es[0]], insert_entry(x, drop));
        vstd::seq_lib::lemma_multiset_commutative(seq![es[0]], drop);
        assert(es =~= seq![es[0]] + drop);
        assert(res.to_multiset() =~= es.to_multiset().insert(x));
    }
}

/// What folding entries into an ordered accumulator preserves: the bound
/// keys are the union, and distinct keys, well-formed values and the
/// combined entry multiset are kept.
pub proof fn lemma_sort_from_props(
    acc: Seq<(Seq<char>, ValueModel)>,
    es: Seq<(Seq<char>, ValueModel)>,
)
    requires
        wf_entries(acc),
        keys_unique(acc),
        wf_entries(es),
        keys_unique(es),
        forall|k: Seq<char>| #[trigger] has_key(acc, k) ==> !has_key(es, k),
    ensures
        wf_entries(sort_entries_from(acc, es)),
        keys_unique(sort_entries_from(acc, es)),
        forall|k: Seq<char>|
            #[trigger] has_key(sort_entries_from(acc, es), k) <==> (has_key(acc, k) || has_key(
                es,
                k,
            )),
        sort_entries_from(acc, es).to_multiset() == acc.to_multiset().add(es.to_multiset()),
    decreases es.len(),
{
    broadcast use vstd::seq_lib::group_to_multiset_ensures;
    broadcast use vstd::multiset::group_multiset_axioms;

    if es.len() == 0 {
        assert(forall|k: Seq<char>| !(#[trigger] has_key(es, k)));
        assert(es.to_multiset() =~= Multiset::<(Seq<char>, ValueModel)>::empty());
        assert(acc.to_multiset().add(es.to_multiset()) =~= acc.to_multiset());
    } else {
        let x = es[0];
        let drop = es.drop_first();
        lemma_has_key_cons(es);
        assert(has_key(es, x.0)) by {
            assert(es[0].0 == x.0);
        }
        assert(!has_key(acc, x.0));
        lemma_insert_entry_props(x, acc);
        let acc2 = insert_entry(x, acc);
        assert(keys_unique(drop)) by {
            assert(forall|q: int, r: int|
                0 <= q < r < drop.len() ==> drop[q] == es[q + 1] && drop[r] == es[r + 1]);
        }
        assert(wf_entries(drop) && wf_model(x.1));
        assert(forall|k: Seq<char>| #[trigger] has_key(acc2, k) ==> !has_key(drop, k)) by {
            assert forall|k: Seq<char>| #[trigger] has_key(acc2, k) implies !has_key(drop, k) by {
                if has_key(drop, k) {
                    assert(has_key(es, k));
                    if k == x.0 {
                        let idx = choose|idx: int|
                            0 <= idx < drop.len() && drop[idx].0 == k;
                        assert(es[idx + 1].0 == k);
                        assert(es[0].0 == k);
                    }
                }
            }
        }
        lemma_sort_from_props(acc2, drop);
        assert(sort_entries_from(acc, es) == sort_entries_from(acc2, drop));
        assert forall|k: Seq<char>|
            #[trigger] has_key(sort_entries_from(acc, es), k) <==> (has_key(acc, k) || has_key(
                es,
                k,
            )) by {}
        assert(es =~= seq![x] + drop);
        vstd::seq_lib::lemma_multiset_commutative(seq![x], drop);
        assert(seq![x].to_multiset() =~= Multiset::<(Seq<char>, ValueModel)>::empty().insert(
            x,
        )) by {
            assert(seq![x] =~= Seq::<(Seq<char>, ValueModel)>::empty().push(x));
        }
        assert(sort_entries_from(acc, es).to_multiset() =~= acc.to_multiset().add(
            es.to_multiset(),
        ));
    }
}

/// Ordering an object's entries by key only rearranges them: the entry
/// multiset is unchanged.
pub proof fn lemma_sort_entries_multiset(es: Seq<(Seq<char>, ValueModel)>)
    requires
        wf_entries(es),
        keys_unique(es),
    ensures
        sort_entries(es).to_multiset() == es.to_multiset(),
{
    broadcast use vstd::seq_lib::group_to_multiset_ensures;
    broadcast use vstd::multiset::group_multiset_axioms;

    let acc = Seq::<(Seq<char>, ValueModel)>::empty();
    assert(forall|k: Seq<char>| !(#[trigger] has_key(acc, k)));
    lemma_sort_from_props(acc, es);
    assert(acc.to_multiset() =~= Multiset::<(Seq<char>, ValueModel)>::empty());
    assert(acc.to_multiset().add(es.to_multiset()) =~= es.to_multiset());
}

/// The canonical form of a well-formed value is well-formed: ordering
/// entries by key keeps keys distinct and values valid.
pub proof fn lemma_canon_wf(m: ValueModel)
    requires
        wf_model(m),
    ensures
        wf_model(canon(m)),
    decreases m,
{
    match m {
        ValueModel::Null => {},
        ValueModel::Bool(_) => {},
        ValueModel::Number(_) => {},
        ValueModel::String(_) => {},
        ValueModel::Array(es) => {
            lemma_canon_wf_seq(es);
        },
        ValueModel::Object(en) => {
            lemma_canon_wf_entries(en);
            lemma_canon_entries(en);
            let ce = canon_entries(en);
            assert(keys_unique(ce));
            let acc = Seq::<(Seq<char>, ValueModel)>::empty();
            assert(forall|k: Seq<char>| !(#[trigger] has_key(acc, k)));
            lemma_sort_from_props(acc, ce);
            assert(wf_model(canon(m))) by {
                assert(canon(m) == ValueModel::Object(sort_entries(ce)));
                assert(wf_entries(sort_entries(ce)));
                assert(keys_unique(sort_entries(ce)));
            }
        },
    }
}

pub proof fn lemma_canon_wf_seq(es: Seq<ValueModel>)
    requires
        wf_seq(es),
    ensures
        wf_seq(canon_seq(es)),
    decreases es,
{
    lemma_canon_seq(es);
    if es.len() > 0 {
        lemma_canon_wf(es[0]);
        lemma_canon_wf_seq(es.drop_first());
        assert(canon_seq(es)[0] == canon(es[0]));
        assert(canon_seq(es).drop_first() =~= canon_seq(es.drop_first()));
    }
}

pub proof fn lemma_canon_wf_entries(en: Seq<(Seq<char>, ValueModel)>)
    requires
        wf_entries(en),
    ensures
        wf_entries(canon_entries(en)),
    decreases en,
{
    lemma_canon_entries(en);
    if en.len() > 0 {
        lemma_canon_wf(en[0].1);
        lemma_canon_wf_entries(en.drop_first());
        assert(canon_entries(en)[0] == (en[0].0, canon(en[0].1)));
        assert(canon_entries(en).drop_first() =~= canon_entries(en.drop_first()));
    }
}

pub proof fn lemma_wf_seq_snoc(es: Seq<ValueModel>, x: ValueModel)
    ensures
        wf_seq(es.push(x)) == (wf_seq(es) && wf_model(x)),
    decreases es.len(),
{
    let t = es.push(x);
    if es.len() == 0 {
        assert(t[0] == x);
        assert(t.drop_first() =~= es);
    } else {
        assert(t[0] == es[0]);
        assert(t.drop_first() =~= es.drop_first().push(x));
        lemma_wf_seq_snoc(es.drop_first(), x);
    }
}

pub proof fn lemma_wf_entries_snoc(en: Seq<(Seq<char>, ValueModel)>, x: (Seq<char>, ValueModel))
    ensures
        wf_entries(en.push(x)) == (wf_entries(en) && wf_model(x.1)),
    decreases en.len(),
{
    let t = en.push(x);
    if en.len() == 0 {
        assert(t[0] == x);
        assert(t.drop_first() =~= en);
    } else {
        assert(t[0] == en[0]);
        assert(t.drop_first() =~= en.drop_first().push(x));
        lemma_wf_entries_snoc(en.drop_first(), x);
    }
}

/// Every value the dispatcher parses successfully is well-formed: its
/// numbers carry valid literals and its objects carry distinct keys.
pub proof fn lemma_parse_value_wf(s: Seq<char>, i: int)
    requires
        0 <= i <= s.len(),
    ensures
        spec_parse_value(s, i) matches Ok(p) ==> wf_model(p.0),
    decreases imax(s.len() - i, 0), 3int,
{
    match spec_parse_object(s, i) {
        Ok(p) => {
            lemma_parse_object_wf(s, i);
        },
        Err(e1) => {
            if e1.fallback {
                match spec_parse_array(s, i) {
                    Ok(p) => {
                        lemma_parse_array_wf(s, i);
                    },
                    Err(e2) => {
                        if e2.fallback {
                            lemma_parse_number_wf(s, i);
                        }
                    },
                }
            }
        },
    }
}

pub proof fn lemma_parse_array_wf(s: Seq<char>, i: int)
    requires
        0 <= i <= s.len(),
    ensures
        spec_parse_array(s, i) matches Ok(p) ==> wf_model(p.0),
    decreases imax(s.len() - i, 0), 2int,
{
    let t = crate::text::clamp(ws_end(s, i), i, s.len() as int);
    if t < s.len() && s[t] == '[' {
        lemma_arr_items_wf(s, t + 1, Seq::empty());
    }
}

pub proof fn lemma_parse_object_wf(s: Seq<char>, i: int)
    requires
        0 <= i <= s.len(),
    ensures
        spec_parse_object(s, i) matches Ok(p) ==> wf_model(p.0),
    decreases imax(s.len() - i, 0), 2int,
{
    let t = crate::text::clamp(ws_end(s, i), i, s.len() as int);
    if t < s.len() && s[t] == '{' {
        lemma_obj_items_wf(s, t + 1, Seq::empty());
    }
}

pub proof fn lemma_arr_items_wf(s: Seq<char>, j: int, acc: Seq<ValueModel>)
    requires
        0 <= j,
        wf_seq(acc),
    ensures
        spec_arr_items(s, j, acc) matches Ok(p) ==> wf_model(p.0),
    decreases imax(s.len() - j, 0), 4int,
{
    let k = crate::text::clamp(ws_end(s, j), j, s.len() as int);
    if k < s.len() && s[k] == ']' {
        assert(wf_model(ValueModel::Array(acc)));
    } else {
        match spec_parse_value(s, k) {
            Err(_) => {},
            Ok(vp) => {
                lemma_parse_value_wf(s, k);
                let j2 = crate::text::clamp(vp.1, k + 1, s.len() as int);
                let m = crate::text::clamp(ws_end(s, j2), j2, s.len() as int);
                lemma_wf_seq_snoc(acc, vp.0);
                if m < s.len() && s[m] == ',' {
                    let n = crate::text::clamp(ws_end(s, m + 1), m + 1, s.len() as int);
                    if !(n < s.len() && s[n] == ']') {
                        lemma_arr_items_wf(s, m + 1, acc.push(vp.0));
                    }
                }
            },
        }
    }
}

pub proof fn lemma_obj_items_wf(s: Seq<char>, j: int, acc: Seq<(Seq<char>, ValueModel)>)
    requires
        0 <= j,
        keys_unique(acc),
        wf_entries(acc),
    ensures
        spec_obj_items(s, j, acc) matches Ok(p) ==> wf_model(p.0),
    decreases imax(s.len() - j, 0), 4int,
{
    let k = crate::text::clamp(ws_end(s, j), j, s.len() as int);
    if k < s.len() && s[k] == '}' {
        assert(wf_model(ValueModel::Object(acc)));
    } else {
        match spec_parse_value(s, k) {
            Err(_) => {},
            Ok(kp) => {
                match kp.0 {
                    ValueModel::String(key) => {
                        let j2 = crate::text::clamp(kp.1, k + 1, s.len() as int);
                        let m = crate::text::clamp(ws_end(s, j2), j2, s.len() as int);
                        if m < s.len() && s[m] == ':' {
                            let p = crate::text::clamp(ws_end(s, m + 1), m + 1, s.len() as int);
                            match spec_parse_value(s, p) {
                                Err(_) => {},
                                Ok(vp) => {
                                    lemma_parse_value_wf(s, p);
                                    if !has_key(acc, key) {
                                        let acc2 = acc.push((key, vp.0));
                                        assert(keys_unique(acc2)) by {
                                            assert forall|q: int, r: int|
                                                0 <= q < r < acc2.len() implies acc2[q].0
                                                != acc2[r].0 by {
                                                if r == acc.len() {
                                                    if acc2[q].0 == key {
                                                        assert(acc[q].0 == key);
                                                        assert(has_key(acc, key));
                                                    }
                                                }
                                            }
                                        }
                                        lemma_wf_entries_snoc(acc, (key, vp.0));
                                        let j3 = crate::text::clamp(
                                            vp.1,
                                            p + 1,
                                            s.len() as int,
                                        );
                                        let j4 = crate::text::clamp(
                                            ws_end(s, j3),
                                            j3,
                                            s.len() as int,
                                        );
                                        if j4 < s.len() && s[j4] == ',' {
                                            let n = crate::text::clamp(
                                                ws_end(s, j4 + 1),
                                                j4 + 1,
                                                s.len() as int,
                                            );
                                            if !(n < s.len() && s[n] == '}') {
                                                lemma_obj_items_wf(s, j4 + 1, acc2);
                                            }
                                        }
                                    }
                                },
                            }
                        }
                    },
                    _ => {},
                }
            },
        }
    }
}

/// Every value a whole-document parse returns is well-formed.
pub proof fn lemma_parse_json_wf(s: Seq<char>, strict: bool)
    ensures
        spec_parse_json(s, strict) matches Ok(m) ==> wf_model(m),
{
    lemma_parse_value_wf(s, 0);
}

/// The round-trip law for the serializer as `to_json` performs it:
/// `to_json` writes the canonical text of a value, and parsing that text
/// in either mode returns the value's canonical form, which differs from
/// the original only in the order of object entries.
pub proof fn lemma_to_json_parse_round_trip(m: ValueModel, strict: bool)
    requires
        wf_model(m),
    ensures
        spec_parse_json(ser(canon(m)), strict) == Ok::<ValueModel, ErrModel>(canon(m)),
{
    lemma_canon_wf(m);
    lemma_serialize_parse_round_trip(canon(m), strict);
}

/// Reparsing what a parsed value serializes to: any value a parse
/// returns survives a serialize-and-parse cycle, coming back in its
/// canonical form.
pub proof fn lemma_reparse_canonical(s: Seq<char>, strict: bool, strict2: bool)
    ensures
        spec_parse_json(s, strict) matches Ok(m) ==> spec_parse_json(ser(canon(m)), strict2)
            == Ok::<ValueModel, ErrModel>(canon(m)),
{
    if spec_parse_json(s, strict) is Ok {
        let m = spec_parse_json(s, strict)->Ok_0;
        lemma_parse_json_wf(s, strict);
        lemma_to_json_parse_round_trip(m, strict2);
    }
}

} // verus!
