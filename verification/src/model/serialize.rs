use vstd::prelude::*;

verus! {

use vstd::string::StrSliceExecFns;
use vstd::string::StringExecFns;
use crate::model::json_value::JsonValue;
use crate::model::json_value::ValueModel;
use crate::model::json_value::jv_view;
use crate::model::json_value::jv_view_seq;
use crate::model::json_value::jv_view_entries;
use crate::text::chars_of;
use crate::text::hex_digit;
use crate::text::hex_text4;
use crate::text::push_char;

broadcast use {vstd::std_specs::vec::group_vec_axioms, vstd::seq::group_seq_axioms};

/// Lexicographic order on texts, by character code.
pub open spec fn lex_le(a: Seq<char>, b: Seq<char>) -> bool
    decreases a.len(),
{
    if a.len() == 0 {
        true
    } else if b.len() == 0 {
        false
    } else if (a[0] as u32) < (b[0] as u32) {
        true
    } else if (a[0] as u32) > (b[0] as u32) {
        false
    } else {
        lex_le(a.drop_first(), b.drop_first())
    }
}

/// Whether a character is a Unicode control character.
pub open spec fn is_ctl(c: char) -> bool {
    (c as u32) < 0x20 || (0x7f <= (c as u32) && (c as u32) <= 0x9f)
}

/// How one character is written inside a serialized string literal:
/// quote, backslash and the common control characters by name, any other
/// control character as a four-digit lowercase `\u` escape, and everything
/// else verbatim.
pub open spec fn json_escape_char(c: char) -> Seq<char> {
    if c == '"' {
        seq!['\\', '"']
    } else if c == '\\' {
        seq!['\\', '\\']
    } else if c == '\n' {
        seq!['\\', 'n']
    } else if c == '\r' {
        seq!['\\', 'r']
    } else if c == '\t' {
        seq!['\\', 't']
    } else if c == '\u{0008}' {
        seq!['\\', 'b']
    } else if c == '\u{000C}' {
        seq!['\\', 'f']
    } else if is_ctl(c) {
        seq!['\\', 'u'] + hex_text4(c as u32 as int)
    } else {
        seq![c]
    }
}

/// The serialized body of a string literal.
pub open spec fn json_escape(s: Seq<char>) -> Seq<char>
    decreases s.len(),
{
    if s.len() == 0 {
        Seq::empty()
    } else {
        json_escape_char(s[0]) + json_escape(s.drop_first())
    }
}

pub proof fn lemma_json_escape_push(s: Seq<char>, c: char)
    ensures
        json_escape(s.push(c)) == json_escape(s) + json_escape_char(c),
    decreases s.len(),
{
    reveal_with_fuel(json_escape, 3);
    let t = s.push(c);
    if s.len() == 0 {
        assert(t[0] == c);
        assert(t.drop_first() =~= Seq::<char>::empty());
        assert(json_escape(t) =~= json_escape(s) + json_escape_char(c));
    } else {
        assert(t[0] == s[0]);
        assert(t.drop_first() =~= s.drop_first().push(c));
        lemma_json_escape_push(s.drop_first(), c);
        assert(json_escape(t) =~= json_escape(s) + json_escape_char(c));
    }
}

/// The canonical text of a JSON value: `null`, `true` and `false` stand
/// for themselves, a number is its literal text, a string is quoted and
/// escaped, an array is bracketed with its elements comma-joined in order,
/// and an object is braced with its entries comma-joined in stored order.
pub open spec fn ser(m: ValueModel) -> Seq<char>
    decreases m,
{
    match m {
        ValueModel::Null => seq!['n', 'u', 'l', 'l'],
        ValueModel::Bool(b) => if b {
            seq!['t', 'r', 'u', 'e']
        } else {
            seq!['f', 'a', 'l', 's', 'e']
        },
        ValueModel::Number(t) => t,
        ValueModel::String(s) => seq!['"'] + json_escape(s) + seq!['"'],
        ValueModel::Array(es) => seq!['['] + ser_items(es) + seq![']'],
        ValueModel::Object(en) => seq!['{'] + ser_entries(en) + seq!['}'],
    }
}

/// The comma-joined serialization of a sequence of values.
pub open spec fn ser_items(es: Seq<ValueModel>) -> Seq<char>
    decreases es,
{
    if es.len() == 0 {
        Seq::empty()
    } else if es.len() == 1 {
        ser(es[0])
    } else {
        ser(es[0]) + seq![','] + ser_items(es.drop_first())
    }
}

/// One serialized object entry: the quoted key, a colon, and the value.
pub open spec fn entry_text(e: (Seq<char>, ValueModel)) -> Seq<char>
    decreases e,
{
    seq!['"'] + json_escape(e.0) + seq!['"', ':'] + ser(e.1)
}

/// The comma-joined serialization of a sequence of object entries.
pub open spec fn ser_entries(en: Seq<(Seq<char>, ValueModel)>) -> Seq<char>
    decreases en,
{
    if en.len() == 0 {
        Seq::empty()
    } else if en.len() == 1 {
        entry_text(en[0])
    } else {
        entry_text(en[0]) + seq![','] + ser_entries(en.drop_first())
    }
}

/// `x` placed into the ordered entry sequence `es`, before the first entry
/// whose key is not below `x`'s.
pub open spec fn insert_entry(
    x: (Seq<char>, ValueModel),
    es: Seq<(Seq<char>, ValueModel)>,
) -> Seq<(Seq<char>, ValueModel)>
    decreases es.len(),
{
    if es.len() == 0 {
        seq![x]
    } else if lex_le(x.0, es[0].0) {
        seq![x] + es
    } else {
        seq![es[0]] + insert_entry(x, es.drop_first())
    }
}

/// The entries of `es` inserted one after the other into `acc`.
pub open spec fn sort_entries_from(
    acc: Seq<(Seq<char>, ValueModel)>,
    es: Seq<(Seq<char>, ValueModel)>,
) -> Seq<(Seq<char>, ValueModel)>
    decreases es.len(),
{
    if es.len() == 0 {
        acc
    } else {
        sort_entries_from(insert_entry(es[0], acc), es.drop_first())
    }
}

/// The entries of `es` ordered by key.
pub open spec fn sort_entries(es: Seq<(Seq<char>, ValueModel)>) -> Seq<(Seq<char>, ValueModel)> {
    sort_entries_from(Seq::empty(), es)
}

/// The canonical form of a value: every object's entries are ordered by
/// key, recursively. Scalars are unchanged, and array element order is
/// kept.
pub open spec fn canon(m: ValueModel) -> ValueModel
    decreases m,
{
    match m {
        ValueModel::Null => m,
        ValueModel::Bool(_) => m,
        ValueModel::Number(_) => m,
        ValueModel::String(_) => m,
        ValueModel::Array(es) => ValueModel::Array(canon_seq(es)),
        ValueModel::Object(en) => ValueModel::Object(sort_entries(canon_entries(en))),
    }
}

/// Each element of `es` in canonical form.
pub open spec fn canon_seq(es: Seq<ValueModel>) -> Seq<ValueModel>
    decreases es,
{
    if es.len() == 0 {
        Seq::empty()
    } else {
        seq![canon(es[0])] + canon_seq(es.drop_first())
    }
}

/// Each entry of `en` with its value in canonical form.
pub open spec fn canon_entries(en: Seq<(Seq<char>, ValueModel)>) -> Seq<(Seq<char>, ValueModel)>
    decreases en,
{
    if en.len() == 0 {
        Seq::empty()
    } else {
        seq![(en[0].0, canon(en[0].1))] + canon_entries(en.drop_first())
    }
}

pub proof fn lemma_canon_seq(es: Seq<ValueModel>)
    ensures
        canon_seq(es).len() == es.len(),
        forall|i: int| 0 <= i < es.len() ==> canon_seq(es)[i] == canon(es[i]),
    decreases es.len(),
{
    if es.len() > 0 {
        lemma_canon_seq(es.drop_first());
    }
}

pub proof fn lemma_canon_entries(en: Seq<(Seq<char>, ValueModel)>)
    ensures
        canon_entries(en).len() == en.len(),
        forall|i: int|
            0 <= i < en.len() ==> canon_entries(en)[i] == (en[i].0, canon(en[i].1)),
    decreases en.len(),
{
    if en.len() > 0 {
        lemma_canon_entries(en.drop_first());
    }
}

pub proof fn lemma_ser_items_snoc(es: Seq<ValueModel>, x: ValueModel)
    ensures
        ser_items(es.push(x)) == if es.len() == 0 {
            ser(x)
        } else {
            ser_items(es) + seq![','] + ser(x)
        },
    decreases es.len(),
{
    reveal_with_fuel(ser_items, 3);
    let t = es.push(x);
    if es.len() == 0 {
        assert(t[0] == x);
        assert(ser_items(t) =~= ser(x));
    } else {
        assert(t[0] == es[0]);
        assert(t.drop_first() =~= es.drop_first().push(x));
        lemma_ser_items_snoc(es.drop_first(), x);
        if es.len() == 1 {
            assert(ser_items(t) =~= ser_items(es) + seq![','] + ser(x));
        } else {
            assert(ser_items(t) =~= ser_items(es) + seq![','] + ser(x));
        }
    }
}

pub proof fn lemma_ser_entries_snoc(en: Seq<(Seq<char>, ValueModel)>, x: (Seq<char>, ValueModel))
    ensures
        ser_entries(en.push(x)) == if en.len() == 0 {
            entry_text(x)
        } else {
            ser_entries(en) + seq![','] + entry_text(x)
        },
    decreases en.len(),
{
    reveal_with_fuel(ser_entries, 3);
    let t = en.push(x);
    if en.len() == 0 {
        assert(t[0] == x);
        assert(ser_entries(t) =~= entry_text(x));
    } else {
        assert(t[0] == en[0]);
        assert(t.drop_first() =~= en.drop_first().push(x));
        lemma_ser_entries_snoc(en.drop_first(), x);
        assert(ser_entries(t) =~= ser_entries(en) + seq![','] + entry_text(x));
    }
}

pub proof fn lemma_sort_from_push(
    acc: Seq<(Seq<char>, ValueModel)>,
    es: Seq<(Seq<char>, ValueModel)>,
    x: (Seq<char>, ValueModel),
)
    ensures
        sort_entries_from(acc, es.push(x)) == insert_entry(x, sort_entries_from(acc, es)),
    decreases es.len(),
{
    reveal_with_fuel(sort_entries_from, 3);
    let t = es.push(x);
    if es.len() == 0 {
        assert(t[0] == x);
        assert(t.drop_first() =~= Seq::<(Seq<char>, ValueModel)>::empty());
    } else {
        assert(t[0] == es[0]);
        assert(t.drop_first() =~= es.drop_first().push(x));
        lemma_sort_from_push(insert_entry(es[0], acc), es.drop_first(), x);
    }
}

/// `insert_entry` places `x` exactly at the first position whose key is
/// not below `x`'s key.
pub proof fn lemma_insert_entry_at(
    x: (Seq<char>, ValueModel),
    es: Seq<(Seq<char>, ValueModel)>,
    pos: int,
)
    requires
        0 <= pos <= es.len(),
        forall|q: int| 0 <= q < pos ==> !lex_le(x.0, es[q].0),
        pos < es.len() ==> lex_le(x.0, es[pos].0),
    ensures
        insert_entry(x, es) == es.subrange(0, pos) + seq![x] + es.subrange(
            pos,
            es.len() as int,
        ),
    decreases es.len(),
{
    reveal_with_fuel(insert_entry, 2);
    if es.len() == 0 {
        assert(insert_entry(x, es) =~= es.subrange(0, pos) + seq![x] + es.subrange(
            pos,
            es.len() as int,
        ));
    } else if lex_le(x.0, es[0].0) {
        assert(pos == 0);
        assert(insert_entry(x, es) =~= es.subrange(0, pos) + seq![x] + es.subrange(
            pos,
            es.len() as int,
        ));
    } else {
        assert(pos >= 1);
        lemma_insert_entry_at(x, es.drop_first(), pos - 1);
        assert(es.drop_first().subrange(0, pos - 1) =~= es.subrange(1, pos));
        assert(es.drop_first().subrange(pos - 1, es.drop_first().len() as int) =~= es.subrange(
            pos,
            es.len() as int,
        ));
        assert(insert_entry(x, es) =~= es.subrange(0, pos) + seq![x] + es.subrange(
            pos,
            es.len() as int,
        ));
    }
}

/// Whether `a` comes no later than `b` in lexicographic key order.
fn str_le(a: &String, b: &String) -> (r: bool)
    ensures
        r == lex_le(a@, b@),
{
    let ac = chars_of(a.as_str());
    let bc = chars_of(b.as_str());
    let mut k: usize = 0;
    proof {
        assert(a@.skip(0) =~= a@);
        assert(b@.skip(0) =~= b@);
    }
    loop
        invariant
            ac@ == a@,
            bc@ == b@,
            k <= ac@.len(),
            k <= bc@.len(),
            lex_le(a@, b@) == lex_le(a@.skip(k as int), b@.skip(k as int)),
        decreases ac@.len() - k,
    {
        let ghost k0 = k as int;
        if k >= ac.len() {
            proof {
                assert(a@.skip(k0).len() == 0);
            }
            return true;
        }
        if k >= bc.len() {
            proof {
                assert(b@.skip(k0).len() == 0);
                assert(a@.skip(k0).len() > 0);
            }
            return false;
        }
        let x = ac[k] as u32;
        let y = bc[k] as u32;
        proof {
            assert(a@.skip(k0)[0] == a@[k0]);
            assert(b@.skip(k0)[0] == b@[k0]);
        }
        if x < y {
            return true;
        }
        if x > y {
            return false;
        }
        proof {
            assert(a@.skip(k0).drop_first() =~= a@.skip(k0 + 1));
            assert(b@.skip(k0).drop_first() =~= b@.skip(k0 + 1));
        }
        k = k + 1;
    }
}

/// Appends the four-digit lowercase hexadecimal text of `u`.
fn push_hex4(s: &mut String, u: u32)
    requires
        u < 0x10000,
    ensures
        final(s)@ == old(s)@ + hex_text4(u as int),
{
    push_char(s, hex_digit((u / 4096) % 16));
    push_char(s, hex_digit((u / 256) % 16));
    push_char(s, hex_digit((u / 16) % 16));
    push_char(s, hex_digit(u % 16));
    proof {
        assert(s@ =~= old(s)@ + hex_text4(u as int));
    }
}

/// The quoted, escaped serialization of a string payload.
fn json_quote(s: &String) -> (r: String)
    ensures
        r@ == seq!['"'] + json_escape(s@) + seq!['"'],
{
    let cs = chars_of(s.as_str());
    let mut out = String::new();
    push_char(&mut out, '"');
    let mut k: usize = 0;
    while k < cs.len()
        invariant
            cs@ == s@,
            k <= cs@.len(),
            out@ == seq!['"'] + json_escape(s@.subrange(0, k as int)),
        decreases cs@.len() - k,
    {
        let c = cs[k];
        if c == '"' {
            push_char(&mut out, '\\');
            push_char(&mut out, '"');
        } else if c == '\\' {
            push_char(&mut out, '\\');
            push_char(&mut out, '\\');
        } else if c == '\n' {
            push_char(&mut out, '\\');
            push_char(&mut out, 'n');
        } else if c == '\r' {
            push_char(&mut out, '\\');
            push_char(&mut out, 'r');
        } else if c == '\t' {
            push_char(&mut out, '\\');
            push_char(&mut out, 't');
        } else if c == '\u{0008}' {
            push_char(&mut out, '\\');
            push_char(&mut out, 'b');
        } else if c == '\u{000C}' {
            push_char(&mut out, '\\');
            push_char(&mut out, 'f');
        } else {
            let u = c as u32;
            if u < 0x20 || (0x7f <= u && u <= 0x9f) {
                push_char(&mut out, '\\');
                push_char(&mut out, 'u');
                push_hex4(&mut out, u);
            } else {
                push_char(&mut out, c);
            }
        }
        proof {
            lemma_json_escape_push(s@.subrange(0, k as int), c);
            assert(s@.subrange(0, k as int).push(c) =~= s@.subrange(0, k as int + 1));
            assert(out@ =~= seq!['"'] + json_escape(s@.subrange(0, k as int + 1)));
        }
        k = k + 1;
    }
    push_char(&mut out, '"');
    proof {
        assert(s@.subrange(0, s@.len() as int) =~= s@);
        assert(out@ =~= seq!['"'] + json_escape(s@) + seq!['"']);
    }
    out
}

/// Places one rendered entry into the ordered list of rendered entries,
/// keeping the mirror of `insert_entry` on the abstract entries.
fn insert_sorted(
    pairs: &mut Vec<(String, String)>,
    key: String,
    ent: String,
    Ghost(ms): Ghost<Seq<(Seq<char>, ValueModel)>>,
    Ghost(mv): Ghost<ValueModel>,
)
    requires
        old(pairs)@.len() == ms.len(),
        forall|q: int|
            0 <= q < ms.len() ==> old(pairs)@[q].0@ == ms[q].0 && old(pairs)@[q].1@
                == entry_text(ms[q]),
        ent@ == entry_text((key@, mv)),
    ensures
        final(pairs)@.len() == insert_entry((key@, mv), ms).len(),
        forall|q: int|
            0 <= q < insert_entry((key@, mv), ms).len() ==> final(pairs)@[q].0@ == insert_entry(
                (key@, mv),
                ms,
            )[q].0 && final(pairs)@[q].1@ == entry_text(insert_entry((key@, mv), ms)[q]),
{
    let mut pos: usize = 0;
    while pos < pairs.len() && !str_le(&key, &pairs[pos].0)
        invariant
            pos <= pairs@.len(),
            pairs@ == old(pairs)@,
            pairs@.len() == ms.len(),
            forall|q: int|
                0 <= q < ms.len() ==> pairs@[q].0@ == ms[q].0 && pairs@[q].1@ == entry_text(
                    ms[q],
                ),
            forall|q: int| 0 <= q < pos ==> !lex_le(key@, ms[q].0),
        decreases pairs@.len() - pos,
    {
        pos = pos + 1;
    }
    proof {
        lemma_insert_entry_at((key@, mv), ms, pos as int);
    }
    pairs.insert(pos, (key, ent));
    proof {
        let res = insert_entry((key@, mv), ms);
        assert(pairs@ =~= old(pairs)@.insert(pos as int, (pairs@[pos as int].0,
            pairs@[pos as int].1)));
        assert forall|q: int| 0 <= q < res.len() implies pairs@[q].0@ == res[q].0 && pairs@[q].1@
            == entry_text(res[q]) by {
            if q < pos {
                assert(res[q] == ms[q]);
                assert(pairs@[q] == old(pairs)@[q]);
            } else if q == pos {
                assert(res[q] == (key@, mv));
            } else {
                assert(res[q] == ms[q - 1]);
                assert(pairs@[q] == old(pairs)@[q - 1]);
            }
        }
    }
}

/// The canonical serialization of `v`: objects are emitted with their
/// entries ordered by key at every level.
fn render(v: &JsonValue) -> (r: String)
    ensures
        r@ == ser(canon(jv_view(*v))),
    decreases v,
{
    match v {
        JsonValue::Null => {
            let out = String::from_str("null");
            proof {
                reveal_strlit("null");
                assert(out@ =~= seq!['n', 'u', 'l', 'l']);
            }
            out
        },
        JsonValue::Bool(b) => {
            if *b {
                let out = String::from_str("true");
                proof {
                    reveal_strlit("true");
                    assert(out@ =~= seq!['t', 'r', 'u', 'e']);
                }
                out
            } else {
                let out = String::from_str("false");
                proof {
                    reveal_strlit("false");
                    assert(out@ =~= seq!['f', 'a', 'l', 's', 'e']);
                }
                out
            }
        },
        JsonValue::Number(t) => t.clone(),
        JsonValue::String(s) => json_quote(s),
        JsonValue::Array(elems) => {
            let ghost ms = canon_seq(jv_view_seq(elems@));
            proof {
                crate::model::json_value::lemma_jv_view_seq(elems@);
                lemma_canon_seq(jv_view_seq(elems@));
            }
            let mut out = String::new();
            push_char(&mut out, '[');
            let mut idx: usize = 0;
            while idx < elems.len()
                invariant
                    *v == JsonValue::Array(*elems),
                    ms == canon_seq(jv_view_seq(elems@)),
                    ms.len() == elems@.len(),
                    forall|q: int|
                        0 <= q < elems@.len() ==> ms[q] == canon(jv_view(elems@[q])),
                    idx <= elems@.len(),
                    out@ == seq!['['] + ser_items(ms.subrange(0, idx as int)),
                decreases elems@.len() - idx,
            {
                proof {
                    assert(*v == JsonValue::Array(*elems));
                    assert(decreases_to!(*v => (*v)->Array_0));
                    assert(decreases_to!(*v => *elems));
                    assert(decreases_to!(*elems => elems@[idx as int]));
                    assert(decreases_to!(*v => elems@[idx as int]));
                }
                let piece = render(&elems[idx]);
                if idx > 0 {
                    push_char(&mut out, ',');
                }
                out.append(piece.as_str());
                proof {
                    lemma_ser_items_snoc(ms.subrange(0, idx as int), ms[idx as int]);
                    assert(ms.subrange(0, idx as int).push(ms[idx as int]) =~= ms.subrange(
                        0,
                        idx as int + 1,
                    ));
                    assert(out@ =~= seq!['['] + ser_items(ms.subrange(0, idx as int + 1)));
                }
                idx = idx + 1;
            }
            push_char(&mut out, ']');
            proof {
                assert(ms.subrange(0, ms.len() as int) =~= ms);
                assert(out@ =~= seq!['['] + ser_items(ms) + seq![']']);
            }
            out
        },
        JsonValue::Object(entries) => {
            let ghost men = canon_entries(jv_view_entries(entries@));
            proof {
                crate::model::json_value::lemma_jv_view_entries(entries@);
                lemma_canon_entries(jv_view_entries(entries@));
            }
            let mut pairs: Vec<(String, String)> = Vec::new();
            let ghost mut msorted = Seq::<(Seq<char>, ValueModel)>::empty();
            let mut idx: usize = 0;
            while idx < entries.len()
                invariant
                    *v == JsonValue::Object(*entries),
                    men == canon_entries(jv_view_entries(entries@)),
                    men.len() == entries@.len(),
                    forall|q: int|
                        0 <= q < entries@.len() ==> men[q] == (
                            entries@[q].0@,
                            canon(jv_view(entries@[q].1)),
                        ),
                    idx <= entries@.len(),
                    msorted == sort_entries_from(
                        Seq::<(Seq<char>, ValueModel)>::empty(),
                        men.subrange(0, idx as int),
                    ),
                    pairs@.len() == msorted.len(),
                    forall|q: int|
                        0 <= q < msorted.len() ==> pairs@[q].0@ == msorted[q].0 && pairs@[q].1@
                            == entry_text(msorted[q]),
                decreases entries@.len() - idx,
            {
                proof {
                    assert(*v == JsonValue::Object(*entries));
                    assert(decreases_to!(*v => (*v)->Object_0));
                    assert(decreases_to!(*v => *entries));
                    assert(decreases_to!(*entries => entries@[idx as int]));
                    assert(decreases_to!(entries@[idx as int] => entries@[idx as int].1));
                    assert(decreases_to!(*v => entries@[idx as int].1));
                }
                let piece = render(&entries[idx].1);
                let kc = entries[idx].0.clone();
                let mut ent = json_quote(&entries[idx].0);
                push_char(&mut ent, ':');
                ent.append(piece.as_str());
                let ghost mv = canon(jv_view(entries@[idx as int].1));
                proof {
                    assert(ent@ =~= entry_text((kc@, mv)));
                }
                insert_sorted(&mut pairs, kc, ent, Ghost(msorted), Ghost(mv));
                proof {
                    let prev = msorted;
                    msorted = insert_entry(men[idx as int], prev);
                    lemma_sort_from_push(
                        Seq::<(Seq<char>, ValueModel)>::empty(),
                        men.subrange(0, idx as int),
                        men[idx as int],
                    );
                    assert(men.subrange(0, idx as int).push(men[idx as int]) =~= men.subrange(
                        0,
                        idx as int + 1,
                    ));
                }
                idx = idx + 1;
            }
            let mut out = String::new();
            push_char(&mut out, '{');
            let mut k: usize = 0;
            while k < pairs.len()
                invariant
                    k <= pairs@.len(),
                    pairs@.len() == msorted.len(),
                    forall|q: int|
                        0 <= q < msorted.len() ==> pairs@[q].1@ == entry_text(msorted[q]),
                    out@ == seq!['{'] + ser_entries(msorted.subrange(0, k as int)),
                decreases pairs@.len() - k,
            {
                if k > 0 {
                    push_char(&mut out, ',');
                }
                out.append(pairs[k].1.as_str());
                proof {
                    lemma_ser_entries_snoc(msorted.subrange(0, k as int), msorted[k as int]);
                    assert(msorted.subrange(0, k as int).push(msorted[k as int])
                        =~= msorted.subrange(0, k as int + 1));
                    assert(out@ =~= seq!['{'] + ser_entries(msorted.subrange(0, k as int + 1)));
                }
                k = k + 1;
            }
            push_char(&mut out, '}');
            proof {
                assert(men.subrange(0, men.len() as int) =~= men);
                assert(msorted == sort_entries(men));
                assert(msorted.subrange(0, msorted.len() as int) =~= msorted);
                assert(out@ =~= seq!['{'] + ser_entries(sort_entries(men)) + seq!['}']);
            }
            out
        },
    }
}

impl JsonValue {
    /// Serializes the value into a JSON-formatted string: `null` and the
    /// booleans as their literals, numbers as their literal text, strings
    /// quoted and escaped, arrays in element order, and object entries
    /// ordered by key at every level.
    pub fn to_json(&self) -> (r: String)
        ensures
            r@ == ser(canon(jv_view(*self))),
    {
        render(self)
    }
}

} // verus!
