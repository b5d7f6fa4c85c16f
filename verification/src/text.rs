use vstd::prelude::*;

verus! {

use vstd::string::StrSliceExecFns;

broadcast use {vstd::std_specs::vec::group_vec_axioms, vstd::seq::group_seq_axioms};

/// The larger of two integers.
pub open spec fn imax(a: int, b: int) -> int {
    if a >= b {
        a
    } else {
        b
    }
}

/// The smaller of two integers.
pub open spec fn imin(a: int, b: int) -> int {
    if a <= b {
        a
    } else {
        b
    }
}

/// `x` forced into the range from `lo` to `hi`, preferring `hi` when the
/// range is empty.
pub open spec fn clamp(x: int, lo: int, hi: int) -> int {
    imin(imax(x, lo), hi)
}

/// JSON whitespace: space, tab, line feed, carriage return.
pub open spec fn is_ws(c: char) -> bool {
    c == ' ' || c == '\t' || c == '\n' || c == '\r'
}

/// An ASCII decimal digit.
pub open spec fn is_digit(c: char) -> bool {
    48 <= (c as u32) && (c as u32) <= 57
}

/// An ASCII letter.
pub open spec fn is_alpha(c: char) -> bool {
    (65 <= (c as u32) && (c as u32) <= 90) || (97 <= (c as u32) && (c as u32) <= 122)
}

/// An ASCII letter or digit.
pub open spec fn is_alnum(c: char) -> bool {
    is_digit(c) || is_alpha(c)
}

/// An ASCII hexadecimal digit, either case.
pub open spec fn is_hex(c: char) -> bool {
    is_digit(c) || (97 <= (c as u32) && (c as u32) <= 102) || (65 <= (c as u32) && (c as u32)
        <= 70)
}

/// Numeric value of a hexadecimal digit.
pub open spec fn hex_val(c: char) -> int {
    if is_digit(c) {
        (c as u32) - 48
    } else if 97 <= (c as u32) && (c as u32) <= 102 {
        (c as u32) - 87
    } else {
        (c as u32) - 55
    }
}

/// Lowercase hexadecimal digit character for a value below 16.
pub open spec fn hex_digit_char(d: int) -> char {
    if d < 10 {
        ((48 + d) as u8) as char
    } else {
        ((87 + d) as u8) as char
    }
}

/// Minimal-width lowercase hexadecimal text of a non-negative value.
pub open spec fn hex_text(u: int) -> Seq<char>
    decreases imax(u, 0),
{
    if u < 16 {
        seq![hex_digit_char(u)]
    } else {
        hex_text(u / 16) + seq![hex_digit_char(u % 16)]
    }
}

/// Four-digit lowercase hexadecimal text of a value below 0x10000.
pub open spec fn hex_text4(u: int) -> Seq<char> {
    seq![
        hex_digit_char((u / 4096) % 16),
        hex_digit_char((u / 256) % 16),
        hex_digit_char((u / 16) % 16),
        hex_digit_char(u % 16),
    ]
}

/// How one character is shown inside a diagnostic snippet: common escapes
/// are written by name, printable ASCII stands for itself, and anything else
/// is written as a braced lowercase hexadecimal escape.
pub open spec fn display_escape_char(c: char) -> Seq<char> {
    if c == '\t' {
        seq!['\\', 't']
    } else if c == '\r' {
        seq!['\\', 'r']
    } else if c == '\n' {
        seq!['\\', 'n']
    } else if c == '\\' {
        seq!['\\', '\\']
    } else if c == '\'' {
        seq!['\\', '\'']
    } else if c == '"' {
        seq!['\\', '"']
    } else if 32 <= (c as u32) && (c as u32) < 127 {
        seq![c]
    } else {
        seq!['\\', 'u', '{'] + hex_text(c as u32 as int) + seq!['}']
    }
}

/// The display escaping of a whole character sequence.
pub open spec fn display_escape(s: Seq<char>) -> Seq<char>
    decreases s.len(),
{
    if s.len() == 0 {
        Seq::empty()
    } else {
        display_escape_char(s[0]) + display_escape(s.drop_first())
    }
}

pub proof fn lemma_display_escape_push(s: Seq<char>, c: char)
    ensures
        display_escape(s.push(c)) == display_escape(s) + display_escape_char(c),
    decreases s.len(),
{
    let t = s.push(c);
    assert(t.len() == s.len() + 1);
    if s.len() == 0 {
        assert(t[0] == c);
        assert(t.drop_first() =~= Seq::<char>::empty());
        assert(display_escape(t) == display_escape_char(c) + display_escape(
            Seq::<char>::empty(),
        ));
        assert(display_escape(Seq::<char>::empty()) =~= Seq::<char>::empty());
        assert(display_escape(s) =~= Seq::<char>::empty());
        assert(display_escape(t) =~= display_escape(s) + display_escape_char(c));
    } else {
        assert(t[0] == s[0]);
        assert(t.drop_first() =~= s.drop_first().push(c));
        lemma_display_escape_push(s.drop_first(), c);
        assert(display_escape(t) == display_escape_char(s[0]) + display_escape(t.drop_first()));
        assert(display_escape(t.drop_first()) == display_escape(s.drop_first())
            + display_escape_char(c));
        assert(display_escape(s) == display_escape_char(s[0]) + display_escape(s.drop_first()));
        assert(display_escape(t) =~= display_escape(s) + display_escape_char(c));
    }
}

/// Index of the first character at or after `i` that is not JSON whitespace.
pub open spec fn ws_end(s: Seq<char>, i: int) -> int
    decreases imax(s.len() - i, 0),
{
    if i < 0 {
        0
    } else if i >= s.len() {
        s.len() as int
    } else if is_ws(s[i]) {
        ws_end(s, i + 1)
    } else {
        i
    }
}

pub proof fn lemma_ws_end(s: Seq<char>, i: int)
    requires
        0 <= i <= s.len(),
    ensures
        i <= ws_end(s, i) <= s.len(),
        forall|k: int| i <= k < ws_end(s, i) ==> is_ws(s[k]),
        ws_end(s, i) < s.len() ==> !is_ws(s[ws_end(s, i)]),
    decreases s.len() - i,
{
    if i < s.len() && is_ws(s[i]) {
        lemma_ws_end(s, i + 1);
    }
}

/// Index of the first character at or after `i` that is not a decimal digit.
pub open spec fn digits_end(s: Seq<char>, i: int) -> int
    decreases imax(s.len() - i, 0),
{
    if i < 0 {
        0
    } else if i >= s.len() {
        s.len() as int
    } else if is_digit(s[i]) {
        digits_end(s, i + 1)
    } else {
        i
    }
}

pub proof fn lemma_digits_end(s: Seq<char>, i: int)
    requires
        0 <= i <= s.len(),
    ensures
        i <= digits_end(s, i) <= s.len(),
        forall|k: int| i <= k < digits_end(s, i) ==> is_digit(s[k]),
        digits_end(s, i) < s.len() ==> !is_digit(s[digits_end(s, i)]),
    decreases s.len() - i,
{
    if i < s.len() && is_digit(s[i]) {
        lemma_digits_end(s, i + 1);
    }
}

pub fn ch_is_ws(c: char) -> (b: bool)
    ensures
        b == is_ws(c),
{
    c == ' ' || c == '\t' || c == '\n' || c == '\r'
}

pub fn ch_is_digit(c: char) -> (b: bool)
    ensures
        b == is_digit(c),
{
    let u = c as u32;
    48 <= u && u <= 57
}

pub fn ch_is_alpha(c: char) -> (b: bool)
    ensures
        b == is_alpha(c),
{
    let u = c as u32;
    (65 <= u && u <= 90) || (97 <= u && u <= 122)
}

pub fn ch_is_alnum(c: char) -> (b: bool)
    ensures
        b == is_alnum(c),
{
    ch_is_digit(c) || ch_is_alpha(c)
}

pub fn ch_is_hex(c: char) -> (b: bool)
    ensures
        b == is_hex(c),
{
    let u = c as u32;
    (48 <= u && u <= 57) || (97 <= u && u <= 102) || (65 <= u && u <= 70)
}

pub fn ch_hex_val(c: char) -> (v: u32)
    requires
        is_hex(c),
    ensures
        v == hex_val(c),
        v < 16,
{
    let u = c as u32;
    if 48 <= u && u <= 57 {
        u - 48
    } else if 97 <= u && u <= 102 {
        u - 87
    } else {
        u - 55
    }
}

pub fn hex_digit(d: u32) -> (c: char)
    requires
        d < 16,
    ensures
        c == hex_digit_char(d as int),
{
    let b: u8 = if d < 10 {
        48 + (d as u8)
    } else {
        87 + (d as u8)
    };
    b as char
}

/// Index of the first non-whitespace character of `s` at or after `i`.
pub fn skip_ws(s: &Vec<char>, i: usize) -> (r: usize)
    requires
        i <= s@.len(),
    ensures
        r == ws_end(s@, i as int),
        i <= r <= s@.len(),
        forall|k: int| i <= k < r ==> is_ws(s@[k]),
        r < s@.len() ==> !is_ws(s@[r as int]),
{
    proof {
        lemma_ws_end(s@, i as int);
    }
    let mut j = i;
    while j < s.len() && ch_is_ws(s[j])
        invariant
            i <= j <= s@.len(),
            ws_end(s@, i as int) == ws_end(s@, j as int),
        decreases s@.len() - j,
    {
        j = j + 1;
    }
    j
}

/// Index of the first non-digit character of `s` at or after `i`.
pub fn skip_digits(s: &Vec<char>, i: usize) -> (r: usize)
    requires
        i <= s@.len(),
    ensures
        r == digits_end(s@, i as int),
        i <= r <= s@.len(),
        forall|k: int| i <= k < r ==> is_digit(s@[k]),
        r < s@.len() ==> !is_digit(s@[r as int]),
{
    proof {
        lemma_digits_end(s@, i as int);
    }
    let mut j = i;
    while j < s.len() && ch_is_digit(s[j])
        invariant
            i <= j <= s@.len(),
            digits_end(s@, i as int) == digits_end(s@, j as int),
        decreases s@.len() - j,
    {
        j = j + 1;
    }
    j
}

/// The characters of a string slice, as a vector.
pub fn chars_of(s: &str) -> (r: Vec<char>)
    ensures
        r@ == s@,
{
    let n = s.unicode_len();
    let mut v: Vec<char> = Vec::new();
    let mut i: usize = 0;
    while i < n
        invariant
            i <= n == s@.len(),
            v@ =~= s@.subrange(0, i as int),
        decreases n - i,
    {
        v.push(s.get_char(i));
        i = i + 1;
    }
    proof {
        assert(v@ =~= s@);
    }
    v
}

/// Relies on String::push: appends exactly the given character.
#[verifier::external_body]
pub(crate) fn push_char(s: &mut String, c: char)
    ensures
        final(s)@ == old(s)@.push(c),
{
    s.push(c);
}

/// The characters of `s` between `a` and `b`, as an owned string.
pub fn string_from_range(s: &Vec<char>, a: usize, b: usize) -> (r: String)
    requires
        a <= b <= s@.len(),
    ensures
        r@ == s@.subrange(a as int, b as int),
{
    let mut out = String::new();
    let mut k = a;
    while k < b
        invariant
            a <= k <= b <= s@.len(),
            out@ == s@.subrange(a as int, k as int),
        decreases b - k,
    {
        push_char(&mut out, s[k]);
        proof {
            assert(out@ =~= s@.subrange(a as int, k as int + 1));
        }
        k = k + 1;
    }
    out
}

/// Relies on char::from_u32: `Some` exactly for Unicode scalar values.
#[verifier::external_body]
pub(crate) fn char_from_u32(u: u32) -> (r: Option<char>)
    ensures
        r == if vstd::utf8::is_scalar(u) {
            Some(u as char)
        } else {
            None::<char>
        },
{
    char::from_u32(u)
}

/// Appends the minimal-width lowercase hexadecimal text of `u`.
pub fn push_hex(s: &mut String, u: u32)
    ensures
        final(s)@ == old(s)@ + hex_text(u as int),
    decreases u,
{
    if u < 16 {
        push_char(s, hex_digit(u));
    } else {
        push_hex(s, u / 16);
        push_char(s, hex_digit(u % 16));
        proof {
            assert(s@ =~= old(s)@ + hex_text(u as int));
        }
    }
}

} // verus!
