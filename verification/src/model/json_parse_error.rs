use vstd::prelude::*;

verus! {

use vstd::string::StringExecFns;
use crate::text::chars_of;
use crate::text::display_escape;
use crate::text::display_escape_char;
use crate::text::lemma_display_escape_push;
use crate::text::push_char;
use crate::text::push_hex;
use crate::text::imax;
use crate::text::imin;

/// Enumerates the kinds of parsing errors that may occur when decoding JSON.
#[derive(Debug, PartialEq)]
pub enum ErrorKind {
    /// A colon `:` was expected (e.g., after a key in an object).
    ExpectedColon,
    /// A comma `,` was expected (e.g., between array elements or object members).
    ExpectedComma,
    /// A string key was expected but not found (e.g., in an object).
    ExpectedStringKey,
    /// A JSON value was expected (e.g., number, object, array, etc.).
    ExpectedValue,
    /// A closing bracket `]` was expected (e.g., to end an array).
    ExpectedBracket,
    /// A closing brace `}` was expected (e.g., to end an object).
    ExpectedBrace,
    /// An unexpected character was found (e.g., a `}` instead of `,`).
    UnexpectedChar(char),
    /// The input ended unexpectedly before completing a valid value.
    UnexpectedEof,
    /// An invalid escape sequence was encountered (e.g., `\q`).
    InvalidEscape,
    /// A malformed Unicode escape was encountered (e.g., `\uZZZZ`).
    InvalidUnicode,
    /// The string literal was not properly closed with a `"` character.
    UnterminatedString,
    /// Decimal point is not followed by digits (e.g., `5.`).
    DecimalWithoutDigits,
    /// Exponent part is malformed (e.g., `1e`, `2e+`).
    InvalidExponent,
    /// Number format is invalid.
    InvalidNumber,
    /// Integer has leading zeros, which are not allowed (e.g., `01`).
    LeadingZero,
    /// An invalid object key was encountered (e.g., a number instead of a string).
    InvalidObjectKey,
    /// An object contains a duplicate key (e.g., `"a":1, "a":2`).
    DuplicateKey(String),
    /// A trailing comma was found before a closing brace or bracket (e.g., `[1,]`).
    TrailingComma,
    /// A parser-defined error with a custom message.
    Custom(String),
}

/// Mathematical mirror of `ErrorKind`, with text payloads as character
/// sequences.
pub ghost enum KindModel {
    ExpectedColon,
    ExpectedComma,
    ExpectedStringKey,
    ExpectedValue,
    ExpectedBracket,
    ExpectedBrace,
    UnexpectedChar(char),
    UnexpectedEof,
    InvalidEscape,
    InvalidUnicode,
    UnterminatedString,
    DecimalWithoutDigits,
    InvalidExponent,
    InvalidNumber,
    LeadingZero,
    InvalidObjectKey,
    DuplicateKey(Seq<char>),
    TrailingComma,
    Custom(Seq<char>),
}

/// The abstract content of an `ErrorKind`.
pub open spec fn kind_view(k: ErrorKind) -> KindModel {
    match k {
        ErrorKind::ExpectedColon => KindModel::ExpectedColon,
        ErrorKind::ExpectedComma => KindModel::ExpectedComma,
        ErrorKind::ExpectedStringKey => KindModel::ExpectedStringKey,
        ErrorKind::ExpectedValue => KindModel::ExpectedValue,
        ErrorKind::ExpectedBracket => KindModel::ExpectedBracket,
        ErrorKind::ExpectedBrace => KindModel::ExpectedBrace,
        ErrorKind::UnexpectedChar(c) => KindModel::UnexpectedChar(c),
        ErrorKind::UnexpectedEof => KindModel::UnexpectedEof,
        ErrorKind::InvalidEscape => KindModel::InvalidEscape,
        ErrorKind::InvalidUnicode => KindModel::InvalidUnicode,
        ErrorKind::UnterminatedString => KindModel::UnterminatedString,
        ErrorKind::DecimalWithoutDigits => KindModel::DecimalWithoutDigits,
        ErrorKind::InvalidExponent => KindModel::InvalidExponent,
        ErrorKind::InvalidNumber => KindModel::InvalidNumber,
        ErrorKind::LeadingZero => KindModel::LeadingZero,
        ErrorKind::InvalidObjectKey => KindModel::InvalidObjectKey,
        ErrorKind::DuplicateKey(s) => KindModel::DuplicateKey(s@),
        ErrorKind::TrailingComma => KindModel::TrailingComma,
        ErrorKind::Custom(m) => KindModel::Custom(m@),
    }
}

/// The message carried by an unmatched-literal fallback error.
pub open spec fn unmatched_text(name: Seq<char>) -> Seq<char> {
    "Expected '"@ + name + "' literal"@
}

/// A parse failure as the grammar sees it: the kind of violation, the
/// character offset where it was detected, and whether the failure is a
/// low-priority "not this type" signal that a dispatcher may fall past.
pub ghost struct ErrModel {
    pub kind: KindModel,
    pub pos: int,
    pub fallback: bool,
}

/// Adds one, sticking at the machine word limit.
pub open spec fn bump(x: int) -> int {
    if x < usize::MAX as int {
        x + 1
    } else {
        x
    }
}

/// Line and column reached after reading the characters of `s` before
/// position `n`, starting from the given counters.
pub open spec fn lc_from(s: Seq<char>, i: int, n: int, line: int, col: int) -> (int, int)
    decreases imax(imin(n, s.len() as int) - i, 0),
{
    if i >= n || i >= s.len() || i < 0 {
        (line, col)
    } else if s[i] == '\n' {
        lc_from(s, i + 1, n, bump(line), 1)
    } else {
        lc_from(s, i + 1, n, line, bump(col))
    }
}

/// One-based line and column of character offset `n` in `s`.
pub open spec fn line_col(s: Seq<char>, n: int) -> (int, int) {
    lc_from(s, 0, n, 1, 1)
}

/// The diagnostic snippet shown for an error at offset `n` of `s`: a window
/// of up to ten characters on each side, with characters escaped for
/// display.
pub open spec fn snippet_text(s: Seq<char>, n: int) -> Seq<char> {
    let hi = imin(s.len() as int, n + 10);
    let lo = imin(imax(n - 10, 0), hi);
    "near '"@ + display_escape(s.subrange(lo, hi)) + "'"@
}

/// Represents a detailed error that occurred while parsing a JSON input.
#[derive(Debug, PartialEq)]
pub struct JsonParseError {
    /// Character offset in the input where the error occurred.
    pub index: usize,

    /// Line number (1-based) where the error occurred.
    pub line: usize,

    /// Column number (1-based) on the line where the error occurred.
    pub column: usize,

    /// The kind of error that occurred.
    pub kind: ErrorKind,

    /// A short snippet of the input near the error for context.
    pub snippet: String,
}

/// Whether `r` is the error that an input `s` and an abstract failure `e`
/// determine: same kind and offset, with line, column and snippet derived
/// from `s` at that offset.
pub open spec fn is_error_for(r: JsonParseError, s: Seq<char>, e: ErrModel) -> bool {
    &&& r.index == e.pos
    &&& kind_view(r.kind) == e.kind
    &&& r.line == line_col(s, e.pos).0
    &&& r.column == line_col(s, e.pos).1
    &&& r.snippet@ == snippet_text(s, e.pos)
}

/// Computes the 1-based (line, column) of a character offset in the input.
fn compute_line_column(input: &str, offset: usize) -> (r: (usize, usize))
    ensures
        r.0 == line_col(input@, offset as int).0,
        r.1 == line_col(input@, offset as int).1,
{
    let cs = chars_of(input);
    let mut line: usize = 1;
    let mut col: usize = 1;
    let mut i: usize = 0;
    while i < offset && i < cs.len()
        invariant
            cs@ == input@,
            0 <= i,
            lc_from(input@, 0, offset as int, 1, 1) == lc_from(
                input@,
                i as int,
                offset as int,
                line as int,
                col as int,
            ),
        decreases offset - i,
    {
        if cs[i] == '\n' {
            if line < usize::MAX {
                line = line + 1;
            }
            col = 1;
        } else {
            if col < usize::MAX {
                col = col + 1;
            }
        }
        i = i + 1;
    }
    (line, col)
}

/// Extracts a short escaped context snippet around the given offset.
fn extract_snippet(input: &str, offset: usize) -> (r: String)
    ensures
        r@ == snippet_text(input@, offset as int),
{
    let cs = chars_of(input);
    let len = cs.len();
    let hi = if offset >= len {
        len
    } else if len - offset < 10 {
        len
    } else {
        offset + 10
    };
    let lo0 = if offset > 10 {
        offset - 10
    } else {
        0
    };
    let lo = if lo0 > hi {
        hi
    } else {
        lo0
    };
    let mut out = String::from_str("near '");
    let mut k = lo;
    while k < hi
        invariant
            cs@ == input@,
            lo <= k <= hi <= cs@.len(),
            out@ == "near '"@ + display_escape(cs@.subrange(lo as int, k as int)),
        decreases hi - k,
    {
        let c = cs[k];
        if c == '\t' {
            push_char(&mut out, '\\');
            push_char(&mut out, 't');
        } else if c == '\r' {
            push_char(&mut out, '\\');
            push_char(&mut out, 'r');
        } else if c == '\n' {
            push_char(&mut out, '\\');
            push_char(&mut out, 'n');
        } else if c == '\\' {
            push_char(&mut out, '\\');
            push_char(&mut out, '\\');
        } else if c == '\'' {
            push_char(&mut out, '\\');
            push_char(&mut out, '\'');
        } else if c == '"' {
            push_char(&mut out, '\\');
            push_char(&mut out, '"');
        } else {
            let u = c as u32;
            if 32 <= u && u < 127 {
                push_char(&mut out, c);
            } else {
                push_char(&mut out, '\\');
                push_char(&mut out, 'u');
                push_char(&mut out, '{');
                push_hex(&mut out, u);
                push_char(&mut out, '}');
            }
        }
        proof {
            lemma_display_escape_push(cs@.subrange(lo as int, k as int), c);
            assert(cs@.subrange(lo as int, k as int).push(c) =~= cs@.subrange(
                lo as int,
                k as int + 1,
            ));
            assert(out@ =~= "near '"@ + display_escape(cs@.subrange(lo as int, k as int + 1)));
        }
        k = k + 1;
    }
    out.append("'");
    proof {
        assert(cs@.subrange(lo as int, hi as int) =~= input@.subrange(
            imin(imax(offset as int - 10, 0), imin(input@.len() as int, offset as int + 10)),
            imin(input@.len() as int, offset as int + 10),
        ));
        assert(out@ =~= snippet_text(input@, offset as int));
    }
    out
}

impl JsonParseError {
    /// Creates a new `JsonParseError` with structured metadata.
    ///
    /// Computes the line, column, and input snippet context from a character
    /// offset in the original JSON input.
    pub fn new(input: &str, position: usize, kind: ErrorKind) -> (r: Self)
        ensures
            r.index == position,
            r.kind == kind,
            r.line == line_col(input@, position as int).0,
            r.column == line_col(input@, position as int).1,
            r.snippet@ == snippet_text(input@, position as int),
    {
        let (line, column) = compute_line_column(input, position);
        let snippet = extract_snippet(input, position);
        Self { kind, index: position, line, column, snippet }
    }

    /// Creates a generic fallback error for a failed literal match, used when
    /// a fixed keyword such as `null` or `true` was not found at all.
    pub fn unmatched(expected: &str, input: &str) -> (r: Self)
        ensures
            r.index == 0,
            kind_view(r.kind) == KindModel::Custom(unmatched_text(expected@)),
            r.line == line_col(input@, 0).0,
            r.column == line_col(input@, 0).1,
            r.snippet@ == snippet_text(input@, 0),
    {
        let mut m = String::from_str("Expected '");
        m.append(expected);
        m.append("' literal");
        Self::new(input, 0, ErrorKind::Custom(m))
    }
}

} // verus!
