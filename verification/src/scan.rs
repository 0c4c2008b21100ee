//! The lexical scanner: pattern matchers for the terminal tokens of the
//! grammar.
//!
//! Every matcher is a pure function from a character buffer and a start
//! position to the end position of the token, or to no-match.  The matchers
//! recognize escape sequences but do not resolve them; the lexical form is
//! kept verbatim.

use vstd::prelude::*;

verus! {

// ---------------------------------------------------------------------------
// Character classes
// ---------------------------------------------------------------------------

/// Whitespace proper: space, tab, line feed, carriage return.
pub open spec fn is_ws_char(c: char) -> bool {
    c == ' ' || c == '\t' || c == '\n' || c == '\r'
}

/// A decimal digit.
pub open spec fn is_digit(c: char) -> bool {
    '0' <= c && c <= '9'
}

/// A basic Latin letter.
pub open spec fn is_alpha(c: char) -> bool {
    ('A' <= c && c <= 'Z') || ('a' <= c && c <= 'z')
}

/// A basic Latin letter or decimal digit.
pub open spec fn is_alnum(c: char) -> bool {
    is_alpha(c) || is_digit(c)
}

/// A hexadecimal digit.
pub open spec fn is_hex(c: char) -> bool {
    is_digit(c) || ('A' <= c && c <= 'F') || ('a' <= c && c <= 'f')
}

/// A character allowed verbatim inside an IRI reference: anything but
/// controls, space, and `<>"{}|^`\`` `.
pub open spec fn is_iri_char(c: char) -> bool {
    !(c <= '\u{20}' || c == '<' || c == '>' || c == '"' || c == '{' || c == '}' || c == '|'
        || c == '^' || c == '`' || c == '\\')
}

/// The leading letter class of prefixed names (`PN_CHARS_BASE`).
pub open spec fn is_pn_chars_base(c: char) -> bool {
    ('A' <= c && c <= 'Z') || ('a' <= c && c <= 'z') || ('\u{00C0}' <= c && c <= '\u{00D6}') || (
    '\u{00D8}' <= c && c <= '\u{00F6}') || ('\u{00F8}' <= c && c <= '\u{02FF}') || (
    '\u{0370}' <= c && c <= '\u{037D}') || ('\u{037F}' <= c && c <= '\u{1FFF}') || (
    '\u{200C}' <= c && c <= '\u{200D}') || ('\u{2070}' <= c && c <= '\u{218F}') || (
    '\u{2C00}' <= c && c <= '\u{2FEF}') || ('\u{3001}' <= c && c <= '\u{D7FF}') || (
    '\u{F900}' <= c && c <= '\u{FDCF}') || ('\u{FDF0}' <= c && c <= '\u{FFFD}') || (
    '\u{10000}' <= c && c <= '\u{EFFFF}')
}

/// `PN_CHARS_BASE` or the underscore (`PN_CHARS_U`).
pub open spec fn is_pn_chars_u(c: char) -> bool {
    is_pn_chars_base(c) || c == '_'
}

/// The inner character class of prefixed names (`PN_CHARS`).
pub open spec fn is_pn_chars(c: char) -> bool {
    is_pn_chars_u(c) || c == '-' || is_digit(c) || c == '\u{00B7}' || ('\u{0300}' <= c
        && c <= '\u{036F}') || ('\u{203F}' <= c && c <= '\u{2040}')
}

/// A character that may follow the backslash of a string escape (`ECHAR`).
pub open spec fn is_echar_char(c: char) -> bool {
    c == 't' || c == 'b' || c == 'n' || c == 'r' || c == 'f' || c == '"' || c == '\'' || c == '\\'
}

/// A character that may follow the backslash of a local-name escape
/// (`PN_LOCAL_ESC`).
pub open spec fn is_local_esc_char(c: char) -> bool {
    c == '-' || c == '_' || c == '~' || c == '.' || c == '!' || c == '$' || c == '&' || c == '\''
        || c == '(' || c == ')' || c == '*' || c == '+' || c == ',' || c == ';' || c == '='
        || c == '/' || c == '?' || c == '#' || c == '@' || c == '%'
}

pub(crate) fn ws_char(c: char) -> (r: bool)
    ensures
        r == is_ws_char(c),
{
    c == ' ' || c == '\t' || c == '\n' || c == '\r'
}

pub(crate) fn digit(c: char) -> (r: bool)
    ensures
        r == is_digit(c),
{
    '0' <= c && c <= '9'
}

pub(crate) fn alpha(c: char) -> (r: bool)
    ensures
        r == is_alpha(c),
{
    ('A' <= c && c <= 'Z') || ('a' <= c && c <= 'z')
}

pub(crate) fn alnum(c: char) -> (r: bool)
    ensures
        r == is_alnum(c),
{
    alpha(c) || digit(c)
}

pub(crate) fn hex(c: char) -> (r: bool)
    ensures
        r == is_hex(c),
{
    digit(c) || ('A' <= c && c <= 'F') || ('a' <= c && c <= 'f')
}

pub(crate) fn iri_char(c: char) -> (r: bool)
    ensures
        r == is_iri_char(c),
{
    !(c <= '\u{20}' || c == '<' || c == '>' || c == '"' || c == '{' || c == '}' || c == '|'
        || c == '^' || c == '`' || c == '\\')
}

pub(crate) fn pn_chars_base(c: char) -> (r: bool)
    ensures
        r == is_pn_chars_base(c),
{
    ('A' <= c && c <= 'Z') || ('a' <= c && c <= 'z') || ('\u{00C0}' <= c && c <= '\u{00D6}') || (
    '\u{00D8}' <= c && c <= '\u{00F6}') || ('\u{00F8}' <= c && c <= '\u{02FF}') || (
    '\u{0370}' <= c && c <= '\u{037D}') || ('\u{037F}' <= c && c <= '\u{1FFF}') || (
    '\u{200C}' <= c && c <= '\u{200D}') || ('\u{2070}' <= c && c <= '\u{218F}') || (
    '\u{2C00}' <= c && c <= '\u{2FEF}') || ('\u{3001}' <= c && c <= '\u{D7FF}') || (
    '\u{F900}' <= c && c <= '\u{FDCF}') || ('\u{FDF0}' <= c && c <= '\u{FFFD}') || (
    '\u{10000}' <= c && c <= '\u{EFFFF}')
}

pub(crate) fn pn_chars_u(c: char) -> (r: bool)
    ensures
        r == is_pn_chars_u(c),
{
    pn_chars_base(c) || c == '_'
}

pub(crate) fn pn_chars(c: char) -> (r: bool)
    ensures
        r == is_pn_chars(c),
{
    pn_chars_u(c) || c == '-' || digit(c) || c == '\u{00B7}' || ('\u{0300}' <= c
        && c <= '\u{036F}') || ('\u{203F}' <= c && c <= '\u{2040}')
}

pub(crate) fn echar_char(c: char) -> (r: bool)
    ensures
        r == is_echar_char(c),
{
    c == 't' || c == 'b' || c == 'n' || c == 'r' || c == 'f' || c == '"' || c == '\'' || c == '\\'
}

pub(crate) fn local_esc_char(c: char) -> (r: bool)
    ensures
        r == is_local_esc_char(c),
{
    c == '-' || c == '_' || c == '~' || c == '.' || c == '!' || c == '$' || c == '&' || c == '\''
        || c == '(' || c == ')' || c == '*' || c == '+' || c == ',' || c == ';' || c == '='
        || c == '/' || c == '?' || c == '#' || c == '@' || c == '%'
}

// ---------------------------------------------------------------------------
// Whitespace and comments
// ---------------------------------------------------------------------------

/// End of the run of whitespace and `#`-comments starting at `i`.
///
/// A comment counts as whitespace only when a line feed closes it; a comment
/// that runs to the end of input is not consumed.
pub open spec fn spec_ws_end(s: Seq<char>, i: int) -> int
    decreases s.len() - i, 1int,
{
    if i < s.len() && is_ws_char(s[i]) {
        spec_ws_end(s, i + 1)
    } else if i < s.len() && s[i] == '#' {
        spec_comment_scan(s, i + 1, i)
    } else {
        i
    }
}

/// Scans a comment body opened at `mark`; resumes whitespace scanning after
/// the closing line feed, or falls back to `mark` at end of input.
pub open spec fn spec_comment_scan(s: Seq<char>, j: int, mark: int) -> int
    decreases s.len() - j, 0int,
{
    if j < s.len() {
        if s[j] == '\n' {
            spec_ws_end(s, j + 1)
        } else {
            spec_comment_scan(s, j + 1, mark)
        }
    } else {
        mark
    }
}

/// Skips whitespace and comments (zero or more).
pub fn multispace0(s: &Vec<char>, i: usize) -> (j: usize)
    requires
        i <= s@.len(),
    ensures
        j == spec_ws_end(s@, i as int),
        i <= j <= s@.len(),
    decreases s@.len() - i, 1int,
{
    if i < s.len() && ws_char(s[i]) {
        multispace0(s, i + 1)
    } else if i < s.len() && s[i] == '#' {
        comment_scan(s, i + 1, i)
    } else {
        i
    }
}

fn comment_scan(s: &Vec<char>, j: usize, mark: usize) -> (r: usize)
    requires
        j <= s@.len(),
        mark < j,
    ensures
        r == spec_comment_scan(s@, j as int, mark as int),
        mark <= r <= s@.len(),
    decreases s@.len() - j, 0int,
{
    if j < s.len() {
        if s[j] == '\n' {
            multispace0(s, j + 1)
        } else {
            comment_scan(s, j + 1, mark)
        }
    } else {
        mark
    }
}

/// Skips whitespace and comments, requiring at least one character consumed.
pub fn multispace1(s: &Vec<char>, i: usize) -> (r: Option<usize>)
    requires
        i <= s@.len(),
    ensures
        match r {
            Some(j) => j == spec_ws_end(s@, i as int) && i < j <= s@.len(),
            None => spec_ws_end(s@, i as int) == i,
        },
{
    let j = multispace0(s, i);
    if j > i {
        Some(j)
    } else {
        None
    }
}

// ---------------------------------------------------------------------------
// Numeric literals
// ---------------------------------------------------------------------------

/// End of the run of decimal digits starting at `i`.
pub open spec fn spec_digits_end(s: Seq<char>, i: int) -> int
    decreases s.len() - i,
{
    if i < s.len() && is_digit(s[i]) {
        spec_digits_end(s, i + 1)
    } else {
        i
    }
}

fn digits_end(s: &Vec<char>, i: usize) -> (j: usize)
    requires
        i <= s@.len(),
    ensures
        j == spec_digits_end(s@, i as int),
        i <= j <= s@.len(),
    decreases s@.len() - i,
{
    if i < s.len() && digit(s[i]) {
        digits_end(s, i + 1)
    } else {
        i
    }
}

/// Position after an optional sign at `i`.
pub open spec fn spec_sign_end(s: Seq<char>, i: int) -> int {
    if i < s.len() && (s[i] == '+' || s[i] == '-') {
        i + 1
    } else {
        i
    }
}

fn sign_end(s: &Vec<char>, i: usize) -> (j: usize)
    requires
        i <= s@.len(),
    ensures
        j == spec_sign_end(s@, i as int),
        i <= j <= s@.len(),
{
    if i < s.len() && (s[i] == '+' || s[i] == '-') {
        i + 1
    } else {
        i
    }
}

/// The INTEGER terminal: an optional sign and at least one digit.
pub open spec fn spec_integer_end(s: Seq<char>, i: int) -> Option<int> {
    let j = spec_sign_end(s, i);
    let k = spec_digits_end(s, j);
    if k > j {
        Some(k)
    } else {
        None
    }
}

/// Matches the INTEGER terminal.
pub fn scan_integer(s: &Vec<char>, i: usize) -> (r: Option<usize>)
    requires
        i <= s@.len(),
    ensures
        r_matches_spec(r, spec_integer_end(s@, i as int)),
        end_in_range(r, i as int, s@.len() as int),
{
    let j = sign_end(s, i);
    let k = digits_end(s, j);
    if k > j {
        Some(k)
    } else {
        None
    }
}

/// The DECIMAL terminal: an optional sign, optional digits, a dot, and at
/// least one digit.
pub open spec fn spec_decimal_end(s: Seq<char>, i: int) -> Option<int> {
    let j = spec_sign_end(s, i);
    let k = spec_digits_end(s, j);
    if k < s.len() && s[k] == '.' {
        let m = spec_digits_end(s, k + 1);
        if m > k + 1 {
            Some(m)
        } else {
            None
        }
    } else {
        None
    }
}

/// Matches the DECIMAL terminal.
pub fn scan_decimal(s: &Vec<char>, i: usize) -> (r: Option<usize>)
    requires
        i <= s@.len(),
    ensures
        r_matches_spec(r, spec_decimal_end(s@, i as int)),
        end_in_range(r, i as int, s@.len() as int),
{
    let j = sign_end(s, i);
    let k = digits_end(s, j);
    if k < s.len() && s[k] == '.' {
        let m = digits_end(s, k + 1);
        if m > k + 1 {
            Some(m)
        } else {
            None
        }
    } else {
        None
    }
}

/// The EXPONENT part: `e` or `E`, an optional sign, and at least one digit.
pub open spec fn spec_exponent_end(s: Seq<char>, i: int) -> Option<int> {
    if i < s.len() && (s[i] == 'e' || s[i] == 'E') {
        let j = spec_sign_end(s, i + 1);
        let k = spec_digits_end(s, j);
        if k > j {
            Some(k)
        } else {
            None
        }
    } else {
        None
    }
}

fn exponent_end(s: &Vec<char>, i: usize) -> (r: Option<usize>)
    requires
        i <= s@.len(),
    ensures
        r_matches_spec(r, spec_exponent_end(s@, i as int)),
        end_in_range(r, i as int, s@.len() as int),
{
    if i < s.len() && (s[i] == 'e' || s[i] == 'E') {
        let j = sign_end(s, i + 1);
        let k = digits_end(s, j);
        if k > j {
            Some(k)
        } else {
            None
        }
    } else {
        None
    }
}

/// The DOUBLE terminal: a mantissa with a mandatory exponent, in one of its
/// three shapes (`1.2e3`, `.2e3`, `12e3`).
pub open spec fn spec_double_end(s: Seq<char>, i: int) -> Option<int> {
    let j = spec_sign_end(s, i);
    let k = spec_digits_end(s, j);
    if k > j && k < s.len() && s[k] == '.' {
        // digits '.' digits* EXPONENT
        let m = spec_digits_end(s, k + 1);
        spec_exponent_end(s, m)
    } else if k == j && k < s.len() && s[k] == '.' {
        // '.' digits+ EXPONENT
        let m = spec_digits_end(s, k + 1);
        if m > k + 1 {
            spec_exponent_end(s, m)
        } else {
            None
        }
    } else if k > j {
        // digits+ EXPONENT
        spec_exponent_end(s, k)
    } else {
        None
    }
}

/// Matches the DOUBLE terminal.
pub fn scan_double(s: &Vec<char>, i: usize) -> (r: Option<usize>)
    requires
        i <= s@.len(),
    ensures
        r_matches_spec(r, spec_double_end(s@, i as int)),
        end_in_range(r, i as int, s@.len() as int),
{
    let j = sign_end(s, i);
    let k = digits_end(s, j);
    if k > j && k < s.len() && s[k] == '.' {
        let m = digits_end(s, k + 1);
        exponent_end(s, m)
    } else if k == j && k < s.len() && s[k] == '.' {
        let m = digits_end(s, k + 1);
        if m > k + 1 {
            exponent_end(s, m)
        } else {
            None
        }
    } else if k > j {
        exponent_end(s, k)
    } else {
        None
    }
}

/// Relates an executable scanner result to its specification.
pub open spec fn r_matches_spec(r: Option<usize>, m: Option<int>) -> bool {
    match r {
        Some(j) => m == Some(j as int),
        None => m is None,
    }
}

/// A matched token ends after its start and within the input.
pub open spec fn end_in_range(r: Option<usize>, i: int, len: int) -> bool {
    match r {
        Some(j) => i < j <= len,
        None => true,
    }
}

// ---------------------------------------------------------------------------
// IRI references
// ---------------------------------------------------------------------------

/// Whether a numeric escape (`\uXXXX` or `\UXXXXXXXX`) starts at `i`, and its
/// length.
pub open spec fn spec_uchar_len(s: Seq<char>, i: int) -> Option<int> {
    if i + 6 <= s.len() && s[i] == '\\' && s[i + 1] == 'u' && is_hex(s[i + 2]) && is_hex(s[i + 3])
        && is_hex(s[i + 4]) && is_hex(s[i + 5]) {
        Some(6)
    } else if i + 10 <= s.len() && s[i] == '\\' && s[i + 1] == 'U' && is_hex(s[i + 2]) && is_hex(
        s[i + 3],
    ) && is_hex(s[i + 4]) && is_hex(s[i + 5]) && is_hex(s[i + 6]) && is_hex(s[i + 7]) && is_hex(
        s[i + 8],
    ) && is_hex(s[i + 9]) {
        Some(10)
    } else {
        None
    }
}

fn uchar_len(s: &Vec<char>, i: usize) -> (r: Option<usize>)
    requires
        i <= s@.len(),
    ensures
        r_matches_spec(r, spec_uchar_len(s@, i as int)),
        r is Some ==> i + r.unwrap() <= s@.len(),
{
    if s.len() - i >= 6 && s[i] == '\\' && s[i + 1] == 'u' && hex(s[i + 2]) && hex(s[i + 3]) && hex(
        s[i + 4],
    ) && hex(s[i + 5]) {
        Some(6)
    } else if s.len() - i >= 10 && s[i] == '\\' && s[i + 1] == 'U' && hex(s[i + 2]) && hex(
        s[i + 3],
    ) && hex(s[i + 4]) && hex(s[i + 5]) && hex(s[i + 6]) && hex(s[i + 7]) && hex(s[i + 8]) && hex(
        s[i + 9],
    ) {
        Some(10)
    } else {
        None
    }
}

/// Scans the body of an IRI reference up to and including the closing `>`.
pub open spec fn spec_iriref_body(s: Seq<char>, i: int) -> Option<int>
    decreases s.len() - i,
{
    if i < s.len() && s[i] == '>' {
        Some(i + 1)
    } else if i < s.len() && s[i] == '\\' {
        match spec_uchar_len(s, i) {
            Some(l) => spec_iriref_body(s, i + l),
            None => None,
        }
    } else if i < s.len() && is_iri_char(s[i]) {
        spec_iriref_body(s, i + 1)
    } else {
        None
    }
}

/// The IRIREF terminal: `<`, allowed characters or numeric escapes, `>`.
pub open spec fn spec_iriref_end(s: Seq<char>, i: int) -> Option<int> {
    if i < s.len() && s[i] == '<' {
        spec_iriref_body(s, i + 1)
    } else {
        None
    }
}

fn iriref_body(s: &Vec<char>, i: usize) -> (r: Option<usize>)
    requires
        i <= s@.len(),
    ensures
        r_matches_spec(r, spec_iriref_body(s@, i as int)),
        end_in_range(r, i as int, s@.len() as int),
    decreases s@.len() - i,
{
    if i < s.len() && s[i] == '>' {
        Some(i + 1)
    } else if i < s.len() && s[i] == '\\' {
        match uchar_len(s, i) {
            Some(l) => iriref_body(s, i + l),
            None => None,
        }
    } else if i < s.len() && iri_char(s[i]) {
        iriref_body(s, i + 1)
    } else {
        None
    }
}

/// Matches the IRIREF terminal.
pub fn scan_iriref(s: &Vec<char>, i: usize) -> (r: Option<usize>)
    requires
        i <= s@.len(),
    ensures
        r_matches_spec(r, spec_iriref_end(s@, i as int)),
        end_in_range(r, i as int, s@.len() as int),
        r matches Some(e) ==> i + 2 <= e,
{
    if i < s.len() && s[i] == '<' {
        iriref_body(s, i + 1)
    } else {
        None
    }
}

// ---------------------------------------------------------------------------
// Language tags
// ---------------------------------------------------------------------------

/// End of the run of basic letters starting at `i`.
pub open spec fn spec_alpha_end(s: Seq<char>, i: int) -> int
    decreases s.len() - i,
{
    if i < s.len() && is_alpha(s[i]) {
        spec_alpha_end(s, i + 1)
    } else {
        i
    }
}

fn alpha_end(s: &Vec<char>, i: usize) -> (j: usize)
    requires
        i <= s@.len(),
    ensures
        j == spec_alpha_end(s@, i as int),
        i <= j <= s@.len(),
    decreases s@.len() - i,
{
    if i < s.len() && alpha(s[i]) {
        alpha_end(s, i + 1)
    } else {
        i
    }
}

/// Scans the `-`-separated alphanumeric extensions of a language tag.
pub open spec fn spec_langtag_ext(s: Seq<char>, i: int) -> int
    decreases s.len() - i,
        via spec_langtag_ext_dec
{
    if i + 1 < s.len() && s[i] == '-' && is_alnum(s[i + 1]) {
        spec_langtag_ext(s, spec_alnum_end(s, i + 2))
    } else {
        i
    }
}

#[via_fn]
proof fn spec_langtag_ext_dec(s: Seq<char>, i: int) {
    if i + 1 < s.len() && s[i] == '-' && is_alnum(s[i + 1]) {
        lemma_alnum_end_bounds(s, i + 2);
    }
}

/// End of the run of alphanumerics starting at `i`.
pub open spec fn spec_alnum_end(s: Seq<char>, i: int) -> int
    decreases s.len() - i,
{
    if i < s.len() && is_alnum(s[i]) {
        spec_alnum_end(s, i + 1)
    } else {
        i
    }
}

fn alnum_end(s: &Vec<char>, i: usize) -> (j: usize)
    requires
        i <= s@.len(),
    ensures
        j == spec_alnum_end(s@, i as int),
        i <= j <= s@.len(),
    decreases s@.len() - i,
{
    if i < s.len() && alnum(s[i]) {
        alnum_end(s, i + 1)
    } else {
        i
    }
}

proof fn lemma_alnum_end_bounds(s: Seq<char>, i: int)
    ensures
        i <= spec_alnum_end(s, i),
        i <= s.len() ==> spec_alnum_end(s, i) <= s.len(),
    decreases s.len() - i,
{
    if i < s.len() && is_alnum(s[i]) {
        lemma_alnum_end_bounds(s, i + 1);
    }
}

fn langtag_ext(s: &Vec<char>, i: usize) -> (j: usize)
    requires
        i <= s@.len(),
    ensures
        j == spec_langtag_ext(s@, i as int),
        i <= j <= s@.len(),
    decreases s@.len() - i,
{
    if s.len() - i >= 2 && s[i] == '-' && alnum(s[i + 1]) {
        let k = alnum_end(s, i + 2);
        langtag_ext(s, k)
    } else {
        i
    }
}

/// The LANGTAG terminal: `@`, letters, then `-`-separated alphanumerics.
pub open spec fn spec_langtag_end(s: Seq<char>, i: int) -> Option<int> {
    if i + 1 < s.len() && s[i] == '@' && is_alpha(s[i + 1]) {
        Some(spec_langtag_ext(s, spec_alpha_end(s, i + 1)))
    } else {
        None
    }
}

/// Matches the LANGTAG terminal.
pub fn scan_langtag(s: &Vec<char>, i: usize) -> (r: Option<usize>)
    requires
        i <= s@.len(),
    ensures
        r_matches_spec(r, spec_langtag_end(s@, i as int)),
        end_in_range(r, i as int, s@.len() as int),
{
    if s.len() - i >= 2 && s[i] == '@' && alpha(s[i + 1]) {
        let j = alpha_end(s, i + 1);
        Some(langtag_ext(s, j))
    } else {
        None
    }
}

// ---------------------------------------------------------------------------
// ANON
// ---------------------------------------------------------------------------

/// End of the run of whitespace proper (no comments) starting at `i`.
pub open spec fn spec_plain_ws_end(s: Seq<char>, i: int) -> int
    decreases s.len() - i,
{
    if i < s.len() && is_ws_char(s[i]) {
        spec_plain_ws_end(s, i + 1)
    } else {
        i
    }
}

fn plain_ws_end(s: &Vec<char>, i: usize) -> (j: usize)
    requires
        i <= s@.len(),
    ensures
        j == spec_plain_ws_end(s@, i as int),
        i <= j <= s@.len(),
    decreases s@.len() - i,
{
    if i < s.len() && ws_char(s[i]) {
        plain_ws_end(s, i + 1)
    } else {
        i
    }
}

/// The ANON terminal: `[`, whitespace, `]`.
pub open spec fn spec_anon_end(s: Seq<char>, i: int) -> Option<int> {
    if i < s.len() && s[i] == '[' {
        let j = spec_plain_ws_end(s, i + 1);
        if j < s.len() && s[j] == ']' {
            Some(j + 1)
        } else {
            None
        }
    } else {
        None
    }
}

/// Matches the ANON terminal.
pub fn scan_anon(s: &Vec<char>, i: usize) -> (r: Option<usize>)
    requires
        i <= s@.len(),
    ensures
        r_matches_spec(r, spec_anon_end(s@, i as int)),
        end_in_range(r, i as int, s@.len() as int),
{
    if i < s.len() && s[i] == '[' {
        let j = plain_ws_end(s, i + 1);
        if j < s.len() && s[j] == ']' {
            Some(j + 1)
        } else {
            None
        }
    } else {
        None
    }
}

// ---------------------------------------------------------------------------
// Prefixed names and blank-node labels
// ---------------------------------------------------------------------------

/// End of the run of `PN_CHARS`-or-dot characters starting at `i`.
pub open spec fn spec_pn_run_end(s: Seq<char>, i: int) -> int
    decreases s.len() - i,
{
    if i < s.len() && (is_pn_chars(s[i]) || s[i] == '.') {
        spec_pn_run_end(s, i + 1)
    } else {
        i
    }
}

pub(crate) fn pn_run_end(s: &Vec<char>, i: usize) -> (j: usize)
    requires
        i <= s@.len(),
    ensures
        j == spec_pn_run_end(s@, i as int),
        i <= j <= s@.len(),
    decreases s@.len() - i,
{
    if i < s.len() && (pn_chars(s[i]) || s[i] == '.') {
        pn_run_end(s, i + 1)
    } else {
        i
    }
}

/// The PNAME_NS terminal: an optional prefix name and the `:` separator.
/// Returns the position after the `:`.
pub open spec fn spec_pname_ns_end(s: Seq<char>, i: int) -> Option<int> {
    if i < s.len() && s[i] == ':' {
        Some(i + 1)
    } else if i < s.len() && is_pn_chars_base(s[i]) {
        let j = spec_pn_run_end(s, i + 1);
        if j < s.len() && s[j] == ':' && (j == i + 1 || s[j - 1] != '.') {
            Some(j + 1)
        } else {
            None
        }
    } else {
        None
    }
}

/// Matches the PNAME_NS terminal.
pub fn pname_ns(s: &Vec<char>, i: usize) -> (r: Option<usize>)
    requires
        i <= s@.len(),
    ensures
        r_matches_spec(r, spec_pname_ns_end(s@, i as int)),
        end_in_range(r, i as int, s@.len() as int),
{
    if i < s.len() && s[i] == ':' {
        Some(i + 1)
    } else if i < s.len() && pn_chars_base(s[i]) {
        let j = pn_run_end(s, i + 1);
        if j < s.len() && s[j] == ':' && (j == i + 1 || s[j - 1] != '.') {
            Some(j + 1)
        } else {
            None
        }
    } else {
        None
    }
}

/// Whether a PLX element (`%XX` or a backslash escape) starts at `i`, and its
/// length.
pub open spec fn spec_plx_len(s: Seq<char>, i: int) -> Option<int> {
    if i + 3 <= s.len() && s[i] == '%' && is_hex(s[i + 1]) && is_hex(s[i + 2]) {
        Some(3)
    } else if i + 2 <= s.len() && s[i] == '\\' && is_local_esc_char(s[i + 1]) {
        Some(2)
    } else {
        None
    }
}

fn plx_len(s: &Vec<char>, i: usize) -> (r: Option<usize>)
    requires
        i <= s@.len(),
    ensures
        r_matches_spec(r, spec_plx_len(s@, i as int)),
        r is Some ==> 0 < r.unwrap() && i + r.unwrap() <= s@.len(),
{
    if s.len() - i >= 3 && s[i] == '%' && hex(s[i + 1]) && hex(s[i + 2]) {
        Some(3)
    } else if s.len() - i >= 2 && s[i] == '\\' && local_esc_char(s[i + 1]) {
        Some(2)
    } else {
        None
    }
}

/// Scans the tail of a local name, keeping `good`: the end of the longest
/// valid local name seen so far (one that does not end in a bare dot).
pub open spec fn spec_local_run(s: Seq<char>, i: int, good: int) -> int
    decreases s.len() - i,
{
    if i < s.len() && s[i] == '.' {
        spec_local_run(s, i + 1, good)
    } else if spec_plx_len(s, i) is Some {
        let l = spec_plx_len(s, i).unwrap();
        spec_local_run(s, i + l, i + l)
    } else if i < s.len() && (is_pn_chars(s[i]) || s[i] == ':') {
        spec_local_run(s, i + 1, i + 1)
    } else {
        good
    }
}

fn local_run(s: &Vec<char>, i: usize, good: usize) -> (r: usize)
    requires
        i <= s@.len(),
        good <= s@.len(),
    ensures
        r == spec_local_run(s@, i as int, good as int),
        r <= s@.len(),
    decreases s@.len() - i,
{
    if i < s.len() && s[i] == '.' {
        local_run(s, i + 1, good)
    } else {
        match plx_len(s, i) {
            Some(l) => local_run(s, i + l, i + l),
            None => {
                if i < s.len() && (pn_chars(s[i]) || s[i] == ':') {
                    local_run(s, i + 1, i + 1)
                } else {
                    good
                }
            },
        }
    }
}

/// The PN_LOCAL terminal: the local part of a prefixed name.
pub open spec fn spec_pn_local_end(s: Seq<char>, i: int) -> Option<int> {
    let first = if spec_plx_len(s, i) is Some {
        Some(i + spec_plx_len(s, i).unwrap())
    } else if i < s.len() && (is_pn_chars_u(s[i]) || s[i] == ':' || is_digit(s[i])) {
        Some(i + 1)
    } else {
        None
    };
    match first {
        Some(j) => Some(spec_local_run(s, j, j)),
        None => None,
    }
}

/// Matches the PN_LOCAL terminal.
pub fn pn_local(s: &Vec<char>, i: usize) -> (r: Option<usize>)
    requires
        i <= s@.len(),
    ensures
        r_matches_spec(r, spec_pn_local_end(s@, i as int)),
        end_in_range(r, i as int, s@.len() as int),
{
    let n = s.len();
    let first: Option<usize> = match plx_len(s, i) {
        Some(l) => {
            proof {
                assert(i + l <= n);
            }
            Some(i + l)
        },
        None => {
            if i < s.len() && (pn_chars_u(s[i]) || s[i] == ':' || digit(s[i])) {
                Some(i + 1)
            } else {
                None
            }
        },
    };
    match first {
        Some(j) => {
            let r = local_run(s, j, j);
            proof {
                lemma_local_run_lower(s@, j as int, j as int);
            }
            Some(r)
        },
        None => None,
    }
}

proof fn lemma_local_run_lower(s: Seq<char>, i: int, good: int)
    requires
        good <= i,
    ensures
        spec_local_run(s, i, good) >= good,
    decreases s.len() - i,
{
    if i < s.len() && s[i] == '.' {
        lemma_local_run_lower(s, i + 1, good);
    } else if spec_plx_len(s, i) is Some {
        let l = spec_plx_len(s, i).unwrap();
        lemma_local_run_lower(s, i + l, i + l);
    } else if i < s.len() && (is_pn_chars(s[i]) || s[i] == ':') {
        lemma_local_run_lower(s, i + 1, i + 1);
    }
}

/// The PNAME_LN terminal: a namespace part and a local part.  Returns the
/// position after the `:` and the end of the local part.
pub open spec fn spec_pname_ln_end(s: Seq<char>, i: int) -> Option<(int, int)> {
    match spec_pname_ns_end(s, i) {
        Some(ns_end) => match spec_pn_local_end(s, ns_end) {
            Some(local_end) => Some((ns_end, local_end)),
            None => None,
        },
        None => None,
    }
}

/// Matches the PNAME_LN terminal.
pub fn pname_ln(s: &Vec<char>, i: usize) -> (r: Option<(usize, usize)>)
    requires
        i <= s@.len(),
    ensures
        match r {
            Some((ns_end, local_end)) => spec_pname_ln_end(s@, i as int) == Some(
                (ns_end as int, local_end as int),
            ) && i < ns_end <= local_end <= s@.len(),
            None => spec_pname_ln_end(s@, i as int) is None,
        },
{
    match pname_ns(s, i) {
        Some(ns_end) => match pn_local(s, ns_end) {
            Some(local_end) => Some((ns_end, local_end)),
            None => None,
        },
        None => None,
    }
}

/// Removes trailing dots: the end of the longest dot-free-tailed run.
pub open spec fn spec_trim_dots(s: Seq<char>, lo: int, j: int) -> int
    decreases j - lo,
{
    if j > lo && j - 1 < s.len() && j - 1 >= 0 && s[j - 1] == '.' {
        spec_trim_dots(s, lo, j - 1)
    } else {
        j
    }
}

fn trim_dots(s: &Vec<char>, lo: usize, j: usize) -> (r: usize)
    requires
        lo <= j <= s@.len(),
    ensures
        r == spec_trim_dots(s@, lo as int, j as int),
        lo <= r <= j,
    decreases j - lo,
{
    if j > lo && s[j - 1] == '.' {
        trim_dots(s, lo, j - 1)
    } else {
        j
    }
}

/// The BLANK_NODE_LABEL terminal: `_:`, a leading letter, digit or
/// underscore, then `PN_CHARS` with interior dots.
pub open spec fn spec_bnode_label_end(s: Seq<char>, i: int) -> Option<int> {
    if i + 3 <= s.len() && s[i] == '_' && s[i + 1] == ':' && (is_pn_chars_u(s[i + 2]) || is_digit(
        s[i + 2],
    )) {
        let j = spec_pn_run_end(s, i + 3);
        Some(spec_trim_dots(s, i + 3, j))
    } else {
        None
    }
}

/// Matches the BLANK_NODE_LABEL terminal.
pub fn blank_node_label(s: &Vec<char>, i: usize) -> (r: Option<usize>)
    requires
        i <= s@.len(),
    ensures
        r_matches_spec(r, spec_bnode_label_end(s@, i as int)),
        end_in_range(r, i as int, s@.len() as int),
        r matches Some(e) ==> i + 3 <= e,
{
    if s.len() - i >= 3 && s[i] == '_' && s[i + 1] == ':' && (pn_chars_u(s[i + 2]) || digit(
        s[i + 2],
    )) {
        let j = pn_run_end(s, i + 3);
        Some(trim_dots(s, i + 3, j))
    } else {
        None
    }
}

// ---------------------------------------------------------------------------
// String literals
// ---------------------------------------------------------------------------

/// Whether a string escape (ECHAR or UCHAR) starts at `i`, and its length.
pub open spec fn spec_escape_len(s: Seq<char>, i: int) -> Option<int> {
    if i + 2 <= s.len() && s[i] == '\\' && is_echar_char(s[i + 1]) {
        Some(2)
    } else {
        spec_uchar_len(s, i)
    }
}

fn escape_len(s: &Vec<char>, i: usize) -> (r: Option<usize>)
    requires
        i <= s@.len(),
    ensures
        r_matches_spec(r, spec_escape_len(s@, i as int)),
        r is Some ==> 0 < r.unwrap() && i + r.unwrap() <= s@.len(),
{
    if s.len() - i >= 2 && s[i] == '\\' && echar_char(s[i + 1]) {
        Some(2)
    } else {
        uchar_len(s, i)
    }
}

/// Scans a single-line string body up to and including the closing quote.
pub open spec fn spec_sl_body(s: Seq<char>, i: int, q: char) -> Option<int>
    decreases s.len() - i,
{
    if i < s.len() && s[i] == q {
        Some(i + 1)
    } else if i < s.len() && s[i] == '\\' {
        match spec_escape_len(s, i) {
            Some(l) => spec_sl_body(s, i + l, q),
            None => None,
        }
    } else if i < s.len() && s[i] != '\n' && s[i] != '\r' {
        spec_sl_body(s, i + 1, q)
    } else {
        None
    }
}

fn sl_body(s: &Vec<char>, i: usize, q: char) -> (r: Option<usize>)
    requires
        i <= s@.len(),
    ensures
        r_matches_spec(r, spec_sl_body(s@, i as int, q)),
        end_in_range(r, i as int, s@.len() as int),
    decreases s@.len() - i,
{
    if i < s.len() && s[i] == q {
        Some(i + 1)
    } else if i < s.len() && s[i] == '\\' {
        match escape_len(s, i) {
            Some(l) => sl_body(s, i + l, q),
            None => None,
        }
    } else if i < s.len() && s[i] != '\n' && s[i] != '\r' {
        sl_body(s, i + 1, q)
    } else {
        None
    }
}

/// A single-line string: quote, body characters and escapes, quote.
pub open spec fn spec_sl_string_end(s: Seq<char>, i: int, q: char) -> Option<int> {
    if i < s.len() && s[i] == q {
        spec_sl_body(s, i + 1, q)
    } else {
        None
    }
}

/// Scans a long string body up to and including the closing triple quote.
pub open spec fn spec_long_body(s: Seq<char>, i: int, q: char) -> Option<int>
    decreases s.len() - i,
{
    if i + 3 <= s.len() && s[i] == q && s[i + 1] == q && s[i + 2] == q {
        Some(i + 3)
    } else if i < s.len() && s[i] == '\\' {
        match spec_escape_len(s, i) {
            Some(l) => spec_long_body(s, i + l, q),
            None => None,
        }
    } else if i < s.len() {
        spec_long_body(s, i + 1, q)
    } else {
        None
    }
}

fn long_body(s: &Vec<char>, i: usize, q: char) -> (r: Option<usize>)
    requires
        i <= s@.len(),
    ensures
        r_matches_spec(r, spec_long_body(s@, i as int, q)),
        end_in_range(r, i as int, s@.len() as int),
    decreases s@.len() - i,
{
    if s.len() - i >= 3 && s[i] == q && s[i + 1] == q && s[i + 2] == q {
        Some(i + 3)
    } else if i < s.len() && s[i] == '\\' {
        match escape_len(s, i) {
            Some(l) => long_body(s, i + l, q),
            None => None,
        }
    } else if i < s.len() {
        long_body(s, i + 1, q)
    } else {
        None
    }
}

/// A long string: triple quote, body, triple quote.
pub open spec fn spec_long_string_end(s: Seq<char>, i: int, q: char) -> Option<int> {
    if i + 3 <= s.len() && s[i] == q && s[i + 1] == q && s[i + 2] == q {
        spec_long_body(s, i + 3, q)
    } else {
        None
    }
}

/// The String production over its four terminal alternatives: the token's
/// end, and the range of the lexical value between the delimiters.
pub open spec fn spec_string_end(s: Seq<char>, i: int) -> Option<(int, int, int)> {
    if spec_long_string_end(s, i, '"') is Some {
        let e = spec_long_string_end(s, i, '"').unwrap();
        Some((e, i + 3, e - 3))
    } else if spec_sl_string_end(s, i, '"') is Some {
        let e = spec_sl_string_end(s, i, '"').unwrap();
        Some((e, i + 1, e - 1))
    } else if spec_long_string_end(s, i, '\'') is Some {
        let e = spec_long_string_end(s, i, '\'').unwrap();
        Some((e, i + 3, e - 3))
    } else if spec_sl_string_end(s, i, '\'') is Some {
        let e = spec_sl_string_end(s, i, '\'').unwrap();
        Some((e, i + 1, e - 1))
    } else {
        None
    }
}

proof fn lemma_sl_body_lower(s: Seq<char>, i: int, q: char)
    ensures
        spec_sl_body(s, i, q) matches Some(e) ==> e > i,
    decreases s.len() - i,
{
    if i < s.len() && s[i] == q {
    } else if i < s.len() && s[i] == '\\' {
        if spec_escape_len(s, i) is Some {
            lemma_sl_body_lower(s, i + spec_escape_len(s, i).unwrap(), q);
        }
    } else if i < s.len() && s[i] != '\n' && s[i] != '\r' {
        lemma_sl_body_lower(s, i + 1, q);
    }
}

proof fn lemma_long_body_lower(s: Seq<char>, i: int, q: char)
    ensures
        spec_long_body(s, i, q) matches Some(e) ==> e >= i + 3,
    decreases s.len() - i,
{
    if i + 3 <= s.len() && s[i] == q && s[i + 1] == q && s[i + 2] == q {
    } else if i < s.len() && s[i] == '\\' {
        if spec_escape_len(s, i) is Some {
            lemma_long_body_lower(s, i + spec_escape_len(s, i).unwrap(), q);
        }
    } else if i < s.len() {
        lemma_long_body_lower(s, i + 1, q);
    }
}

fn sl_string_end(s: &Vec<char>, i: usize, q: char) -> (r: Option<usize>)
    requires
        i <= s@.len(),
    ensures
        r_matches_spec(r, spec_sl_string_end(s@, i as int, q)),
        match r {
            Some(e) => i + 2 <= e <= s@.len(),
            None => true,
        },
{
    if i < s.len() && s[i] == q {
        let r = sl_body(s, i + 1, q);
        proof {
            lemma_sl_body_lower(s@, i + 1, q);
        }
        r
    } else {
        None
    }
}

fn long_string_end(s: &Vec<char>, i: usize, q: char) -> (r: Option<usize>)
    requires
        i <= s@.len(),
    ensures
        r_matches_spec(r, spec_long_string_end(s@, i as int, q)),
        match r {
            Some(e) => i + 6 <= e <= s@.len(),
            None => true,
        },
{
    if s.len() - i >= 3 && s[i] == q && s[i + 1] == q && s[i + 2] == q {
        let r = long_body(s, i + 3, q);
        proof {
            lemma_long_body_lower(s@, i + 3, q);
        }
        r
    } else {
        None
    }
}

/// Matches the String production: returns the token's end and the range of
/// the lexical value between the delimiters.
pub fn scan_string(s: &Vec<char>, i: usize) -> (r: Option<(usize, usize, usize)>)
    requires
        i <= s@.len(),
    ensures
        match r {
            Some((e, f, t)) => spec_string_end(s@, i as int) == Some((e as int, f as int, t as int))
                && i < f <= t <= e <= s@.len(),
            None => spec_string_end(s@, i as int) is None,
        },
{
    if let Some(e) = long_string_end(s, i, '"') {
        Some((e, i + 3, e - 3))
    } else if let Some(e) = sl_string_end(s, i, '"') {
        Some((e, i + 1, e - 1))
    } else if let Some(e) = long_string_end(s, i, '\'') {
        Some((e, i + 3, e - 3))
    } else if let Some(e) = sl_string_end(s, i, '\'') {
        Some((e, i + 1, e - 1))
    } else {
        None
    }
}


// ---------------------------------------------------------------------------
// Bare IRI text
// ---------------------------------------------------------------------------

/// Whether the characters of a bare IRI text (no angle brackets) are all
/// allowed, counting numeric escapes.
pub open spec fn spec_iri_text_ok(s: Seq<char>, i: int) -> bool
    decreases s.len() - i,
{
    if i >= s.len() {
        true
    } else if s[i] == '\\' {
        match spec_uchar_len(s, i) {
            Some(l) => spec_iri_text_ok(s, i + l),
            None => false,
        }
    } else if is_iri_char(s[i]) {
        spec_iri_text_ok(s, i + 1)
    } else {
        false
    }
}

/// Checks a bare IRI text (no angle brackets) for allowed characters.
pub fn iri_text_ok(s: &Vec<char>, i: usize) -> (r: bool)
    requires
        i <= s@.len(),
    ensures
        r == spec_iri_text_ok(s@, i as int),
    decreases s@.len() - i,
{
    if i >= s.len() {
        true
    } else if s[i] == '\\' {
        match uchar_len(s, i) {
            Some(l) => iri_text_ok(s, i + l),
            None => false,
        }
    } else if iri_char(s[i]) {
        iri_text_ok(s, i + 1)
    } else {
        false
    }
}

} // verus!
