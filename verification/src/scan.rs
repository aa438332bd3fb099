//! The lexical rules, one byte string at a time.
//!
//! Each rule is a spec function that says how many bytes it accepts at a
//! position of the input (0 when it does not apply), and an executable
//! scanner that computes the same number. The rules read bytes, not
//! characters: every byte that a rule tests for is either ASCII or the
//! leading byte of an encoded blank, so on well-formed UTF-8 they accept
//! exactly what the corresponding rules on characters would accept.

use vstd::prelude::*;

verus! {

pub const TAB: u8 = 0x09;
pub const LINE_FEED: u8 = 0x0A;
pub const CARRIAGE_RETURN: u8 = 0x0D;
pub const SPACE: u8 = 0x20;
pub const BANG: u8 = 0x21;
pub const QUOTE: u8 = 0x22;
pub const HASH: u8 = 0x23;
pub const DOLLAR: u8 = 0x24;
pub const AMPERSAND: u8 = 0x26;
pub const STAR: u8 = 0x2A;
pub const PLUS: u8 = 0x2B;
pub const COMMA: u8 = 0x2C;
pub const MINUS: u8 = 0x2D;
pub const DOT: u8 = 0x2E;
pub const SLASH: u8 = 0x2F;
pub const ZERO: u8 = 0x30;
pub const NINE: u8 = 0x39;
pub const COLON: u8 = 0x3A;
pub const EQUALS: u8 = 0x3D;
pub const QUESTION_MARK: u8 = 0x3F;
pub const AT: u8 = 0x40;
pub const UPPER_E: u8 = 0x45;
pub const LEFT_BRACKET: u8 = 0x5B;
pub const BACKSLASH: u8 = 0x5C;
pub const RIGHT_BRACKET: u8 = 0x5D;
pub const CARET: u8 = 0x5E;
pub const BACKTICK: u8 = 0x60;
pub const LOWER_E: u8 = 0x65;
pub const LEFT_BRACE: u8 = 0x7B;
pub const RIGHT_BRACE: u8 = 0x7D;
pub const TILDE: u8 = 0x7E;

// ---------------------------------------------------------------------
// Blanks and line endings
// ---------------------------------------------------------------------

/// The one-byte blanks: tab, vertical tab, form feed, carriage return, the
/// four information separators and the space.
pub open spec fn is_ascii_blank(b: u8) -> bool {
    b == TAB || b == 0x0B || b == 0x0C || b == CARRIAGE_RETURN || (0x1C <= b && b <= SPACE)
}

/// The three-byte blanks: U+1680, U+2000 to U+200A, U+2028, U+2029,
/// U+202F, U+205F, U+3000 and U+FEFF.
pub open spec fn is_wide_blank(a: u8, b: u8, c: u8) -> bool {
    ||| (a == 0xE1 && b == 0x9A && c == 0x80)
    ||| (a == 0xE2 && b == 0x80 && ((0x80 <= c && c <= 0x8A) || c == 0xA8 || c == 0xA9 || c
        == 0xAF))
    ||| (a == 0xE2 && b == 0x81 && c == 0x9F)
    ||| (a == 0xE3 && b == 0x80 && c == 0x80)
    ||| (a == 0xEF && b == 0xBB && c == 0xBF)
}

/// The number of bytes of the blank character that is encoded at `i`, or 0
/// if none is. The only two-byte blank is U+00A0.
pub open spec fn blank_len(s: Seq<u8>, i: int) -> int {
    if !(0 <= i < s.len()) {
        0
    } else if is_ascii_blank(s[i]) {
        1
    } else if i + 1 < s.len() && s[i] == 0xC2 && s[i + 1] == 0xA0 {
        2
    } else if i + 2 < s.len() && is_wide_blank(s[i], s[i + 1], s[i + 2]) {
        3
    } else {
        0
    }
}

/// The end of the longest run of blanks that starts at `i`.
pub open spec fn blank_end(s: Seq<u8>, i: int) -> int
    decreases s.len() - i,
{
    if blank_len(s, i) > 0 {
        blank_end(s, i + blank_len(s, i))
    } else {
        i
    }
}

/// The length of the line ending (`\n` or `\r\n`) at `i`, or 0.
pub open spec fn line_ending_len(s: Seq<u8>, i: int) -> int {
    if !(0 <= i < s.len()) {
        0
    } else if s[i] == LINE_FEED {
        1
    } else if i + 1 < s.len() && s[i] == CARRIAGE_RETURN && s[i + 1] == LINE_FEED {
        2
    } else {
        0
    }
}

/// The first position from `i` on that holds a line feed or a carriage
/// return, or the end of the input.
pub open spec fn line_end(s: Seq<u8>, i: int) -> int
    decreases s.len() - i,
{
    if 0 <= i < s.len() && s[i] != LINE_FEED && s[i] != CARRIAGE_RETURN {
        line_end(s, i + 1)
    } else {
        i
    }
}

/// The length of the `#` comment at `i`, or 0.
pub open spec fn hash_comment_len(s: Seq<u8>, i: int) -> int {
    if 0 <= i < s.len() && s[i] == HASH {
        line_end(s, i) - i
    } else {
        0
    }
}

/// The length of the `//` comment at `i`, or 0.
pub open spec fn slash_comment_len(s: Seq<u8>, i: int) -> int {
    if 0 <= i && i + 1 < s.len() && s[i] == SLASH && s[i + 1] == SLASH {
        line_end(s, i) - i
    } else {
        0
    }
}

// ---------------------------------------------------------------------
// Punctuation
// ---------------------------------------------------------------------

/// The bytes that a bare word cannot hold, besides blanks and line feeds.
pub open spec fn is_reserved(b: u8) -> bool {
    b == DOLLAR || b == QUOTE || b == LEFT_BRACE || b == RIGHT_BRACE || b == LEFT_BRACKET || b
        == RIGHT_BRACKET || b == COLON || b == EQUALS || b == COMMA || b == PLUS || b == HASH || b
        == BACKTICK || b == CARET || b == QUESTION_MARK || b == BANG || b == AT || b == STAR || b
        == AMPERSAND || b == BACKSLASH || b == DOT || b == TILDE
}

/// The length of the substitution opener (`${` or `${?`) at `i`, or 0.
pub open spec fn substitution_start_len(s: Seq<u8>, i: int) -> int {
    if 0 <= i && i + 1 < s.len() && s[i] == DOLLAR && s[i + 1] == LEFT_BRACE {
        if i + 2 < s.len() && s[i + 2] == QUESTION_MARK {
            3
        } else {
            2
        }
    } else {
        0
    }
}

// ---------------------------------------------------------------------
// Words
// ---------------------------------------------------------------------

/// Whether the byte at `i` can stand in a bare word.
pub open spec fn word_at(s: Seq<u8>, i: int) -> bool {
    0 <= i < s.len() && !is_reserved(s[i]) && s[i] != LINE_FEED && blank_len(s, i) == 0
}

/// The end of the longest bare word that starts at `i`.
pub open spec fn word_end(s: Seq<u8>, i: int) -> int
    decreases s.len() - i,
{
    if word_at(s, i) {
        word_end(s, i + 1)
    } else {
        i
    }
}

// ---------------------------------------------------------------------
// Strings
// ---------------------------------------------------------------------

/// Where the quoted string ends whose text after the opening quote starts
/// at `j`: just behind the first quote that is not escaped. A backslash
/// toggles `escaped`, any other byte clears it. `None` if the input ends
/// first.
pub open spec fn quoted_end(s: Seq<u8>, j: int, escaped: bool) -> Option<int>
    decreases s.len() - j,
{
    if !(0 <= j < s.len()) {
        None
    } else if s[j] == BACKSLASH {
        quoted_end(s, j + 1, !escaped)
    } else if s[j] == QUOTE && !escaped {
        Some(j + 1)
    } else {
        quoted_end(s, j + 1, false)
    }
}

/// The length of the quoted string at `i`, or 0.
pub open spec fn quoted_len(s: Seq<u8>, i: int) -> int {
    if 0 <= i < s.len() && s[i] == QUOTE {
        match quoted_end(s, i + 1, false) {
            Some(e) => e - i,
            None => 0,
        }
    } else {
        0
    }
}

/// Whether three quotes stand at `j`.
pub open spec fn triple_quote_at(s: Seq<u8>, j: int) -> bool {
    0 <= j && j + 3 <= s.len() && s[j] == QUOTE && s[j + 1] == QUOTE && s[j + 2] == QUOTE
}

/// Where the multi-line string ends whose text after the opening quotes
/// starts at `j`: just behind the first three quotes in a row. Nothing is
/// escaped. `None` if the input ends first.
pub open spec fn multiline_end(s: Seq<u8>, j: int) -> Option<int>
    decreases s.len() - j,
{
    if j < 0 || j + 3 > s.len() {
        None
    } else if triple_quote_at(s, j) {
        Some(j + 3)
    } else {
        multiline_end(s, j + 1)
    }
}

/// The length of the multi-line string at `i`, or 0.
pub open spec fn multiline_len(s: Seq<u8>, i: int) -> int {
    if triple_quote_at(s, i) {
        match multiline_end(s, i + 3) {
            Some(e) => e - i,
            None => 0,
        }
    } else {
        0
    }
}

// ---------------------------------------------------------------------
// Numbers
// ---------------------------------------------------------------------

pub open spec fn is_digit(b: u8) -> bool {
    ZERO <= b && b <= NINE
}

/// The end of the longest run of digits that starts at `i`.
pub open spec fn digits_end(s: Seq<u8>, i: int) -> int
    decreases s.len() - i,
{
    if 0 <= i < s.len() && is_digit(s[i]) {
        digits_end(s, i + 1)
    } else {
        i
    }
}

/// The end of the integer at `i`: an optional `-`, then either `0` or a
/// run of digits that does not start with `0`. `i` itself if there is none.
pub open spec fn integer_end(s: Seq<u8>, i: int) -> int {
    let k = if 0 <= i < s.len() && s[i] == MINUS {
        i + 1
    } else {
        i
    };
    if 0 <= k < s.len() && s[k] == ZERO {
        k + 1
    } else if 0 <= k < s.len() && is_digit(s[k]) {
        digits_end(s, k)
    } else {
        i
    }
}

/// The end of the exponent at `j`: `e` or `E`, an optional sign and a run
/// of digits. `j` itself if there is none.
pub open spec fn exponent_end(s: Seq<u8>, j: int) -> int {
    if 0 <= j < s.len() && (s[j] == LOWER_E || s[j] == UPPER_E) {
        let k = if j + 1 < s.len() && (s[j + 1] == PLUS || s[j + 1] == MINUS) {
            j + 2
        } else {
            j + 1
        };
        if k < s.len() && is_digit(s[k]) {
            digits_end(s, k)
        } else {
            j
        }
    } else {
        j
    }
}

/// The end of what may follow an integer that ends at `j`: a `.` with
/// digits and an optional exponent, or an exponent alone. `j` itself if
/// neither is there.
pub open spec fn fraction_end(s: Seq<u8>, j: int) -> int {
    if 0 <= j && j + 1 < s.len() && s[j] == DOT && is_digit(s[j + 1]) {
        exponent_end(s, digits_end(s, j + 1))
    } else {
        exponent_end(s, j)
    }
}

/// The length of the number at `i`, or 0.
pub open spec fn number_len(s: Seq<u8>, i: int) -> int {
    let e = integer_end(s, i);
    if e > i {
        fraction_end(s, e) - i
    } else {
        0
    }
}

// ---------------------------------------------------------------------
// Scanners
// ---------------------------------------------------------------------

/// The number of bytes of the blank character encoded at `i`, or 0.
pub fn blank_width(bytes: &[u8], i: usize) -> (n: usize)
    requires
        i <= bytes.len(),
    ensures
        n == blank_len(bytes@, i as int),
        i + n <= bytes.len(),
{
    if i >= bytes.len() {
        return 0;
    }
    let a = bytes[i];
    if a == TAB || a == 0x0B || a == 0x0C || a == CARRIAGE_RETURN || (0x1C <= a && a <= SPACE) {
        return 1;
    }
    if bytes.len() - i < 2 {
        return 0;
    }
    let b = bytes[i + 1];
    if a == 0xC2 && b == 0xA0 {
        return 2;
    }
    if bytes.len() - i < 3 {
        return 0;
    }
    let c = bytes[i + 2];
    let wide = (a == 0xE1 && b == 0x9A && c == 0x80) || (a == 0xE2 && b == 0x80 && ((0x80 <= c
        && c <= 0x8A) || c == 0xA8 || c == 0xA9 || c == 0xAF)) || (a == 0xE2 && b == 0x81 && c
        == 0x9F) || (a == 0xE3 && b == 0x80 && c == 0x80) || (a == 0xEF && b == 0xBB && c
        == 0xBF);
    if wide {
        3
    } else {
        0
    }
}

/// The end of the longest run of blanks that starts at `i`.
pub fn scan_blanks(bytes: &[u8], i: usize) -> (end: usize)
    requires
        i <= bytes.len(),
    ensures
        end == blank_end(bytes@, i as int),
        i <= end <= bytes.len(),
{
    let mut j: usize = i;
    loop
        invariant
            i <= j <= bytes.len(),
            blank_end(bytes@, j as int) == blank_end(bytes@, i as int),
        ensures
            i <= j <= bytes.len(),
            j == blank_end(bytes@, i as int),
        decreases bytes.len() - j,
    {
        let n = blank_width(bytes, j);
        if n == 0 {
            break;
        }
        j = j + n;
    }
    j
}

/// The first position from `i` on that holds a line feed or a carriage
/// return, or the end of the input.
pub fn scan_line(bytes: &[u8], i: usize) -> (end: usize)
    requires
        i <= bytes.len(),
    ensures
        end == line_end(bytes@, i as int),
        i <= end <= bytes.len(),
        end < bytes.len() ==> bytes[end as int] == LINE_FEED || bytes[end as int]
            == CARRIAGE_RETURN,
{
    let mut j: usize = i;
    while j < bytes.len() && bytes[j] != LINE_FEED && bytes[j] != CARRIAGE_RETURN
        invariant
            i <= j <= bytes.len(),
            line_end(bytes@, j as int) == line_end(bytes@, i as int),
        decreases bytes.len() - j,
    {
        j = j + 1;
    }
    j
}

/// Whether the byte is one that a bare word cannot hold.
pub fn reserved(b: u8) -> (r: bool)
    ensures
        r == is_reserved(b),
{
    b == DOLLAR || b == QUOTE || b == LEFT_BRACE || b == RIGHT_BRACE || b == LEFT_BRACKET || b
        == RIGHT_BRACKET || b == COLON || b == EQUALS || b == COMMA || b == PLUS || b == HASH || b
        == BACKTICK || b == CARET || b == QUESTION_MARK || b == BANG || b == AT || b == STAR || b
        == AMPERSAND || b == BACKSLASH || b == DOT || b == TILDE
}

/// The end of the longest bare word that starts at `i`.
pub fn scan_word(bytes: &[u8], i: usize) -> (end: usize)
    requires
        i <= bytes.len(),
    ensures
        end == word_end(bytes@, i as int),
        i <= end <= bytes.len(),
        !word_at(bytes@, end as int),
{
    let mut j: usize = i;
    loop
        invariant
            i <= j <= bytes.len(),
            word_end(bytes@, j as int) == word_end(bytes@, i as int),
        ensures
            i <= j <= bytes.len(),
            j == word_end(bytes@, i as int),
            !word_at(bytes@, j as int),
        decreases bytes.len() - j,
    {
        if j >= bytes.len() {
            break;
        }
        let b = bytes[j];
        if reserved(b) || b == LINE_FEED {
            break;
        }
        if b >= 0x80 || b <= SPACE {
            let n = blank_width(bytes, j);
            if n > 0 {
                break;
            }
        }
        j = j + 1;
    }
    j
}

/// Scans the body of a quoted string, which starts at `start` behind the
/// opening quote, and returns the position behind the closing quote.
pub fn lex_quoted_string(bytes: &[u8], start: usize) -> (end: Option<usize>)
    requires
        start <= bytes.len(),
    ensures
        match end {
            Some(e) => quoted_end(bytes@, start as int, false) == Some(e as int) && start < e
                <= bytes.len() && bytes[e - 1] == QUOTE,
            None => quoted_end(bytes@, start as int, false) is None,
        },
{
    let mut escaped = false;
    let mut j: usize = start;
    while j < bytes.len()
        invariant
            start <= j <= bytes.len(),
            quoted_end(bytes@, j as int, escaped) == quoted_end(bytes@, start as int, false),
        decreases bytes.len() - j,
    {
        let c = bytes[j];
        if c == BACKSLASH {
            escaped = !escaped;
        } else if c == QUOTE && !escaped {
            return Some(j + 1);
        } else {
            escaped = false;
        }
        j = j + 1;
    }
    None
}

/// Scans the body of a multi-line string, which starts at `start` behind
/// the three opening quotes, and returns the position behind the three
/// closing quotes.
pub fn lex_multiline_string(bytes: &[u8], start: usize) -> (end: Option<usize>)
    requires
        start <= bytes.len(),
    ensures
        match end {
            Some(e) => multiline_end(bytes@, start as int) == Some(e as int) && start + 3 <= e
                <= bytes.len() && bytes[e - 1] == QUOTE,
            None => multiline_end(bytes@, start as int) is None,
        },
{
    let mut j: usize = start;
    while bytes.len() - j >= 3
        invariant
            start <= j <= bytes.len(),
            multiline_end(bytes@, j as int) == multiline_end(bytes@, start as int),
        decreases bytes.len() - j,
    {
        if bytes[j] == QUOTE && bytes[j + 1] == QUOTE && bytes[j + 2] == QUOTE {
            return Some(j + 3);
        }
        j = j + 1;
    }
    None
}

/// The end of the longest run of digits that starts at `i`.
pub fn scan_digits(bytes: &[u8], i: usize) -> (end: usize)
    requires
        i <= bytes.len(),
    ensures
        end == digits_end(bytes@, i as int),
        i <= end <= bytes.len(),
        i < end ==> is_digit(bytes[end - 1]),
{
    let mut j: usize = i;
    while j < bytes.len() && ZERO <= bytes[j] && bytes[j] <= NINE
        invariant
            i <= j <= bytes.len(),
            i < j ==> is_digit(bytes[j - 1]),
            digits_end(bytes@, j as int) == digits_end(bytes@, i as int),
        decreases bytes.len() - j,
    {
        j = j + 1;
    }
    j
}

/// The end of the exponent at `j`, or `j` itself.
pub fn scan_exponent(bytes: &[u8], j: usize) -> (end: usize)
    requires
        j <= bytes.len(),
    ensures
        end == exponent_end(bytes@, j as int),
        j <= end <= bytes.len(),
        j < end ==> is_digit(bytes[end - 1]),
{
    if j < bytes.len() && (bytes[j] == LOWER_E || bytes[j] == UPPER_E) {
        let mut k: usize = j + 1;
        if k < bytes.len() && (bytes[k] == PLUS || bytes[k] == MINUS) {
            k = k + 1;
        }
        if k < bytes.len() && ZERO <= bytes[k] && bytes[k] <= NINE {
            return scan_digits(bytes, k + 1);
        }
    }
    j
}

/// The length of the number at `i`, or 0.
pub fn scan_number(bytes: &[u8], i: usize) -> (n: usize)
    requires
        i <= bytes.len(),
    ensures
        n == number_len(bytes@, i as int),
        i + n <= bytes.len(),
        n > 0 ==> is_digit(bytes[i + n - 1]),
{
    let mut k: usize = i;
    if k < bytes.len() && bytes[k] == MINUS {
        k = k + 1;
    }
    if k >= bytes.len() || !(ZERO <= bytes[k] && bytes[k] <= NINE) {
        return 0;
    }
    let e = if bytes[k] == ZERO {
        k + 1
    } else {
        scan_digits(bytes, k + 1)
    };
    let end = if bytes.len() - e >= 2 && bytes[e] == DOT && ZERO <= bytes[e + 1] && bytes[e + 1]
        <= NINE {
        let d = scan_digits(bytes, e + 2);
        scan_exponent(bytes, d)
    } else {
        scan_exponent(bytes, e)
    };
    end - i
}

} // verus!
