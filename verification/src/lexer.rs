//! Tokens, and the lexer that cuts a source text into them.

use crate::boundary::{
    lemma_boundary_after_ascii, lemma_boundary_before_leading_byte, lemma_boundary_of_prefix,
    lemma_next_boundary, scalar_width,
};
use crate::scan::{
    blank_end, blank_len, blank_width, hash_comment_len, lex_multiline_string, lex_quoted_string,
    line_end, line_ending_len, multiline_len, number_len, quoted_end, quoted_len, reserved,
    scan_blanks, scan_line, scan_number, scan_word, slash_comment_len, substitution_start_len,
    word_at, word_end, CARRIAGE_RETURN, COLON, COMMA, DOLLAR, DOT, EQUALS, HASH, LEFT_BRACE,
    LEFT_BRACKET, LINE_FEED, PLUS, QUESTION_MARK, QUOTE, RIGHT_BRACE, RIGHT_BRACKET, SLASH,
};
use crate::span::Span;
use crate::syntax::HoconSyntaxKind;
use vstd::prelude::*;
use vstd::string::StringSliceAdditionalSpecFns;
use vstd::utf8::*;

verus! {

// ---------------------------------------------------------------------
// Which rule wins
// ---------------------------------------------------------------------

/// What one rule accepts at a position: the kind of token it would make
/// and the number of bytes it would take, 0 if the rule does not apply.
pub struct Match {
    pub kind: HoconSyntaxKind,
    pub len: int,
}

/// The longer of two matches; the first one where they are equally long.
pub open spec fn prefer(first: Match, second: Match) -> Match {
    if second.len > first.len {
        second
    } else {
        first
    }
}

/// The kind of the punctuation token that consists of the byte `b` alone.
pub open spec fn punctuation_kind(b: u8) -> Option<HoconSyntaxKind> {
    if b == COMMA {
        Some(HoconSyntaxKind::Comma)
    } else if b == EQUALS {
        Some(HoconSyntaxKind::Equals)
    } else if b == PLUS {
        Some(HoconSyntaxKind::Plus)
    } else if b == COLON {
        Some(HoconSyntaxKind::Colon)
    } else if b == LEFT_BRACKET {
        Some(HoconSyntaxKind::LeftBracket)
    } else if b == RIGHT_BRACKET {
        Some(HoconSyntaxKind::RightBracket)
    } else if b == LEFT_BRACE {
        Some(HoconSyntaxKind::LeftBrace)
    } else if b == RIGHT_BRACE {
        Some(HoconSyntaxKind::RightBrace)
    } else if b == DOLLAR {
        Some(HoconSyntaxKind::Dollar)
    } else if b == QUESTION_MARK {
        Some(HoconSyntaxKind::QuestionMark)
    } else if b == DOT {
        Some(HoconSyntaxKind::Dot)
    } else {
        None
    }
}

/// What the punctuation rule accepts at `i`.
pub open spec fn punctuation_match(s: Seq<u8>, i: int) -> Match {
    if 0 <= i < s.len() {
        match punctuation_kind(s[i]) {
            Some(kind) => Match { kind, len: 1 },
            None => Match { kind: HoconSyntaxKind::Error, len: 0 },
        }
    } else {
        Match { kind: HoconSyntaxKind::Error, len: 0 }
    }
}

/// The longest match among all rules at `i`. Where two rules accept
/// equally much, the one named first here wins: a number before a bare
/// word, a comment before a bare word.
pub open spec fn longest_match(s: Seq<u8>, i: int) -> Match {
    let m = Match { kind: HoconSyntaxKind::LineEnding, len: line_ending_len(s, i) };
    let m = prefer(
        m,
        Match { kind: HoconSyntaxKind::HorizontalWhitespace, len: blank_end(s, i) - i },
    );
    let m = prefer(
        m,
        Match { kind: HoconSyntaxKind::SubstitutionStart, len: substitution_start_len(s, i) },
    );
    let m = prefer(m, punctuation_match(s, i));
    let m = prefer(m, Match { kind: HoconSyntaxKind::HashComment, len: hash_comment_len(s, i) });
    let m = prefer(m, Match { kind: HoconSyntaxKind::SlashComment, len: slash_comment_len(s, i) });
    let m = prefer(m, Match { kind: HoconSyntaxKind::Number, len: number_len(s, i) });
    let m = prefer(m, Match { kind: HoconSyntaxKind::Ident, len: multiline_len(s, i) });
    let m = prefer(m, Match { kind: HoconSyntaxKind::Ident, len: quoted_len(s, i) });
    let m = prefer(m, Match { kind: HoconSyntaxKind::Ident, len: word_end(s, i) - i });
    m
}

/// The token that starts at `i`: the longest match, or, where no rule
/// applies, an `Error` token of one byte.
pub open spec fn token_at(s: Seq<u8>, i: int) -> Match {
    let m = longest_match(s, i);
    if m.len > 0 {
        m
    } else {
        Match { kind: HoconSyntaxKind::Error, len: 1 }
    }
}

/// Whether a token of the given kind that starts at `i` and ends at `e`
/// ends where a character ends, as far as the bytes around `e` show it.
pub open spec fn ends_cleanly(s: Seq<u8>, i: int, kind: HoconSyntaxKind, e: int) -> bool {
    ||| (kind == HoconSyntaxKind::HorizontalWhitespace && e == blank_end(s, i))
    ||| (0 < e <= s.len() && s[e - 1] < 0x80)
    ||| e == s.len()
    ||| (0 <= e < s.len() && !is_continuation_byte(s[e]))
}

/// A bare word never runs further than the line it stands on.
proof fn lemma_word_ends_within_line(s: Seq<u8>, i: int)
    requires
        0 <= i <= s.len(),
    ensures
        word_end(s, i) <= line_end(s, i),
    decreases s.len() - i,
{
    if word_at(s, i) {
        lemma_word_ends_within_line(s, i + 1);
    } else if i < s.len() && s[i] != LINE_FEED && s[i] != CARRIAGE_RETURN {
        lemma_line_end_bounds(s, i + 1);
    }
}

/// A line ends within the text.
pub proof fn lemma_line_end_bounds(s: Seq<u8>, i: int)
    requires
        0 <= i <= s.len(),
    ensures
        i <= line_end(s, i) <= s.len(),
    decreases s.len() - i,
{
    if i < s.len() && s[i] != LINE_FEED && s[i] != CARRIAGE_RETURN {
        lemma_line_end_bounds(s, i + 1);
    }
}

/// A run of blanks that starts on a character boundary ends on one.
proof fn lemma_blank_run_ends_on_boundary(s: Seq<u8>, i: int)
    requires
        valid_utf8(s),
        is_char_boundary(s, i),
        0 <= i <= s.len(),
    ensures
        is_char_boundary(s, blank_end(s, i)),
    decreases s.len() - i,
{
    let w = blank_len(s, i);
    if w > 0 {
        lemma_next_boundary(s, i);
        assert(w == scalar_width(s[i]));
        lemma_blank_run_ends_on_boundary(s, i + w);
    }
}

/// Cuts the token that starts at `i` and returns its kind and its length.
pub fn next_token(bytes: &[u8], i: usize) -> (r: (HoconSyntaxKind, usize))
    requires
        i < bytes.len(),
    ensures
        r.0 == token_at(bytes@, i as int).kind,
        r.1 == token_at(bytes@, i as int).len,
        1 <= r.1 <= bytes.len() - i,
        ends_cleanly(bytes@, i as int, r.0, i + r.1),
{
    let ghost s = bytes@;
    let b = bytes[i];
    let rest = bytes.len() - i;
    if b == LINE_FEED {
        return (HoconSyntaxKind::LineEnding, 1);
    }
    if b == CARRIAGE_RETURN && rest >= 2 && bytes[i + 1] == LINE_FEED {
        assert(blank_end(s, i + 1) == i + 1);
        return (HoconSyntaxKind::LineEnding, 2);
    }
    let w = blank_width(bytes, i);
    if w > 0 {
        let end = scan_blanks(bytes, i + w);
        return (HoconSyntaxKind::HorizontalWhitespace, end - i);
    }
    if b == DOLLAR {
        if rest >= 2 && bytes[i + 1] == LEFT_BRACE {
            if rest >= 3 && bytes[i + 2] == QUESTION_MARK {
                return (HoconSyntaxKind::SubstitutionStart, 3);
            }
            return (HoconSyntaxKind::SubstitutionStart, 2);
        }
        return (HoconSyntaxKind::Dollar, 1);
    }
    if b == COMMA {
        return (HoconSyntaxKind::Comma, 1);
    }
    if b == EQUALS {
        return (HoconSyntaxKind::Equals, 1);
    }
    if b == PLUS {
        return (HoconSyntaxKind::Plus, 1);
    }
    if b == COLON {
        return (HoconSyntaxKind::Colon, 1);
    }
    if b == LEFT_BRACKET {
        return (HoconSyntaxKind::LeftBracket, 1);
    }
    if b == RIGHT_BRACKET {
        return (HoconSyntaxKind::RightBracket, 1);
    }
    if b == LEFT_BRACE {
        return (HoconSyntaxKind::LeftBrace, 1);
    }
    if b == RIGHT_BRACE {
        return (HoconSyntaxKind::RightBrace, 1);
    }
    if b == QUESTION_MARK {
        return (HoconSyntaxKind::QuestionMark, 1);
    }
    if b == DOT {
        return (HoconSyntaxKind::Dot, 1);
    }
    if b == HASH {
        let end = scan_line(bytes, i + 1);
        return (HoconSyntaxKind::HashComment, end - i);
    }
    if b == QUOTE {
        if rest >= 3 && bytes[i + 1] == QUOTE && bytes[i + 2] == QUOTE {
            assert(quoted_end(s, i + 1, false) == Some(i + 2));
            match lex_multiline_string(bytes, i + 3) {
                Some(end) => {
                    return (HoconSyntaxKind::Ident, end - i);
                },
                None => {},
            }
        }
        match lex_quoted_string(bytes, i + 1) {
            Some(end) => {
                return (HoconSyntaxKind::Ident, end - i);
            },
            None => {
                return (HoconSyntaxKind::Error, 1);
            },
        }
    }
    if reserved(b) {
        return (HoconSyntaxKind::Error, 1);
    }
    if b == SLASH && rest >= 2 && bytes[i + 1] == SLASH {
        let end = scan_line(bytes, i + 2);
        proof {
            assert(line_end(s, i + 1) == line_end(s, i + 2));
            assert(line_end(s, i as int) == line_end(s, i + 1));
            lemma_word_ends_within_line(s, i as int);
        }
        return (HoconSyntaxKind::SlashComment, end - i);
    }
    let word = scan_word(bytes, i + 1) - i;
    let number = scan_number(bytes, i);
    if number >= word {
        (HoconSyntaxKind::Number, number)
    } else {
        (HoconSyntaxKind::Ident, word)
    }
}

// ---------------------------------------------------------------------
// Tokens
// ---------------------------------------------------------------------

/// The mathematical reading of a token: its kind, the bytes of its text
/// and the range of the source that it covers.
pub struct Lexeme {
    pub kind: HoconSyntaxKind,
    pub text: Seq<u8>,
    pub start: int,
    pub end: int,
}

/// A token: its kind, its text as a slice of the source, and the byte
/// range of that slice in the source.
#[derive(Debug, Clone, Copy)]
pub struct Token<'a> {
    pub token: HoconSyntaxKind,
    pub slice: &'a str,
    pub range: Span,
}

impl<'a> View for Token<'a> {
    type V = Lexeme;

    open spec fn view(&self) -> Lexeme {
        Lexeme {
            kind: self.token,
            text: self.slice.spec_bytes(),
            start: self.range.start as int,
            end: self.range.end as int,
        }
    }
}

/// The readings of a sequence of tokens.
pub open spec fn lexemes_of<'a>(tokens: Seq<Token<'a>>) -> Seq<Lexeme> {
    Seq::new(tokens.len(), |k: int| tokens[k]@)
}

/// The lexeme that starts at `i`.
pub open spec fn lexeme_at(s: Seq<u8>, i: int) -> Lexeme {
    let m = token_at(s, i);
    Lexeme { kind: m.kind, text: s.subrange(i, i + m.len), start: i, end: i + m.len }
}

/// The lexemes of the text from `i` on: the one that starts at `i`, then
/// the ones from its end on.
pub open spec fn lex_from(s: Seq<u8>, i: int) -> Seq<Lexeme>
    decreases s.len() - i,
{
    let end = i + token_at(s, i).len;
    if 0 <= i < s.len() {
        seq![lexeme_at(s, i)] + if end <= s.len() {
            lex_from(s, end)
        } else {
            Seq::empty()
        }
    } else {
        Seq::empty()
    }
}

/// The lexemes of a text.
pub open spec fn lex(s: Seq<u8>) -> Seq<Lexeme> {
    lex_from(s, 0)
}

/// The text of the lexemes from index `from` up to, and without, `to`.
pub open spec fn span_text(lexemes: Seq<Lexeme>, from: int, to: int) -> Seq<u8>
    decreases to - from,
{
    if from < 0 || to <= from || to > lexemes.len() {
        Seq::empty()
    } else {
        span_text(lexemes, from, to - 1) + lexemes[to - 1].text
    }
}

/// Whether the lexeme at index `k` starts where the one before it ends
/// (the first one at 0), is not empty, holds the bytes of its range in `s`
/// and has the kind of a token.
pub open spec fn tile_at(lexemes: Seq<Lexeme>, s: Seq<u8>, k: int) -> bool {
    &&& lexemes[k].start == if k == 0 {
        0
    } else {
        lexemes[k - 1].end
    }
    &&& 0 <= lexemes[k].start < lexemes[k].end <= s.len()
    &&& lexemes[k].text == s.subrange(lexemes[k].start, lexemes[k].end)
    &&& lexemes[k].kind.spec_is_token()
}

/// Whether the lexemes lie end to end over the whole of `s`.
pub open spec fn tiles(lexemes: Seq<Lexeme>, s: Seq<u8>) -> bool {
    &&& forall|k: int| 0 <= k < lexemes.len() ==> #[trigger] tile_at(lexemes, s, k)
    &&& if lexemes.len() == 0 {
        s.len() == 0
    } else {
        lexemes.last().end == s.len()
    }
}

/// Lexemes that lie end to end over a text spell it out.
pub proof fn lemma_tiles_spell_the_text(lexemes: Seq<Lexeme>, s: Seq<u8>, to: int)
    requires
        tiles(lexemes, s),
        0 <= to <= lexemes.len(),
    ensures
        span_text(lexemes, 0, to) == s.subrange(
            0,
            if to == 0 {
                0
            } else {
                lexemes[to - 1].end
            },
        ),
        to == lexemes.len() ==> span_text(lexemes, 0, to) == s,
    decreases to,
{
    if to > 0 {
        lemma_tiles_spell_the_text(lexemes, s, to - 1);
        let last = lexemes[to - 1];
        assert(tile_at(lexemes, s, to - 1));
        if to > 1 {
            assert(tile_at(lexemes, s, to - 2));
        }
        assert(span_text(lexemes, 0, to) == span_text(lexemes, 0, to - 1) + last.text);
        assert(span_text(lexemes, 0, to) =~= s.subrange(0, last.end));
    } else {
        assert(span_text(lexemes, 0, to) =~= s.subrange(0, 0));
    }
    if to == lexemes.len() {
        assert(s =~= s.subrange(0, s.len() as int));
    }
}

/// The text of the first lexemes is no longer than the text of all.
pub proof fn lemma_span_text_grows(lexemes: Seq<Lexeme>, to: int)
    requires
        0 <= to <= lexemes.len(),
    ensures
        span_text(lexemes, 0, to).len() <= span_text(lexemes, 0, lexemes.len() as int).len(),
    decreases lexemes.len() - to,
{
    if to < lexemes.len() {
        lemma_span_text_grows(lexemes, to + 1);
    }
}

/// Cuts a source text into its tokens.
///
/// Never fails: input that no rule accepts becomes `Error` tokens. The
/// tokens lie end to end over the whole text, so nothing of it is lost.
pub fn tokenize<'a>(source: &'a str) -> (tokens: Vec<Token<'a>>)
    ensures
        lexemes_of(tokens@) == lex(source.spec_bytes()),
        tiles(lexemes_of(tokens@), source.spec_bytes()),
{
    let bytes = source.as_bytes();
    let ghost s = source.spec_bytes();
    let mut tokens: Vec<Token<'a>> = Vec::new();
    let mut pos: usize = 0;
    proof {
        encode_utf8_valid_utf8(source@);
        is_char_boundary_start_end_of_seq(s);
        assert(lexemes_of(tokens@) + lex_from(s, 0) =~= lex_from(s, 0));
    }
    while pos < bytes.len()
        invariant
            bytes@ == s,
            s == source.spec_bytes(),
            valid_utf8(s),
            pos <= bytes.len(),
            is_char_boundary(s, pos as int),
            lexemes_of(tokens@) + lex_from(s, pos as int) == lex_from(s, 0),
            forall|k: int| 0 <= k < tokens.len() ==> #[trigger] tile_at(lexemes_of(tokens@), s, k),
            if tokens.len() == 0 {
                pos == 0
            } else {
                lexemes_of(tokens@).last().end == pos
            },
        decreases bytes.len() - pos,
    {
        let (kind, n) = next_token(bytes, pos);
        let end = pos + n;
        proof {
            if kind == HoconSyntaxKind::HorizontalWhitespace && end == blank_end(s, pos as int) {
                lemma_blank_run_ends_on_boundary(s, pos as int);
            } else if s[end - 1] < 0x80 {
                lemma_boundary_after_ascii(s, end as int);
            } else {
                lemma_boundary_before_leading_byte(s, end as int);
            }
            lemma_boundary_of_prefix(s, pos as int, end as int);
        }
        let (head, _) = source.split_at(end);
        let (_, slice) = head.split_at(pos);
        let token = Token { token: kind, slice, range: Span::new(pos, end) };
        let ghost before = tokens@;
        tokens.push(token);
        proof {
            assert(slice.spec_bytes() =~= s.subrange(pos as int, end as int));
            assert(token@ == lexeme_at(s, pos as int));
            assert(lexemes_of(tokens@) =~= lexemes_of(before).push(token@));
            assert(lexemes_of(tokens@) + lex_from(s, end as int) =~= lexemes_of(before) + lex_from(
                s,
                pos as int,
            ));
            assert forall|k: int| 0 <= k < tokens.len() implies #[trigger] tile_at(
                lexemes_of(tokens@),
                s,
                k,
            ) by {
                if k < before.len() {
                    assert(tile_at(lexemes_of(before), s, k));
                }
            }
        }
        pos = end;
    }
    tokens
}

// ---------------------------------------------------------------------
// The cursor
// ---------------------------------------------------------------------

/// The tokens of a source text and a cursor into them.
///
/// The cursor starts at the first token. It may run past the last one;
/// there is no token to read there.
#[derive(Debug)]
pub struct Lexer<'a> {
    tokens: Vec<Token<'a>>,
    cursor: usize,
}

impl<'a> Lexer<'a> {
    /// The readings of the tokens.
    pub closed spec fn lexemes(&self) -> Seq<Lexeme> {
        lexemes_of(self.tokens@)
    }

    /// The index of the token under the cursor.
    pub closed spec fn position(&self) -> int {
        self.cursor as int
    }

    /// The token at index `k`, if there is one.
    pub open spec fn lexeme(&self, k: int) -> Option<Lexeme> {
        if 0 <= k < self.lexemes().len() {
            Some(self.lexemes()[k])
        } else {
            None
        }
    }

    /// The number of tokens fits the type of the cursor.
    pub proof fn lemma_count_fits(&self)
        ensures
            self.lexemes().len() <= usize::MAX,
    {
        assert(self.tokens.len() == self.tokens@.len());
    }

    /// The cursor never stands before the first token, and its index fits
    /// the type of the cursor.
    pub proof fn lemma_position_bounds(&self)
        ensures
            0 <= self.position() <= usize::MAX,
    {
    }

    /// Cuts `source` into tokens and puts the cursor on the first one.
    pub fn new(source: &'a str) -> (lexer: Lexer<'a>)
        ensures
            lexer.lexemes() == lex(source.spec_bytes()),
            tiles(lexer.lexemes(), source.spec_bytes()),
            lexer.position() == 0,
    {
        Lexer { tokens: tokenize(source), cursor: 0 }
    }

    /// The token under the cursor.
    pub fn current(&self) -> (token: Option<&Token<'a>>)
        ensures
            token is Some <==> self.lexeme(self.position()) is Some,
            token matches Some(t) ==> self.lexeme(self.position()) == Some(t@),
    {
        if self.cursor < self.tokens.len() {
            Some(&self.tokens[self.cursor])
        } else {
            None
        }
    }

    /// The token behind the one under the cursor.
    pub fn peek(&self) -> (token: Option<&Token<'a>>)
        ensures
            token is Some <==> self.lexeme(self.position() + 1) is Some,
            token matches Some(t) ==> self.lexeme(self.position() + 1) == Some(t@),
    {
        if self.cursor < self.tokens.len() && self.cursor + 1 < self.tokens.len() {
            Some(&self.tokens[self.cursor + 1])
        } else {
            None
        }
    }

    /// Returns the token under the cursor and moves the cursor one token
    /// forward. The cursor moves even when there is no token under it.
    pub fn next(&mut self) -> (token: Option<Token<'a>>)
        requires
            old(self).position() < usize::MAX,
        ensures
            final(self).lexemes() == old(self).lexemes(),
            final(self).position() == old(self).position() + 1,
            final(self).position() > 0,
            token is Some <==> old(self).lexeme(old(self).position()) is Some,
            token matches Some(t) ==> old(self).lexeme(old(self).position()) == Some(t@),
    {
        let token = if self.cursor < self.tokens.len() {
            Some(self.tokens[self.cursor])
        } else {
            None
        };
        self.bump();
        token
    }

    /// Moves the cursor one token forward.
    pub fn bump(&mut self)
        requires
            old(self).position() < usize::MAX,
        ensures
            final(self).lexemes() == old(self).lexemes(),
            final(self).position() == old(self).position() + 1,
            final(self).position() > 0,
    {
        self.cursor += 1;
    }

    /// Moves the cursor one token back, so that the token returned last is
    /// read again. The cursor must not stand on the first token.
    pub fn rewind(&mut self)
        requires
            old(self).position() > 0,
        ensures
            final(self).lexemes() == old(self).lexemes(),
            final(self).position() == old(self).position() - 1,
            final(self).position() >= 0,
    {
        self.cursor -= 1;
    }

    /// The index of the token under the cursor.
    pub fn get_cursor(&self) -> (cursor: usize)
        ensures
            cursor == self.position(),
            self.position() >= 0,
    {
        self.cursor
    }

    /// The number of tokens.
    pub fn len(&self) -> (n: usize)
        ensures
            n == self.lexemes().len(),
    {
        self.tokens.len()
    }

    /// All tokens, in the order of the source.
    pub fn tokens(&self) -> (tokens: &Vec<Token<'a>>)
        ensures
            lexemes_of(tokens@) == self.lexemes(),
    {
        &self.tokens
    }
}

} // verus!
