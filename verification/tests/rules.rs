use hocon_lsp::lexer::{next_token, tokenize};
use hocon_lsp::scan::{
    blank_width, lex_multiline_string, lex_quoted_string, reserved, scan_blanks, scan_digits,
    scan_exponent, scan_line, scan_number, scan_word,
};
use hocon_lsp::syntax::HoconSyntaxKind;

fn kinds(source: &str) -> Vec<(HoconSyntaxKind, String)> {
    let mut found = Vec::new();
    let mut text = String::new();
    let mut at = 0;
    for token in tokenize(source) {
        assert_eq!(token.range.start, at);
        assert_eq!(&source[token.range.start..token.range.end], token.slice);
        assert!(token.range.start < token.range.end);
        assert!(token.token.is_token());
        at = token.range.end;
        text.push_str(token.slice);
        found.push((token.token, token.slice.to_string()));
    }
    assert_eq!(at, source.len());
    assert_eq!(text, source);
    found
}

fn pair(kind: HoconSyntaxKind, text: &str) -> (HoconSyntaxKind, String) {
    (kind, text.to_string())
}

#[test]
fn empty_text_has_no_tokens() {
    assert_eq!(kinds(""), vec![]);
}

#[test]
fn punctuation_is_one_token_each() {
    assert_eq!(
        kinds("{}[],=:+.$?"),
        vec![
            pair(HoconSyntaxKind::LeftBrace, "{"),
            pair(HoconSyntaxKind::RightBrace, "}"),
            pair(HoconSyntaxKind::LeftBracket, "["),
            pair(HoconSyntaxKind::RightBracket, "]"),
            pair(HoconSyntaxKind::Comma, ","),
            pair(HoconSyntaxKind::Equals, "="),
            pair(HoconSyntaxKind::Colon, ":"),
            pair(HoconSyntaxKind::Plus, "+"),
            pair(HoconSyntaxKind::Dot, "."),
            pair(HoconSyntaxKind::Dollar, "$"),
            pair(HoconSyntaxKind::QuestionMark, "?"),
        ]
    );
}

#[test]
fn substitution_opener_folds_the_question_mark() {
    assert_eq!(
        kinds("${a}${?b}$ {"),
        vec![
            pair(HoconSyntaxKind::SubstitutionStart, "${"),
            pair(HoconSyntaxKind::Ident, "a"),
            pair(HoconSyntaxKind::RightBrace, "}"),
            pair(HoconSyntaxKind::SubstitutionStart, "${?"),
            pair(HoconSyntaxKind::Ident, "b"),
            pair(HoconSyntaxKind::RightBrace, "}"),
            pair(HoconSyntaxKind::Dollar, "$"),
            pair(HoconSyntaxKind::HorizontalWhitespace, " "),
            pair(HoconSyntaxKind::LeftBrace, "{"),
        ]
    );
}

#[test]
fn blanks_and_line_endings_are_distinct() {
    assert_eq!(
        kinds(" \t\r\n\n\r \r\r\n"),
        vec![
            pair(HoconSyntaxKind::HorizontalWhitespace, " \t\r"),
            pair(HoconSyntaxKind::LineEnding, "\n"),
            pair(HoconSyntaxKind::LineEnding, "\n"),
            pair(HoconSyntaxKind::HorizontalWhitespace, "\r \r\r"),
            pair(HoconSyntaxKind::LineEnding, "\n"),
        ]
    );
    assert_eq!(kinds("\r\n"), vec![pair(HoconSyntaxKind::LineEnding, "\r\n")]);
}

#[test]
fn wide_blanks_are_blanks() {
    let source = "a\u{00A0}\u{1680}\u{2003}\u{2028}\u{2029}\u{202F}\u{205F}\u{3000}\u{FEFF}b";
    assert_eq!(
        kinds(source),
        vec![
            pair(HoconSyntaxKind::Ident, "a"),
            pair(
                HoconSyntaxKind::HorizontalWhitespace,
                "\u{00A0}\u{1680}\u{2003}\u{2028}\u{2029}\u{202F}\u{205F}\u{3000}\u{FEFF}"
            ),
            pair(HoconSyntaxKind::Ident, "b"),
        ]
    );
}

#[test]
fn other_characters_beyond_ascii_are_word_characters() {
    assert_eq!(
        kinds("caf\u{e9}\u{0085}\u{200B}\u{1F600} x"),
        vec![
            pair(HoconSyntaxKind::Ident, "caf\u{e9}\u{0085}\u{200B}\u{1F600}"),
            pair(HoconSyntaxKind::HorizontalWhitespace, " "),
            pair(HoconSyntaxKind::Ident, "x"),
        ]
    );
}

#[test]
fn comments_run_to_the_end_of_the_line() {
    assert_eq!(
        kinds("# a = {\n//b\r\nc//d e\n/ f"),
        vec![
            pair(HoconSyntaxKind::HashComment, "# a = {"),
            pair(HoconSyntaxKind::LineEnding, "\n"),
            pair(HoconSyntaxKind::SlashComment, "//b"),
            pair(HoconSyntaxKind::LineEnding, "\r\n"),
            pair(HoconSyntaxKind::Ident, "c//d"),
            pair(HoconSyntaxKind::HorizontalWhitespace, " "),
            pair(HoconSyntaxKind::Ident, "e"),
            pair(HoconSyntaxKind::LineEnding, "\n"),
            pair(HoconSyntaxKind::Ident, "/"),
            pair(HoconSyntaxKind::HorizontalWhitespace, " "),
            pair(HoconSyntaxKind::Ident, "f"),
        ]
    );
    assert_eq!(kinds("//"), vec![pair(HoconSyntaxKind::SlashComment, "//")]);
    assert_eq!(kinds("#"), vec![pair(HoconSyntaxKind::HashComment, "#")]);
}

#[test]
fn numbers_win_over_words_of_the_same_length() {
    assert_eq!(kinds("1.0"), vec![pair(HoconSyntaxKind::Number, "1.0")]);
    assert_eq!(kinds("10"), vec![pair(HoconSyntaxKind::Number, "10")]);
    assert_eq!(kinds("-5"), vec![pair(HoconSyntaxKind::Number, "-5")]);
    assert_eq!(kinds("0"), vec![pair(HoconSyntaxKind::Number, "0")]);
    assert_eq!(kinds("1e5"), vec![pair(HoconSyntaxKind::Number, "1e5")]);
    assert_eq!(kinds("1e+5"), vec![pair(HoconSyntaxKind::Number, "1e+5")]);
    assert_eq!(kinds("-0.25E-3"), vec![pair(HoconSyntaxKind::Number, "-0.25E-3")]);
}

#[test]
fn words_win_over_shorter_numbers() {
    assert_eq!(kinds("10abc"), vec![pair(HoconSyntaxKind::Ident, "10abc")]);
    assert_eq!(kinds("01"), vec![pair(HoconSyntaxKind::Ident, "01")]);
    assert_eq!(kinds("-"), vec![pair(HoconSyntaxKind::Ident, "-")]);
    assert_eq!(kinds("-a"), vec![pair(HoconSyntaxKind::Ident, "-a")]);
    assert_eq!(kinds("1e"), vec![pair(HoconSyntaxKind::Ident, "1e")]);
}

#[test]
fn number_stops_where_it_cannot_go_on() {
    assert_eq!(
        kinds("1."),
        vec![pair(HoconSyntaxKind::Number, "1"), pair(HoconSyntaxKind::Dot, ".")]
    );
    assert_eq!(
        kinds("1.5abc"),
        vec![pair(HoconSyntaxKind::Number, "1.5"), pair(HoconSyntaxKind::Ident, "abc")]
    );
    assert_eq!(
        kinds("1.2.3"),
        vec![
            pair(HoconSyntaxKind::Number, "1.2"),
            pair(HoconSyntaxKind::Dot, "."),
            pair(HoconSyntaxKind::Number, "3"),
        ]
    );
    assert_eq!(
        kinds("1e+"),
        vec![pair(HoconSyntaxKind::Ident, "1e"), pair(HoconSyntaxKind::Plus, "+")]
    );
}

#[test]
fn quoted_strings_honour_escapes() {
    assert_eq!(kinds(r#""a b""#), vec![pair(HoconSyntaxKind::Ident, r#""a b""#)]);
    assert_eq!(kinds(r#""a\"b""#), vec![pair(HoconSyntaxKind::Ident, r#""a\"b""#)]);
    assert_eq!(
        kinds(r#""a\\"b"#),
        vec![pair(HoconSyntaxKind::Ident, r#""a\\""#), pair(HoconSyntaxKind::Ident, "b")]
    );
    assert_eq!(kinds("\"\""), vec![pair(HoconSyntaxKind::Ident, "\"\"")]);
    assert_eq!(
        kinds("\"\u{e9}\u{3000}\""),
        vec![pair(HoconSyntaxKind::Ident, "\"\u{e9}\u{3000}\"")]
    );
}

#[test]
fn unterminated_quote_is_an_error_token() {
    assert_eq!(
        kinds("\"abc"),
        vec![pair(HoconSyntaxKind::Error, "\""), pair(HoconSyntaxKind::Ident, "abc")]
    );
    assert_eq!(kinds("\""), vec![pair(HoconSyntaxKind::Error, "\"")]);
    assert_eq!(
        kinds("\"a\\\""),
        vec![
            pair(HoconSyntaxKind::Error, "\""),
            pair(HoconSyntaxKind::Ident, "a"),
            pair(HoconSyntaxKind::Error, "\\"),
            pair(HoconSyntaxKind::Error, "\""),
        ]
    );
}

#[test]
fn multiline_strings_end_at_the_first_three_quotes() {
    assert_eq!(
        kinds("\"\"\"a\n\"b\\\"\"\"c"),
        vec![pair(HoconSyntaxKind::Ident, "\"\"\"a\n\"b\\\"\"\""), pair(HoconSyntaxKind::Ident, "c")]
    );
    assert_eq!(kinds("\"\"\"\"\"\""), vec![pair(HoconSyntaxKind::Ident, "\"\"\"\"\"\"")]);
    assert_eq!(
        kinds("\"\"\"\u{1F600}\u{e9}\"\"\""),
        vec![pair(HoconSyntaxKind::Ident, "\"\"\"\u{1F600}\u{e9}\"\"\"")]
    );
}

#[test]
fn unterminated_multiline_string_falls_back_to_quotes() {
    assert_eq!(
        kinds("\"\"\"abc"),
        vec![
            pair(HoconSyntaxKind::Ident, "\"\""),
            pair(HoconSyntaxKind::Error, "\""),
            pair(HoconSyntaxKind::Ident, "abc"),
        ]
    );
}

#[test]
fn characters_without_a_rule_are_error_tokens() {
    assert_eq!(
        kinds("`^!@*&\\~"),
        vec![
            pair(HoconSyntaxKind::Error, "`"),
            pair(HoconSyntaxKind::Error, "^"),
            pair(HoconSyntaxKind::Error, "!"),
            pair(HoconSyntaxKind::Error, "@"),
            pair(HoconSyntaxKind::Error, "*"),
            pair(HoconSyntaxKind::Error, "&"),
            pair(HoconSyntaxKind::Error, "\\"),
            pair(HoconSyntaxKind::Error, "~"),
        ]
    );
}

#[test]
fn next_token_cuts_one_token() {
    let bytes = "ab  c".as_bytes();
    assert_eq!(next_token(bytes, 0), (HoconSyntaxKind::Ident, 2));
    assert_eq!(next_token(bytes, 1), (HoconSyntaxKind::Ident, 1));
    assert_eq!(next_token(bytes, 2), (HoconSyntaxKind::HorizontalWhitespace, 2));
    assert_eq!(next_token(bytes, 4), (HoconSyntaxKind::Ident, 1));
    assert_eq!(next_token(&[0xE3, 0x80], 0), (HoconSyntaxKind::Ident, 2));
    assert_eq!(next_token(&[0x80, 0x20], 0), (HoconSyntaxKind::Ident, 1));
}

#[test]
fn scanners_return_the_end_of_a_run() {
    let bytes = "  \u{3000}x12e3 //c\nyz".as_bytes();
    assert_eq!(blank_width(bytes, 0), 1);
    assert_eq!(blank_width(bytes, 2), 3);
    assert_eq!(blank_width(bytes, 3), 0);
    assert_eq!(blank_width(bytes, 5), 0);
    assert_eq!(blank_width(bytes, bytes.len()), 0);
    assert_eq!(blank_width(&[0xC2, 0xA0], 0), 2);
    assert_eq!(blank_width(&[0xC2], 0), 0);
    assert_eq!(blank_width(&[0xE2, 0x80], 0), 0);
    assert_eq!(blank_width(&[0xE2, 0x80, 0x8B], 0), 0);
    assert_eq!(scan_blanks(bytes, 0), 5);
    assert_eq!(scan_blanks(bytes, 5), 5);
    assert_eq!(scan_word(bytes, 5), 10);
    assert_eq!(scan_word(bytes, 10), 10);
    assert_eq!(scan_digits(bytes, 6), 8);
    assert_eq!(scan_digits(bytes, 5), 5);
    assert_eq!(scan_exponent(bytes, 8), 10);
    assert_eq!(scan_exponent(bytes, 6), 6);
    assert_eq!(scan_number(bytes, 6), 4);
    assert_eq!(scan_number(bytes, 5), 0);
    assert_eq!(scan_line(bytes, 11), 14);
    assert_eq!(scan_line(bytes, 15), 17);
    assert!(reserved(b'~'));
    assert!(reserved(b'.'));
    assert!(!reserved(b'/'));
    assert!(!reserved(b'a'));
}

#[test]
fn string_scanners_find_the_closing_quotes() {
    assert_eq!(lex_quoted_string(b"ab\" c", 0), Some(3));
    assert_eq!(lex_quoted_string(b"a\\\"b\"", 0), Some(5));
    assert_eq!(lex_quoted_string(b"a\\\\\"b\"", 0), Some(4));
    assert_eq!(lex_quoted_string(b"abc", 0), None);
    assert_eq!(lex_quoted_string(b"", 0), None);
    assert_eq!(lex_multiline_string(b"a\"\"b\"\"\"c", 0), Some(7));
    assert_eq!(lex_multiline_string(b"\"\"\"\"", 0), Some(3));
    assert_eq!(lex_multiline_string(b"a\"\"", 0), None);
    assert_eq!(lex_multiline_string(b"", 0), None);
}
