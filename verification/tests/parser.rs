use hocon_lsp::error::Error;
use hocon_lsp::lexer::tokenize;
use hocon_lsp::parser::{Parse, Parser};
use hocon_lsp::syntax::HoconSyntaxKind;
use rowan::{GreenNodeData, NodeOrToken};

/// Writes a tree out as nested lists: `Kind(child child ..)` for a node and
/// `Kind"text"` for a leaf.
fn render(node: &GreenNodeData) -> String {
    let kind = HoconSyntaxKind::from_raw(node.kind().0).unwrap();
    assert!(kind.is_node());
    let mut parts = Vec::new();
    for child in node.children() {
        match child {
            NodeOrToken::Node(inner) => parts.push(render(inner)),
            NodeOrToken::Token(token) => {
                let kind = HoconSyntaxKind::from_raw(token.kind().0).unwrap();
                assert!(kind.is_token());
                parts.push(format!("{:?}{:?}", kind, token.text()));
            }
        }
    }
    format!("{:?}({})", kind, parts.join(" "))
}

fn tree(source: &str) -> String {
    let parsed = Parser::parse(source);
    assert_eq!(parsed.green.to_string(), source);
    render(&parsed.green)
}

fn problems(source: &str) -> Vec<(usize, usize, String)> {
    let Parse { errors, .. } = Parser::parse(source);
    let mut found = Vec::new();
    for Error { range, message } in errors {
        found.push((range.start, range.end, message));
    }
    found
}

#[test]
fn bare_key_is_not_wrapped_in_a_path() {
    assert_eq!(tree("a"), r#"Root(Entry(Key(Ident"a") Value()))"#);
    assert_eq!(problems("a"), vec![(1, 1, "missing separator".to_string())]);
}

#[test]
fn dotted_key_is_wrapped_in_one_path() {
    assert_eq!(
        tree("a.b.c"),
        r#"Root(Entry(Key(PathExpression(Ident"a" Dot"." Ident"b" Dot"." Ident"c")) Value()))"#
    );
}

#[test]
fn object_may_follow_a_key_without_separator() {
    assert_eq!(
        tree("a{}"),
        r#"Root(Entry(Key(Ident"a") Value(Object(LeftBrace"{" RightBrace"}"))))"#
    );
    assert_eq!(problems("a{}"), vec![]);
}

#[test]
fn invalid_separator_is_reported_once() {
    assert_eq!(
        tree("a ~ {}"),
        r#"Root(Entry(Key(Ident"a" HorizontalWhitespace" ") Error"~" Value(HorizontalWhitespace" " Object(LeftBrace"{" RightBrace"}"))))"#
    );
    assert_eq!(
        problems("a ~ {}"),
        vec![(2, 3, "unexpected token in place of a separator".to_string())]
    );
}

#[test]
fn append_operator_is_two_leaves() {
    assert_eq!(
        tree("a += 1"),
        r#"Root(Entry(Key(Ident"a" HorizontalWhitespace" ") Plus"+" Equals"=" Value(HorizontalWhitespace" " Number"1")))"#
    );
    assert_eq!(problems("a += 1"), vec![]);
}

#[test]
fn plus_without_equals_is_reported() {
    assert_eq!(
        tree("a +1"),
        r#"Root(Entry(Key(Ident"a" HorizontalWhitespace" ") Plus"+" Error"1" Value()))"#
    );
    assert_eq!(
        problems("a +1"),
        vec![(3, 4, "malformed append operator: `+` must be followed by `=`".to_string())]
    );
}

#[test]
fn comments_are_kept() {
    assert_eq!(
        tree("a=1 # trailing\nb=2"),
        r##"Root(Entry(Key(Ident"a") Equals"=" Value(Number"1" HorizontalWhitespace" ")) HashComment"# trailing" LineEnding"\n" Entry(Key(Ident"b") Equals"=" Value(Number"2")))"##
    );
    assert_eq!(problems("a=1 # trailing\nb=2"), vec![]);
}

#[test]
fn unclosed_object_is_closed_at_the_end() {
    assert_eq!(
        tree("a={"),
        r#"Root(Entry(Key(Ident"a") Equals"=" Value(Object(LeftBrace"{"))))"#
    );
    assert_eq!(problems("a={"), vec![(2, 3, "unterminated object".to_string())]);
}

#[test]
fn token_appends_a_leaf() {
    let mut parser = Parser::new("a");
    let before = format!("{:?}", parser);
    assert!(!before.contains("\"zzz\""));
    parser.token(HoconSyntaxKind::Ident, "zzz");
    let after = format!("{:?}", parser);
    assert!(after.contains("\"zzz\""));
}

#[test]
fn empty_text_is_an_empty_root() {
    assert_eq!(tree(""), "Root()");
    assert_eq!(problems(""), vec![]);
}

#[test]
fn try_parse_accepts_ordinary_text() {
    let parsed = Parser::try_parse("a = 1").unwrap();
    assert_eq!(parsed.green.to_string(), "a = 1");
    assert!(parsed.errors.is_empty());
}

#[test]
fn colon_separates_key_and_value() {
    assert_eq!(
        tree("a : b c"),
        r#"Root(Entry(Key(Ident"a" HorizontalWhitespace" ") Colon":" Value(HorizontalWhitespace" " Ident"b" HorizontalWhitespace" " Ident"c")))"#
    );
    assert_eq!(problems("a : b c"), vec![]);
}

#[test]
fn braces_at_the_top_are_plain_leaves() {
    assert_eq!(
        tree("{a=1}"),
        r#"Root(LeftBrace"{" Entry(Key(Ident"a") Equals"=" Value(Number"1")) RightBrace"}")"#
    );
    assert_eq!(problems("{a=1}"), vec![]);
}

#[test]
fn comma_outside_of_an_array_is_stray() {
    assert_eq!(tree(","), r#"Root(Error",")"#);
    assert_eq!(problems(","), vec![(0, 1, "unexpected token".to_string())]);
    assert_eq!(
        tree("a=1,b=2"),
        r#"Root(Entry(Key(Ident"a") Equals"=" Value(Number"1")) Error"," Entry(Key(Ident"b") Equals"=" Value(Number"2")))"#
    );
    assert_eq!(problems("a=1,b=2"), vec![(3, 4, "unexpected token".to_string())]);
    assert_eq!(
        tree("a{b=1,c=2}"),
        r#"Root(Entry(Key(Ident"a") Value(Object(LeftBrace"{" Entry(Key(Ident"b") Equals"=" Value(Number"1")) Error"," Entry(Key(Ident"c") Equals"=" Value(Number"2")) RightBrace"}"))))"#
    );
    assert_eq!(problems("a{b=1,c=2}"), vec![(5, 6, "unexpected token".to_string())]);
}

#[test]
fn commas_separate_the_elements_of_an_array() {
    assert_eq!(
        tree("a=[1,2]"),
        r#"Root(Entry(Key(Ident"a") Equals"=" Value(Array(LeftBracket"[" Value(Number"1") Comma"," Value(Number"2") RightBracket"]"))))"#
    );
    assert_eq!(problems("a=[1,2]"), vec![]);
}

#[test]
fn error_token_at_the_top_does_not_stop_the_parse() {
    assert_eq!(
        tree("!a=1"),
        r#"Root(Error"!" Entry(Key(Ident"a") Equals"=" Value(Number"1")))"#
    );
    assert_eq!(problems("!a=1"), vec![(0, 1, "unexpected token".to_string())]);
    assert_eq!(
        tree("= ] :"),
        r#"Root(Error"=" HorizontalWhitespace" " Error"]" HorizontalWhitespace" " Error":")"#
    );
    assert_eq!(
        problems("= ] :"),
        vec![
            (0, 1, "unexpected token".to_string()),
            (2, 3, "unexpected token".to_string()),
            (4, 5, "unexpected token".to_string()),
        ]
    );
}

#[test]
fn numbers_and_quoted_strings_can_be_keys() {
    assert_eq!(
        tree("1 = 2"),
        r#"Root(Entry(Key(Number"1" HorizontalWhitespace" ") Equals"=" Value(HorizontalWhitespace" " Number"2")))"#
    );
    assert_eq!(
        tree("\"a b\".c = 1"),
        r#"Root(Entry(Key(PathExpression(Ident"\"a b\"" Dot"." Ident"c" HorizontalWhitespace" ")) Equals"=" Value(HorizontalWhitespace" " Number"1")))"#
    );
}

#[test]
fn path_takes_what_was_read_before_the_first_dot() {
    assert_eq!(
        tree("a b.c=1"),
        r#"Root(Entry(Key(PathExpression(Ident"a" HorizontalWhitespace" " Ident"b" Dot"." Ident"c")) Equals"=" Value(Number"1")))"#
    );
}

#[test]
fn nested_objects_and_arrays() {
    assert_eq!(
        tree("a { b = [1, {c:2}] }"),
        r#"Root(Entry(Key(Ident"a" HorizontalWhitespace" ") Value(Object(LeftBrace"{" HorizontalWhitespace" " Entry(Key(Ident"b" HorizontalWhitespace" ") Equals"=" Value(HorizontalWhitespace" " Array(LeftBracket"[" Value(Number"1") Comma"," HorizontalWhitespace" " Value(Object(LeftBrace"{" Entry(Key(Ident"c") Colon":" Value(Number"2")) RightBrace"}")) RightBracket"]") HorizontalWhitespace" ")) RightBrace"}"))))"#
    );
    assert_eq!(problems("a { b = [1, {c:2}] }"), vec![]);
}

#[test]
fn substitutions_hold_a_path() {
    assert_eq!(
        tree("a = ${b.c}x${?d}"),
        r#"Root(Entry(Key(Ident"a" HorizontalWhitespace" ") Equals"=" Value(HorizontalWhitespace" " Substitution(SubstitutionStart"${" PathExpression(Ident"b" Dot"." Ident"c") RightBrace"}") Ident"x" Substitution(SubstitutionStart"${?" PathExpression(Ident"d") RightBrace"}"))))"#
    );
    assert_eq!(problems("a = ${b.c}x${?d}"), vec![]);
}

#[test]
fn unclosed_substitution_is_reported_at_its_opener() {
    assert_eq!(
        tree("a=${b\nc=1"),
        r#"Root(Entry(Key(Ident"a") Equals"=" Value(Substitution(SubstitutionStart"${" PathExpression(Ident"b")))) LineEnding"\n" Entry(Key(Ident"c") Equals"=" Value(Number"1")))"#
    );
    assert_eq!(problems("a=${b\nc=1"), vec![(2, 4, "unterminated substitution".to_string())]);
}

#[test]
fn unclosed_array_is_reported_at_its_opener() {
    assert_eq!(
        tree("a=[1,"),
        r#"Root(Entry(Key(Ident"a") Equals"=" Value(Array(LeftBracket"[" Value(Number"1") Comma","))))"#
    );
    assert_eq!(problems("a=[1,"), vec![(2, 3, "unterminated array".to_string())]);
}

#[test]
fn every_unclosed_list_is_reported() {
    assert_eq!(
        problems("a={b=[{"),
        vec![
            (6, 7, "unterminated object".to_string()),
            (5, 6, "unterminated array".to_string()),
            (2, 3, "unterminated object".to_string()),
        ]
    );
    assert_eq!(
        tree("a={b=[{"),
        r#"Root(Entry(Key(Ident"a") Equals"=" Value(Object(LeftBrace"{" Entry(Key(Ident"b") Equals"=" Value(Array(LeftBracket"[" Value(Object(LeftBrace"{")))))))))"#
    );
}

#[test]
fn unmatched_closers_do_not_end_the_list_around_them() {
    assert_eq!(
        tree("a=[1}2]"),
        r#"Root(Entry(Key(Ident"a") Equals"=" Value(Array(LeftBracket"[" Value(Number"1") Error"}" Value(Number"2") RightBracket"]"))))"#
    );
    assert_eq!(problems("a=[1}2]"), vec![(4, 5, "unexpected token".to_string())]);
    assert_eq!(
        tree("a={b=1]c=2}"),
        r#"Root(Entry(Key(Ident"a") Equals"=" Value(Object(LeftBrace"{" Entry(Key(Ident"b") Equals"=" Value(Number"1")) Error"]" Entry(Key(Ident"c") Equals"=" Value(Number"2")) RightBrace"}"))))"#
    );
    assert_eq!(problems("a={b=1]c=2}"), vec![(6, 7, "unexpected token".to_string())]);
    assert_eq!(tree("]"), r#"Root(Error"]")"#);
}

#[test]
fn stray_tokens_are_kept_and_reported_one_by_one() {
    assert_eq!(
        tree("= @ a=1"),
        r#"Root(Error"=" HorizontalWhitespace" " Error"@" HorizontalWhitespace" " Entry(Key(Ident"a") Equals"=" Value(Number"1")))"#
    );
    assert_eq!(
        problems("= @ a=1"),
        vec![(0, 1, "unexpected token".to_string()), (2, 3, "unexpected token".to_string())]
    );
}

#[test]
fn plus_at_the_end_is_reported_there() {
    assert_eq!(tree("a+"), r#"Root(Entry(Key(Ident"a") Plus"+" Value()))"#);
    assert_eq!(
        problems("a+"),
        vec![(2, 2, "malformed append operator: `+` must be followed by `=`".to_string())]
    );
}

#[test]
fn diagnostics_come_in_the_order_of_the_source() {
    assert_eq!(
        problems("a ~ 1\nb +2\nc"),
        vec![
            (2, 3, "unexpected token in place of a separator".to_string()),
            (9, 10, "malformed append operator: `+` must be followed by `=`".to_string()),
            (12, 12, "missing separator".to_string()),
        ]
    );
}

#[test]
fn ranges_count_bytes() {
    assert_eq!(problems("\u{e9}\u{3000}~"), vec![(5, 6, "unexpected token in place of a separator".to_string())]);
    assert_eq!(
        tree("\u{e9}\u{3000}~"),
        "Root(Entry(Key(Ident\"\u{e9}\" HorizontalWhitespace\"\\u{3000}\") Error\"~\" Value()))"
    );
}

#[test]
fn every_byte_is_kept() {
    let samples = [
        "",
        " ",
        "\n",
        "a",
        "a = 1",
        "a.b.c : [1, 2, {x = ${y}}]\n# done\r\n",
        "}}}]]]{{{[[[",
        "\"unterminated",
        "\"\"\"never closed\n\n",
        "`^!@*&\\~",
        "a += \"x\" // c",
        "\u{FEFF}a\u{00A0}=\u{2028}caf\u{e9} \u{1F600}",
        "a = ${",
        "${?a.b} = . . .",
        "a=1,,,b=2;c",
        "{\n  a {\n    b : [ [ ], { } ]\n  }\n",
    ];
    for source in samples {
        let parsed = Parser::parse(source);
        assert_eq!(parsed.green.to_string(), source);
        assert_eq!(usize::from(parsed.green.text_len()), source.len());
        let root = HoconSyntaxKind::from_raw(parsed.green.kind().0);
        assert_eq!(root, Some(HoconSyntaxKind::Root));
        render(&parsed.green);
    }
}

#[test]
fn leaves_tokenize_to_the_tokens_of_the_source() {
    let samples = ["a.b = [1, \"x\"] # c\n", "a ~ {", "\"open", "x += ${?y} z"];
    for source in samples {
        let parsed = Parser::parse(source);
        let text = parsed.green.to_string();
        let again: Vec<_> = tokenize(&text).iter().map(|t| (t.token, t.range)).collect();
        let first: Vec<_> = tokenize(source).iter().map(|t| (t.token, t.range)).collect();
        assert_eq!(again, first);
    }
}

#[test]
fn deep_nesting_is_closed_level_by_level() {
    let source = "a=".to_string() + &"[".repeat(200);
    let parsed = Parser::parse(&source);
    assert_eq!(parsed.green.to_string(), source);
    assert_eq!(parsed.errors.len(), 200);
    for error in &parsed.errors {
        assert_eq!(error.message, "unterminated array");
    }
    assert_eq!(parsed.errors[0].range.start, 201);
    assert_eq!(parsed.errors[199].range.start, 2);
}
