use hocon_lsp::lexer::{tokenize, Lexer};
use hocon_lsp::syntax::HoconSyntaxKind;

#[test]
fn test_lexer() {
    let tokens = tokenize(r#"include required(file("a")) 1.0"#);
    for token in tokens {
        assert!(token.token != HoconSyntaxKind::Error);
        println!("kind:{:?}", token.token);
        println!("slice:{:?}", token.slice);
    }
}

#[test]
fn cursor_moves_one_token_at_a_time() {
    let mut lexer = Lexer::new("a = 1");
    assert_eq!(lexer.len(), 5);
    assert_eq!(lexer.get_cursor(), 0);
    assert_eq!(lexer.current().unwrap().slice, "a");
    assert_eq!(lexer.peek().unwrap().slice, " ");
    let first = lexer.next().unwrap();
    assert_eq!(first.token, HoconSyntaxKind::Ident);
    assert_eq!(lexer.get_cursor(), 1);
    lexer.bump();
    assert_eq!(lexer.current().unwrap().token, HoconSyntaxKind::Equals);
    lexer.rewind();
    assert_eq!(lexer.get_cursor(), 1);
    assert_eq!(lexer.current().unwrap().token, HoconSyntaxKind::HorizontalWhitespace);
}

#[test]
fn cursor_runs_past_the_last_token() {
    let mut lexer = Lexer::new("a");
    assert_eq!(lexer.len(), 1);
    assert!(lexer.peek().is_none());
    assert_eq!(lexer.next().unwrap().slice, "a");
    assert!(lexer.current().is_none());
    assert!(lexer.next().is_none());
    assert_eq!(lexer.get_cursor(), 2);
    assert!(lexer.peek().is_none());
    lexer.rewind();
    lexer.rewind();
    assert_eq!(lexer.current().unwrap().slice, "a");
}

#[test]
fn lexer_of_empty_text_has_no_token() {
    let mut lexer = Lexer::new("");
    assert_eq!(lexer.len(), 0);
    assert!(lexer.tokens().is_empty());
    assert!(lexer.current().is_none());
    assert!(lexer.peek().is_none());
    assert!(lexer.next().is_none());
    assert_eq!(lexer.get_cursor(), 1);
}

#[test]
fn lexer_hands_out_all_tokens() {
    let lexer = Lexer::new("a.b");
    let kinds: Vec<_> = lexer.tokens().iter().map(|t| (t.token, t.slice, t.range.start, t.range.end)).collect();
    assert_eq!(
        kinds,
        vec![
            (HoconSyntaxKind::Ident, "a", 0, 1),
            (HoconSyntaxKind::Dot, ".", 1, 2),
            (HoconSyntaxKind::Ident, "b", 2, 3),
        ]
    );
}
