use hocon_lsp::error::{decimal, Error};
use hocon_lsp::span::Span;
use hocon_lsp::syntax::{HoconSyntaxKind, FIRST_RAW_NODE, LAST_RAW_KIND, LAST_RAW_NODE};

#[test]
fn raw_numbers_go_back_and_forth() {
    let mut seen = Vec::new();
    for raw in 0..=LAST_RAW_KIND {
        let kind = HoconSyntaxKind::from_raw(raw).unwrap();
        assert_eq!(kind.to_raw(), raw);
        assert!(!seen.contains(&kind));
        seen.push(kind);
    }
    assert_eq!(seen.len(), 39);
    assert_eq!(HoconSyntaxKind::from_raw(LAST_RAW_KIND + 1), None);
    assert_eq!(HoconSyntaxKind::from_raw(u16::MAX), None);
}

#[test]
fn raw_numbers_follow_the_declaration() {
    assert_eq!(HoconSyntaxKind::HorizontalWhitespace.to_raw(), 0);
    assert_eq!(HoconSyntaxKind::Ident.to_raw(), 6);
    assert_eq!(HoconSyntaxKind::Error.to_raw(), 16);
    assert_eq!(HoconSyntaxKind::Classpath.to_raw(), 28);
    assert_eq!(HoconSyntaxKind::Root.to_raw(), 29);
    assert_eq!(HoconSyntaxKind::Entry.to_raw(), 30);
    assert_eq!(HoconSyntaxKind::Key.to_raw(), 31);
    assert_eq!(HoconSyntaxKind::Value.to_raw(), 32);
    assert_eq!(HoconSyntaxKind::Object.to_raw(), 33);
    assert_eq!(HoconSyntaxKind::Array.to_raw(), 34);
    assert_eq!(HoconSyntaxKind::Substitution.to_raw(), 35);
    assert_eq!(HoconSyntaxKind::PathExpression.to_raw(), 36);
    assert_eq!(HoconSyntaxKind::Inclusion.to_raw(), 37);
    assert_eq!(HoconSyntaxKind::SubstitutionStart.to_raw(), 38);
    assert!(HoconSyntaxKind::Ident < HoconSyntaxKind::Root);
    assert!(HoconSyntaxKind::Inclusion < HoconSyntaxKind::SubstitutionStart);
}

#[test]
fn tokens_and_nodes_never_overlap() {
    for raw in 0..=LAST_RAW_KIND {
        let kind = HoconSyntaxKind::from_raw(raw).unwrap();
        assert!(kind.is_token() != kind.is_node());
        assert_eq!(kind.is_node(), (29..=37).contains(&raw));
    }
    assert!(HoconSyntaxKind::Error.is_token());
    assert!(HoconSyntaxKind::SubstitutionStart.is_token());
    assert!(HoconSyntaxKind::Root.is_node());
    assert!(HoconSyntaxKind::PathExpression.is_node());
}

#[test]
fn span_knows_its_length_and_content() {
    let span = Span::new(3, 7);
    assert_eq!((span.start, span.end), (3, 7));
    assert_eq!(span.len(), 4);
    assert!(span.contains(3));
    assert!(span.contains(6));
    assert!(!span.contains(7));
    assert!(!span.contains(2));
    let point = Span::empty(5);
    assert_eq!(point, Span::new(5, 5));
    assert_eq!(point.len(), 0);
    assert!(!point.contains(5));
    assert_eq!(Span::new(7, 3).len(), 0);
}

#[test]
fn decimal_writes_digits() {
    assert_eq!(decimal(0), "0");
    assert_eq!(decimal(7), "7");
    assert_eq!(decimal(10), "10");
    assert_eq!(decimal(1234567890), "1234567890");
    assert_eq!(decimal(usize::MAX), usize::MAX.to_string());
}

#[test]
fn diagnostic_is_rendered_with_its_range() {
    let error = Error::new(Span::new(2, 13), "missing separator");
    assert_eq!(error.range, Span::new(2, 13));
    assert_eq!(error.message, "missing separator");
    assert_eq!(error.to_string(), "missing separator at:2..13");
    assert_eq!(Error::new(Span::empty(0), "").to_string(), " at:0..0");
}

#[test]
fn node_kinds_lie_between_the_two_bounds() {
    assert_eq!((FIRST_RAW_NODE, LAST_RAW_NODE, LAST_RAW_KIND), (29, 37, 38));
    assert_eq!(HoconSyntaxKind::from_raw(FIRST_RAW_NODE), Some(HoconSyntaxKind::Root));
    assert_eq!(HoconSyntaxKind::from_raw(LAST_RAW_NODE), Some(HoconSyntaxKind::Inclusion));
    assert_eq!(HoconSyntaxKind::from_raw(LAST_RAW_KIND), Some(HoconSyntaxKind::SubstitutionStart));
}

#[test]
fn default_diagnostic_is_empty() {
    let error = Error::default();
    assert_eq!(error.range, Span::new(0, 0));
    assert_eq!(error.message, "");
    assert_eq!(Span::default(), Span::empty(0));
    assert_eq!(error, Error::new(Span::default(), ""));
}
