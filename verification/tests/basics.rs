use petr::ast::{Comment, ImportStatement, Literal, Operator, Visibility};
use petr::ids::{Identifier, Path, SymbolId, SymbolInterner};
use petr::span::{SourceId, SourceSpan, Span};

fn sp(source: usize, offset: usize, length: usize) -> Span {
    Span::new(SourceId(source), SourceSpan::new(offset, length))
}

#[test]
fn join_covers_both_spans_in_either_order() {
    let a = sp(0, 3, 4);
    let b = sp(0, 10, 2);
    assert_eq!(a.join(b), sp(0, 3, 9));
    assert_eq!(b.join(a), sp(0, 3, 9));
    // a span inside another joins to the outer one
    assert_eq!(sp(0, 0, 20).join(sp(0, 5, 2)), sp(0, 0, 20));
}

#[test]
fn hi_to_hi_extend_and_zero_length() {
    let a = sp(1, 3, 4);
    let b = sp(1, 10, 2);
    assert_eq!(a.hi_to_hi(b), sp(1, 7, 5));
    assert_eq!(a.extend(20), sp(1, 3, 17));
    assert_eq!(a.zero_length(), sp(1, 3, 0));
    assert_eq!(a.source(), SourceId(1));
    assert_eq!(a.span(), SourceSpan::new(3, 4));
}

#[test]
fn interner_stores_each_text_once() {
    let mut interner = SymbolInterner::new();
    let a = interner.insert("a".to_string());
    let b = interner.insert("b".to_string());
    let a_again = interner.insert("a".to_string());
    assert_eq!(a, SymbolId(0));
    assert_eq!(b, SymbolId(1));
    assert_eq!(a_again, a);
    assert_eq!(interner.len(), 2);
    assert_eq!(interner.get(b), "b");
}

#[test]
fn literals_display_as_written() {
    assert_eq!(Literal::Integer(-42).to_display_string(), "-42");
    assert_eq!(Literal::Boolean(true).to_display_string(), "true");
    assert_eq!(Literal::String("hi".to_string()).to_display_string(), "\"hi\"");
}

#[test]
fn operators_as_str() {
    assert_eq!(Operator::Plus.as_str(), "+");
    assert_eq!(Operator::Minus.as_str(), "-");
    assert_eq!(Operator::Star.as_str(), "*");
    assert_eq!(Operator::Slash.as_str(), "/");
}

#[test]
fn exported_imports() {
    let path = Path { identifiers: vec![Identifier { id: SymbolId(0), span: sp(0, 0, 1) }] };
    let exported = ImportStatement { path, alias: None, visibility: Visibility::Exported };
    assert!(exported.is_exported());
    let path = Path { identifiers: vec![] };
    let local = ImportStatement { path, alias: None, visibility: Visibility::Local };
    assert!(!local.is_exported());
}

#[test]
fn comments_keep_their_text() {
    let c = Comment::new("a note");
    assert_eq!(c.content, "a note");
}
