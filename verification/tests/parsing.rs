use petr::parse_error::{format_toks, ParseErrorKind, Token};
use petr::parser::{Lexeme, Parse, Parser};
use petr::span::{SourceId, SourceSpan, Span, SpannedItem};

fn sp(offset: usize, length: usize) -> Span {
    Span::new(SourceId(0), SourceSpan::new(offset, length))
}

fn lexeme(token: Token, offset: usize, text: &str) -> Lexeme {
    Lexeme { token: Some(token), span: sp(offset, text.len()), text: text.to_string() }
}

/// A parser over `source`, split into the given tokens.
fn parser(source: &str, lexemes: Vec<Lexeme>) -> Parser {
    Parser::new(lexemes, sp(0, 0), sp(source.len(), 0), vec![("test".to_string(), source.to_string())])
}

/// An identifier, for the tests.
struct Name(String);

impl Parse for Name {
    fn parse(p: &mut Parser) -> Option<Self> {
        p.token(Token::Identifier)?;
        Some(Name(p.slice().to_string()))
    }
}

#[test]
fn format_toks_lists_alternatives() {
    let toks = vec![
        Token::Identifier,
        Token::OpenBracket,
        Token::Tilde,
        Token::True,
        Token::False,
        Token::String,
        Token::Integer,
        Token::Intrinsic,
        Token::Let,
    ];
    assert_eq!(format_toks(&toks), "identifier, [, ~, true, false, string, integer, @intrinsic, or let");
    assert_eq!(format_toks(&vec![Token::Comma, Token::Eof]), ", or EOF");
    // a single alternative is written out alone
    assert_eq!(format_toks(&vec![Token::Comma]), ",");
}

#[test]
fn expected_one_of_message() {
    let kind = ParseErrorKind::ExpectedOneOf(
        vec![
            Token::Identifier,
            Token::OpenBracket,
            Token::Tilde,
            Token::True,
            Token::False,
            Token::String,
            Token::Integer,
            Token::Intrinsic,
            Token::Let,
        ],
        Token::Comma,
    );
    assert_eq!(
        kind.message(),
        "Expected one of tokens identifier, [, ~, true, false, string, integer, @intrinsic, or let; found ,"
    );
    assert_eq!(ParseErrorKind::LexerError.message(), "Invalid token encountered");
    assert_eq!(ParseErrorKind::ExpectedToken(Token::CloseBracket, Token::Eof).message(), "Expected token ], found EOF");
}

#[test]
fn errors_carry_the_parses_under_way() {
    let mut p = parser("", vec![]);
    p.push_help("function declaration".to_string());
    p.push_help("expression".to_string());
    p.push_help("expression".to_string());
    p.push_error(sp(3, 1).with_item(ParseErrorKind::UnmatchedParenthesis));
    let err = &p.errors()[0];
    assert_eq!(
        err.0.help.as_deref(),
        Some("while parsing function declaration\n  ↪ while parsing expression\n    ↪ expected expression")
    );
    assert_eq!(err.1, sp(3, 1));
    // with no parse under way there is no help
    let mut q = parser("", vec![]);
    q.push_error(sp(0, 1).with_item(ParseErrorKind::LexerError));
    assert!(q.errors()[0].0.help.is_none());
}

#[test]
fn token_reports_what_was_expected() {
    let mut p = parser("a,", vec![lexeme(Token::Identifier, 0, "a"), lexeme(Token::Comma, 1, ",")]);
    assert!(p.token(Token::Identifier).is_some());
    assert_eq!(p.slice(), "a");
    assert!(p.token(Token::CloseBracket).is_none());
    let err = &p.errors()[0];
    assert_eq!(err.0.kind.message(), "Expected token ], found ,");
    assert_eq!(err.0.help.as_deref(), Some("expected while parsing token ]"));
    // the comma was looked at but not consumed
    assert_eq!(p.peek().0, Token::Comma);
}

#[test]
fn advance_skips_line_breaks_and_keeps_comments() {
    let source = "a\n{- c -}b";
    let mut p = parser(
        source,
        vec![
            lexeme(Token::Identifier, 0, "a"),
            lexeme(Token::Newline, 1, "\n"),
            lexeme(Token::Comment, 2, "{- c -}"),
            lexeme(Token::Identifier, 9, "b"),
        ],
    );
    assert_eq!(p.advance(), SpannedItem(Token::Identifier, sp(0, 1)));
    assert_eq!(p.advance(), SpannedItem(Token::Identifier, sp(9, 1)));
    assert_eq!(p.advance().0, Token::Eof);
    let comments = p.drain_comments();
    assert_eq!(comments.len(), 1);
    assert_eq!(comments[0].content, "{- c -}");
    assert!(p.drain_comments().is_empty());
}

#[test]
fn lexer_errors_are_reported_as_end_of_input() {
    let mut p = parser("?", vec![Lexeme { token: None, span: sp(0, 1), text: "?".to_string() }]);
    assert_eq!(p.advance(), SpannedItem(Token::Eof, sp(0, 1)));
    assert_eq!(p.errors()[0].0.kind.message(), "Invalid token encountered");
}

#[test]
fn sequences_of_names() {
    let mut p = parser(
        "a, b, c ]",
        vec![
            lexeme(Token::Identifier, 0, "a"),
            lexeme(Token::Comma, 1, ","),
            lexeme(Token::Identifier, 3, "b"),
            lexeme(Token::Comma, 4, ","),
            lexeme(Token::Identifier, 6, "c"),
            lexeme(Token::CloseBracket, 8, "]"),
        ],
    );
    let names: Vec<Name> = p.sequence(Token::Comma).unwrap();
    let names: Vec<String> = names.into_iter().map(|n| n.0).collect();
    assert_eq!(names, vec!["a", "b", "c"]);
    assert!(p.errors().is_empty());
    assert!(p.try_token(Token::CloseBracket).is_some());
}

#[test]
fn an_empty_sequence_backtracks() {
    let mut p = parser("]", vec![lexeme(Token::CloseBracket, 0, "]")]);
    let none: Option<Vec<Name>> = p.sequence(Token::Comma);
    assert!(none.is_none());
    // the failed attempt's error is reported, and nothing was consumed
    assert_eq!(p.errors().len(), 1);
    assert_eq!(p.peek().0, Token::CloseBracket);

    let mut q = parser("]", vec![lexeme(Token::CloseBracket, 0, "]")]);
    let empty: Vec<Name> = q.sequence_zero_or_more(Token::Comma).unwrap();
    assert!(empty.is_empty());
    assert!(q.errors().is_empty());
}

#[test]
fn backtracking_restores_the_parser() {
    let mut p = parser("1", vec![lexeme(Token::Integer, 0, "1")]);
    let before = p.checkpoint();
    let res: Result<Name, _> = p.with_backtrack();
    let errs = res.err().unwrap();
    assert_eq!(errs.len(), 1);
    assert!(p.errors().is_empty());
    let after = p.checkpoint();
    assert_eq!(after.position, before.position);
    assert_eq!(after.errors, before.errors);
}

#[test]
fn one_of_names_the_alternatives() {
    let mut p = parser(",", vec![lexeme(Token::Comma, 0, ",")]);
    assert!(p.one_of([Token::Identifier, Token::Integer]).is_none());
    assert_eq!(p.errors()[0].0.kind.message(), "Expected one of tokens identifier or integer; found ,");
    assert!(p.one_of([Token::Comma]).is_some());
    assert!(p.one_of([Token::Identifier]).is_none());
    assert_eq!(p.errors()[1].0.kind.message(), "Expected token identifier, found EOF");
}

#[test]
fn expression_ids_count_up() {
    let mut p = parser("", vec![]);
    assert_eq!(p.new_expr_id().0, 0);
    assert_eq!(p.new_expr_id().0, 1);
    assert_eq!(p.new_expr_id().0, 2);
}

#[test]
fn many_parses_until_the_end() {
    let mut p = parser("a b", vec![lexeme(Token::Identifier, 0, "a"), lexeme(Token::Identifier, 2, "b")]);
    let names: Vec<Name> = p.many();
    assert_eq!(names.len(), 2);
    let id = p.intern("a".to_string());
    assert_eq!(p.intern("a".to_string()), id);
}

#[test]
fn spanned_items_cover_their_tokens() {
    let mut p = parser("a b", vec![lexeme(Token::Identifier, 0, "a"), lexeme(Token::Identifier, 2, "b")]);
    assert!(p.advance().0 == Token::Identifier);
    let name: SpannedItem<Name> = p.parse().unwrap();
    // from the end of the token before to the end of the name
    assert_eq!(name.1, sp(1, 2));
    assert_eq!(name.0 .0, "b");
}

#[test]
fn into_result_hands_back_items_and_errors() {
    // a name, then a comma that is no name: parsing stops there with one error
    let p = parser("a ,", vec![lexeme(Token::Identifier, 0, "a"), lexeme(Token::Comma, 2, ",")]);
    let (names, errors, _interner, sources): (Vec<Name>, _, _, _) = p.into_result();
    assert_eq!(names.len(), 1);
    assert_eq!(names[0].0, "a");
    assert_eq!(errors.len(), 1);
    assert_eq!(sources, vec![("test".to_string(), "a ,".to_string())]);
}
