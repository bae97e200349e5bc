//! Tokens and the errors that parsing reports.
use vstd::prelude::*;
use crate::span::SourceSpan;
use crate::text::{owned, push_str};

verus! {

/// A token of the language, as the lexer hands it to the parser.
#[derive(Clone, Copy, Debug, PartialEq, Eq, Structural)]
pub enum Token {
    Identifier,
    OpenParen,
    CloseParen,
    OpenBracket,
    CloseBracket,
    Tilde,
    Comma,
    True,
    False,
    String,
    Integer,
    Intrinsic,
    Let,
    Newline,
    Comment,
    Eof,
}

/// How a token is displayed in messages.
pub open spec fn token_text(t: Token) -> Seq<char> {
    match t {
        Token::Identifier => "identifier"@,
        Token::OpenParen => "("@,
        Token::CloseParen => ")"@,
        Token::OpenBracket => "["@,
        Token::CloseBracket => "]"@,
        Token::Tilde => "~"@,
        Token::Comma => ","@,
        Token::True => "true"@,
        Token::False => "false"@,
        Token::String => "string"@,
        Token::Integer => "integer"@,
        Token::Intrinsic => "@intrinsic"@,
        Token::Let => "let"@,
        Token::Newline => "newline"@,
        Token::Comment => "comment"@,
        Token::Eof => "EOF"@,
    }
}

impl Token {
    /// The text with which the token is displayed in messages.
    pub fn text(&self) -> (r: &'static str)
        ensures
            r@ == token_text(*self),
    {
        match self {
            Token::Identifier => "identifier",
            Token::OpenParen => "(",
            Token::CloseParen => ")",
            Token::OpenBracket => "[",
            Token::CloseBracket => "]",
            Token::Tilde => "~",
            Token::Comma => ",",
            Token::True => "true",
            Token::False => "false",
            Token::String => "string",
            Token::Integer => "integer",
            Token::Intrinsic => "@intrinsic",
            Token::Let => "let",
            Token::Newline => "newline",
            Token::Comment => "comment",
            Token::Eof => "EOF",
        }
    }
}

/// The texts of the tokens joined by commas.
pub open spec fn joined_tokens(toks: Seq<Token>) -> Seq<char>
    decreases toks.len(),
{
    if toks.len() == 0 {
        Seq::empty()
    } else if toks.len() == 1 {
        token_text(toks[0])
    } else {
        joined_tokens(toks.subrange(0, toks.len() - 1)) + ", "@ + token_text(toks[toks.len() - 1])
    }
}

/// A list of alternatives as written in messages: all but the last joined by commas,
/// then the last after `or` (and a comma before it when there are more than two). A
/// single token is written out alone.
pub open spec fn format_toks_text(toks: Seq<Token>) -> Seq<char> {
    let init = joined_tokens(toks.subrange(0, toks.len() - 1));
    if toks.len() == 2 {
        init + " or "@ + token_text(toks[1])
    } else if toks.len() > 2 {
        init + ", or "@ + token_text(toks[toks.len() - 1])
    } else {
        token_text(toks[0])
    }
}

/// Writes a list of alternative tokens for a message (see [`format_toks_text`]).
pub fn format_toks(toks: &Vec<Token>) -> (r: String)
    requires
        toks@.len() > 0,
    ensures
        r@ == format_toks_text(toks@),
{
    let mut buf = String::new();
    let n = toks.len() - 1;
    let mut i: usize = 0;
    assert(toks@.subrange(0, 0) =~= Seq::<Token>::empty());
    while i < n
        invariant
            i <= n,
            n == toks@.len() - 1,
            buf@ == joined_tokens(toks@.subrange(0, i as int)),
        decreases n - i,
    {
        if i > 0 {
            push_str(&mut buf, ", ");
        }
        push_str(&mut buf, toks[i].text());
        proof {
            let pre = toks@.subrange(0, i + 1);
            assert(pre.subrange(0, i as int) =~= toks@.subrange(0, i as int));
            assert(pre[i as int] == toks@[i as int]);
        }
        assert(buf@ =~= joined_tokens(toks@.subrange(0, i + 1)));
        i += 1;
    }
    if toks.len() == 2 {
        push_str(&mut buf, " or ");
        push_str(&mut buf, toks[1].text());
    } else if toks.len() > 2 {
        push_str(&mut buf, ", or ");
        push_str(&mut buf, toks[toks.len() - 1].text());
    } else {
        push_str(&mut buf, toks[0].text());
    }
    buf
}

/// What went wrong while parsing.
pub enum ParseErrorKind {
    UnmatchedParenthesis,
    ExpectedIdentifier(String),
    ExpectedToken(Token, Token),
    ExpectedOneOf(Vec<Token>, Token),
    InternalError(String),
    InvalidIdentifier(String),
    InternalSpanError(SourceSpan, SourceSpan),
    LexerError,
}

/// The value of a [`ParseErrorKind`], with texts and lists as sequences.
pub enum ParseErrorKindModel {
    UnmatchedParenthesis,
    ExpectedIdentifier(Seq<char>),
    ExpectedToken(Token, Token),
    ExpectedOneOf(Seq<Token>, Token),
    InternalError(Seq<char>),
    InvalidIdentifier(Seq<char>),
    InternalSpanError(SourceSpan, SourceSpan),
    LexerError,
}

impl View for ParseErrorKind {
    type V = ParseErrorKindModel;

    open spec fn view(&self) -> ParseErrorKindModel {
        match self {
            ParseErrorKind::UnmatchedParenthesis => ParseErrorKindModel::UnmatchedParenthesis,
            ParseErrorKind::ExpectedIdentifier(s) => ParseErrorKindModel::ExpectedIdentifier(s@),
            ParseErrorKind::ExpectedToken(a, b) => ParseErrorKindModel::ExpectedToken(*a, *b),
            ParseErrorKind::ExpectedOneOf(v, b) => ParseErrorKindModel::ExpectedOneOf(v@, *b),
            ParseErrorKind::InternalError(s) => ParseErrorKindModel::InternalError(s@),
            ParseErrorKind::InvalidIdentifier(s) => ParseErrorKindModel::InvalidIdentifier(s@),
            ParseErrorKind::InternalSpanError(a, b) => ParseErrorKindModel::InternalSpanError(*a, *b),
            ParseErrorKind::LexerError => ParseErrorKindModel::LexerError,
        }
    }
}

/// The message of a parse error.
pub open spec fn kind_message(k: ParseErrorKindModel) -> Seq<char> {
    match k {
        ParseErrorKindModel::UnmatchedParenthesis => "Unmatched parenthesis"@,
        ParseErrorKindModel::ExpectedIdentifier(s) => "Expected identifier, found "@ + s,
        ParseErrorKindModel::ExpectedToken(a, b) => "Expected token "@ + token_text(a) + ", found "@ + token_text(b),
        ParseErrorKindModel::ExpectedOneOf(v, b) => "Expected one of tokens "@ + format_toks_text(v) + "; found "@
            + token_text(b),
        ParseErrorKindModel::InternalError(s) => "Internal error in parser. Please file an issue on GitHub. "@ + s,
        ParseErrorKindModel::InvalidIdentifier(_) => "File name could not be converted to module name. petr source names should be a valid identifier."@,
        ParseErrorKindModel::InternalSpanError(_, _) => "Internal error in parser. Please file an issue on GitHub. A span was joined with a span from another file."@,
        ParseErrorKindModel::LexerError => "Invalid token encountered"@,
    }
}

/// The help that a kind of parse error carries of itself.
pub open spec fn kind_help(k: ParseErrorKindModel) -> Option<Seq<char>> {
    match k {
        ParseErrorKindModel::InvalidIdentifier(_) => Some(
            "Identifiers cannot begin with numbers, contain spaces, or contain symbols other than an underscore or hyphen.Hyphens in file names are transformed into underscores."@,
        ),
        _ => None,
    }
}

impl ParseErrorKind {
    /// A copy of the kind.
    pub fn copy(&self) -> (r: ParseErrorKind)
        ensures
            r@ == self@,
    {
        match self {
            ParseErrorKind::UnmatchedParenthesis => ParseErrorKind::UnmatchedParenthesis,
            ParseErrorKind::ExpectedIdentifier(s) => ParseErrorKind::ExpectedIdentifier(s.clone()),
            ParseErrorKind::ExpectedToken(a, b) => ParseErrorKind::ExpectedToken(*a, *b),
            ParseErrorKind::ExpectedOneOf(v, b) => {
                let mut c: Vec<Token> = Vec::new();
                let mut i: usize = 0;
                while i < v.len()
                    invariant
                        i <= v@.len(),
                        c@ == v@.subrange(0, i as int),
                    decreases v@.len() - i,
                {
                    c.push(v[i]);
                    i += 1;
                    assert(c@ =~= v@.subrange(0, i as int));
                }
                assert(v@.subrange(0, v@.len() as int) =~= v@);
                ParseErrorKind::ExpectedOneOf(c, *b)
            },
            ParseErrorKind::InternalError(s) => ParseErrorKind::InternalError(s.clone()),
            ParseErrorKind::InvalidIdentifier(s) => ParseErrorKind::InvalidIdentifier(s.clone()),
            ParseErrorKind::InternalSpanError(a, b) => ParseErrorKind::InternalSpanError(*a, *b),
            ParseErrorKind::LexerError => ParseErrorKind::LexerError,
        }
    }

    /// The message of the error.
    pub fn message(&self) -> (r: String)
        requires
            self@ is ExpectedOneOf ==> self@->ExpectedOneOf_0.len() > 0,
        ensures
            r@ == kind_message(self@),
    {
        match self {
            ParseErrorKind::UnmatchedParenthesis => owned("Unmatched parenthesis"),
            ParseErrorKind::ExpectedIdentifier(s) => {
                let mut r = owned("Expected identifier, found ");
                push_str(&mut r, s.as_str());
                r
            },
            ParseErrorKind::ExpectedToken(a, b) => {
                let mut r = owned("Expected token ");
                push_str(&mut r, a.text());
                push_str(&mut r, ", found ");
                push_str(&mut r, b.text());
                r
            },
            ParseErrorKind::ExpectedOneOf(v, b) => {
                let mut r = owned("Expected one of tokens ");
                let toks = format_toks(v);
                push_str(&mut r, toks.as_str());
                push_str(&mut r, "; found ");
                push_str(&mut r, b.text());
                r
            },
            ParseErrorKind::InternalError(s) => {
                let mut r = owned("Internal error in parser. Please file an issue on GitHub. ");
                push_str(&mut r, s.as_str());
                r
            },
            ParseErrorKind::InvalidIdentifier(_) => owned(
                "File name could not be converted to module name. petr source names should be a valid identifier.",
            ),
            ParseErrorKind::InternalSpanError(_, _) => owned(
                "Internal error in parser. Please file an issue on GitHub. A span was joined with a span from another file.",
            ),
            ParseErrorKind::LexerError => owned("Invalid token encountered"),
        }
    }

    /// The help that this kind of error carries of itself.
    pub fn help(&self) -> (r: Option<String>)
        ensures
            r matches Some(h) ==> kind_help(self@) == Some(h@),
            r is None ==> kind_help(self@) is None,
    {
        match self {
            ParseErrorKind::InvalidIdentifier(_) => Some(
                owned(
                    "Identifiers cannot begin with numbers, contain spaces, or contain symbols other than an underscore or hyphen.Hyphens in file names are transformed into underscores.",
                ),
            ),
            _ => None,
        }
    }

    /// The error of this kind, with no help.
    pub fn into_err(self) -> (r: ParseError)
        ensures
            r@ == (ParseErrorModel { kind: self@, help: None }),
    {
        ParseError::from(self)
    }
}

/// A parse error: what went wrong, and help for the reader.
pub struct ParseError {
    pub kind: ParseErrorKind,
    pub help: Option<String>,
}

/// The value of a [`ParseError`].
pub struct ParseErrorModel {
    pub kind: ParseErrorKindModel,
    pub help: Option<Seq<char>>,
}

impl View for ParseError {
    type V = ParseErrorModel;

    open spec fn view(&self) -> ParseErrorModel {
        ParseErrorModel {
            kind: self.kind@,
            help: match self.help {
                Some(h) => Some(h@),
                None => None,
            },
        }
    }
}

impl From<ParseErrorKind> for ParseError {
    fn from(kind: ParseErrorKind) -> (r: ParseError) {
        ParseError { kind, help: None }
    }
}

impl vstd::std_specs::convert::FromSpecImpl<ParseErrorKind> for ParseError {
    open spec fn obeys_from_spec() -> bool {
        true
    }

    open spec fn from_spec(kind: ParseErrorKind) -> ParseError {
        ParseError { kind, help: None }
    }
}

impl ParseError {
    /// The error with its help replaced.
    pub fn with_help(self, help: Option<String>) -> (r: ParseError)
        ensures
            r.kind == self.kind,
            r.help == help,
    {
        ParseError { kind: self.kind, help }
    }

    /// The message of the error: the message of its kind.
    pub fn message(&self) -> (r: String)
        requires
            self.kind@ is ExpectedOneOf ==> self.kind@->ExpectedOneOf_0.len() > 0,
        ensures
            r@ == kind_message(self.kind@),
    {
        self.kind.message()
    }

    /// A copy of the error.
    pub fn copy(&self) -> (r: ParseError)
        ensures
            r@ == self@,
    {
        ParseError {
            kind: self.kind.copy(),
            help: match &self.help {
                Some(h) => Some(h.clone()),
                None => None,
            },
        }
    }
}

} // verus!
