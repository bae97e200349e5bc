//! The parser's machinery over the tokens of the sources: looking ahead, consuming and
//! expecting tokens, sequences, backtracking, and errors with the help of what was being
//! parsed.
use vstd::prelude::*;
use crate::ast::{Comment, ExprId};
use crate::ids::{SymbolId, SymbolInterner};
use crate::parse_error::{ParseError, ParseErrorKind, ParseErrorKindModel, ParseErrorModel, Token, token_text};
use crate::span::{SourceSpan, Span, SpannedItem};
use crate::text::{owned, push_str};

verus! {

/// One token as the lexer found it: the token (none where the text is no token), where it
/// is, and its text.
pub struct Lexeme {
    pub token: Option<Token>,
    pub span: Span,
    pub text: String,
}

/// The tokens of the sources and how far they were read.
pub struct Lexer {
    pub lexemes: Vec<Lexeme>,
    pub position: usize,
    /// Where reading starts, before the first token.
    pub start: Span,
    /// Where the sources end; the end-of-input token is placed there.
    pub end: Span,
}

/// The key by which spans of the sources are ordered: the source, then the end.
pub open spec fn span_key_le(a: Span, b: Span) -> bool {
    a.source.0 < b.source.0 || (a.source == b.source && a.hi() <= b.hi())
}

impl Lexer {
    /// The span of the last token read, or the start before any.
    pub open spec fn current(&self) -> Span {
        if self.position == 0 {
            self.start
        } else {
            self.lexemes@[self.position - 1].span
        }
    }

    /// Reads the next token: an error at its span where the text is no token, and the
    /// end-of-input token, without moving, once every token was read.
    pub fn advance(&mut self) -> (r: Result<SpannedItem<Token>, Span>)
        requires
            old(self).position <= old(self).lexemes@.len(),
        ensures
            final(self).lexemes == old(self).lexemes,
            final(self).start == old(self).start,
            final(self).end == old(self).end,
            old(self).position < old(self).lexemes@.len() ==> {
                let l = old(self).lexemes@[old(self).position as int];
                &&& final(self).position == old(self).position + 1
                &&& l.token matches Some(t) ==> r == Ok::<SpannedItem<Token>, Span>(SpannedItem(t, l.span))
                &&& l.token is None ==> r == Err::<SpannedItem<Token>, Span>(l.span)
            },
            old(self).position == old(self).lexemes@.len() ==> {
                &&& final(self).position == old(self).position
                &&& r == Ok::<SpannedItem<Token>, Span>(SpannedItem(Token::Eof, old(self).end))
            },
    {
        if self.position < self.lexemes.len() {
            let l = &self.lexemes[self.position];
            let r = match l.token {
                Some(t) => Ok(SpannedItem(t, l.span)),
                None => Err(l.span),
            };
            self.position = self.position + 1;
            r
        } else {
            Ok(SpannedItem(Token::Eof, self.end))
        }
    }

    /// The span of the last token read.
    pub fn span(&self) -> (r: Span)
        requires
            self.position <= self.lexemes@.len(),
        ensures
            r == self.current(),
    {
        if self.position == 0 {
            self.start
        } else {
            self.lexemes[self.position - 1].span
        }
    }

    /// The text of the last token read; empty before any.
    pub fn slice(&self) -> (r: &str)
        requires
            self.position <= self.lexemes@.len(),
        ensures
            self.position == 0 ==> r@ == Seq::<char>::empty(),
            self.position > 0 ==> r@ == self.lexemes@[self.position - 1].text@,
    {
        if self.position == 0 {
            proof {
                reveal_strlit("");
            }
            ""
        } else {
            self.lexemes[self.position - 1].text.as_str()
        }
    }
}

/// The value of a reported parse error, with its span.
pub open spec fn parse_error_models(es: Seq<SpannedItem<ParseError>>) -> Seq<(ParseErrorModel, Span)> {
    Seq::new(es.len(), |i: int| (es[i].0@, es[i].1))
}

/// `n` spaces.
pub open spec fn spaces(n: nat) -> Seq<char> {
    Seq::new(n, |i: int| ' ')
}

/// Line `i` of the help for an error found while the parses in `helps` were under way:
/// indented by depth, an arrow below the first line, and the innermost parse as what was
/// expected.
pub open spec fn help_line(helps: Seq<Seq<char>>, i: int) -> Seq<char> {
    spaces((2 * i) as nat) + (if i == 0 {
        Seq::empty()
    } else {
        "↪ "@
    }) + (if i == helps.len() - 1 {
        "expected "@
    } else {
        "while parsing "@
    }) + helps[i]
}

/// The first `n` help lines, joined by line breaks.
pub open spec fn help_lines(helps: Seq<Seq<char>>, n: nat) -> Seq<char>
    decreases n,
{
    if n == 0 {
        Seq::empty()
    } else if n == 1 {
        help_line(helps, 0)
    } else {
        help_lines(helps, (n - 1) as nat) + "\n"@ + help_line(helps, n - 1)
    }
}

/// The help an error gets from the parses under way: none when there are none.
pub open spec fn help_for(helps: Seq<Seq<char>>) -> Option<Seq<char>> {
    if helps.len() == 0 {
        None
    } else {
        Some(help_lines(helps, helps.len()))
    }
}

/// Where the parser stands, to come back to.
pub struct Checkpoint {
    pub errors: usize,
    pub comments: usize,
    pub position: usize,
    pub peek: Option<SpannedItem<Token>>,
}

/// The parser: the tokens of the sources, what it has read of them, and what it found.
pub struct Parser {
    pub interner: SymbolInterner,
    /// some exprs need to be assigned an ID, because they generate a scope
    /// which is stored in the binder and needs to be retrieved later
    pub expr_id_assigner: usize,
    pub lexer: Lexer,
    pub errors: Vec<SpannedItem<ParseError>>,
    pub comments: Vec<SpannedItem<Comment>>,
    pub peek: Option<SpannedItem<Token>>,
    /// the name and the text of each source
    pub source_map: Vec<(String, String)>,
    pub help: Vec<String>,
}

/// The tokens lie in their sources in order, after the start.
pub open spec fn lexemes_ok(lexemes: Seq<Lexeme>, start: Span, source_map: Seq<(String, String)>) -> bool {
    &&& forall|i: int, j: int| 0 <= i < j < lexemes.len() ==> span_key_le(#[trigger] lexemes[i].span, #[trigger] lexemes[j].span)
    &&& forall|i: int| 0 <= i < lexemes.len() ==> span_key_le(start, #[trigger] lexemes[i].span)
    &&& forall|i: int| 0 <= i < lexemes.len() ==> span_in_sources(#[trigger] lexemes[i].span, source_map)
    &&& span_in_sources(start, source_map)
}

/// The position of the first token at or after `i` that is no line break and no
/// comment (the number of lexemes where there is none).
pub open spec fn scan_pos(ls: Seq<Lexeme>, i: int) -> int
    decreases ls.len() - i,
{
    if 0 <= i < ls.len() && (ls[i].token == Some(Token::Newline) || ls[i].token == Some(Token::Comment)) {
        scan_pos(ls, i + 1)
    } else {
        i
    }
}

/// The empty span just past the end of `s`.
pub open spec fn point_after(s: Span) -> Span {
    Span { source: s.source, span: SourceSpan { offset: s.hi() as usize, length: 0 } }
}

/// The comments passed over when reading from `i` on, each as its text and the empty
/// span just past it.
pub open spec fn scan_comments(ls: Seq<Lexeme>, i: int) -> Seq<(Seq<char>, Span)>
    decreases ls.len() - i,
{
    if 0 <= i < ls.len() && ls[i].token == Some(Token::Newline) {
        scan_comments(ls, i + 1)
    } else if 0 <= i < ls.len() && ls[i].token == Some(Token::Comment) {
        seq![(ls[i].text@, point_after(ls[i].span))] + scan_comments(ls, i + 1)
    } else {
        Seq::empty()
    }
}

/// The comments kept by the parser, each as its text and its span.
pub open spec fn comment_models(cs: Seq<SpannedItem<Comment>>) -> Seq<(Seq<char>, Span)> {
    Seq::new(cs.len(), |i: int| (cs[i].0.content@, cs[i].1))
}

/// What reading the next token does when none was looked at: line breaks are passed
/// over, comments are passed over and kept, and the token after them is consumed and
/// given back; text that is no token is reported and given back as the end of input,
/// and past the last token the end of input is given back without moving.
pub open spec fn reads_next(before: &Parser, after: &Parser, r: SpannedItem<Token>) -> bool {
    let ls = before.lexer.lexemes@;
    let p = scan_pos(ls, before.lexer.position as int);
    &&& comment_models(after.comments@) == comment_models(before.comments@) + scan_comments(
        ls,
        before.lexer.position as int,
    )
    &&& p == ls.len() ==> {
        &&& r == SpannedItem(Token::Eof, before.lexer.end)
        &&& after.lexer.position == p
        &&& after.errors == before.errors
    }
    &&& p < ls.len() && ls[p].token is Some ==> {
        &&& r == SpannedItem(ls[p].token->Some_0, ls[p].span)
        &&& after.lexer.position == p + 1
        &&& after.errors == before.errors
    }
    &&& p < ls.len() && ls[p].token is None ==> {
        &&& r == SpannedItem(Token::Eof, ls[p].span)
        &&& after.lexer.position == p + 1
        &&& parse_error_models(after.errors@) == parse_error_models(before.errors@).push(
            (ParseErrorModel { kind: ParseErrorKindModel::LexerError, help: help_for(before.helps()) }, ls[p].span),
        )
    }
}

/// The next token, `seen`, was looked at: the one looked at before if there was one
/// (and then nothing was read), otherwise the one that reading gave.
pub open spec fn sees_next(before: &Parser, after: &Parser, seen: SpannedItem<Token>) -> bool {
    &&& before.peek matches Some(u) ==> {
        &&& seen == u
        &&& after.lexer == before.lexer
        &&& after.errors == before.errors
        &&& after.comments == before.comments
    }
    &&& before.peek is None ==> reads_next(before, after, seen)
}

/// What the parse of a `SpannedItem<T>` gives, from `before`, when parsing `T` from
/// `before` gave `mid` and `x`: no item where `T` gave none; otherwise the item with the
/// span from the end of the token read before it to the end of its last token. Where
/// that last token lies in the next source, at its very start, the span ends at the end
/// of the first source; where it lies further into another source, an internal span
/// error is reported and no item is given.
pub open spec fn spanned_outcome<T>(before: Parser, mid: Parser, x: Option<T>, after: Parser, r: Option<SpannedItem<T>>) -> bool {
    let b = before.lexer.current();
    let a = mid.lexer.current();
    match x {
        None => r is None && after == mid,
        Some(v) => if a.source.0 != b.source.0 && a.span.offset == 0 {
            &&& r == Some(SpannedItem(v, Span {
                source: b.source,
                span: SourceSpan {
                    offset: b.hi() as usize,
                    length: (source_bytes(mid.source_map@, b.source.0 as int) - b.hi()) as usize,
                },
            }))
            &&& after == mid
        } else if a.source.0 != b.source.0 {
            &&& r is None
            &&& same_but_errors(mid, after)
            &&& parse_error_models(after.errors@) == parse_error_models(mid.errors@).push(
                (ParseErrorModel { kind: ParseErrorKindModel::InternalSpanError(a.span, b.span), help: help_for(mid.helps()) }, b),
            )
        } else {
            &&& r == Some(SpannedItem(v, Span {
                source: b.source,
                span: SourceSpan { offset: b.hi() as usize, length: (a.hi() - b.hi()) as usize },
            }))
            &&& after == mid
        },
    }
}

/// `a` and `b` differ at most in their errors.
pub open spec fn same_but_errors(a: Parser, b: Parser) -> bool {
    &&& b.interner == a.interner
    &&& b.expr_id_assigner == a.expr_id_assigner
    &&& b.lexer == a.lexer
    &&& b.comments == a.comments
    &&& b.peek == a.peek
    &&& b.source_map == a.source_map
    &&& b.help == a.help
}

/// `a` and `b` differ at most in their help.
pub open spec fn same_but_help(a: Parser, b: Parser) -> bool {
    &&& b.interner == a.interner
    &&& b.expr_id_assigner == a.expr_id_assigner
    &&& b.lexer == a.lexer
    &&& b.errors == a.errors
    &&& b.comments == a.comments
    &&& b.peek == a.peek
    &&& b.source_map == a.source_map
}

/// `after` is `before` with `text` opened as one more parse under way.
pub open spec fn help_pushed(before: Parser, after: Parser, text: String) -> bool {
    same_but_help(before, after) && after.help@ == before.help@.push(text)
}

/// What going back after a failed parse leaves: the position, the token looked at, the
/// errors and the comments of `before`, and the rest as the failed parse `q` left it.
pub open spec fn restored(before: Parser, q: Parser, after: Parser) -> bool {
    &&& after.lexer == before.lexer
    &&& after.peek == before.peek
    &&& after.errors@ == before.errors@
    &&& after.comments@ == before.comments@
    &&& after.interner == q.interner
    &&& after.expr_id_assigner == q.expr_id_assigner
    &&& after.source_map == q.source_map
    &&& after.help == q.help
}

/// What a parse of `P` with backtracking from `before` gives: the item and the parser as
/// the parse left it; or, where the parse failed, the errors that it reported, with the
/// parser taken back to where it stood.
pub open spec fn backtracked<P: Parse>(before: Parser, after: Parser, r: Result<P, Vec<SpannedItem<ParseError>>>) -> bool {
    exists|q: Parser, x: Option<P>|
        #[trigger] P::parsed(before, q, x) && match x {
            Some(v) => r == Ok::<P, Vec<SpannedItem<ParseError>>>(v) && after == q,
            None => {
                &&& r is Err
                &&& r->Err_0@ == q.errors@.subrange(before.errors@.len() as int, q.errors@.len() as int)
                &&& restored(before, q, after)
            },
        }
}

/// `after` is `before` with the next token looked at: the one looked at already, or
/// else the one that reading gives (see [`reads_next`]).
pub open spec fn peeked(before: Parser, after: Parser) -> bool {
    &&& after.peek is Some
    &&& before.peek is Some ==> after == before
    &&& before.peek is None ==> {
        &&& reads_next(&before, &after, after.peek->Some_0)
        &&& after.same_input(&before)
        &&& after.help == before.help
        &&& after.interner == before.interner
        &&& after.expr_id_assigner == before.expr_id_assigner
    }
}

/// `after` is `before` with the token it looked at consumed.
pub open spec fn took_peek(before: Parser, after: Parser) -> bool {
    &&& after.peek is None
    &&& after.lexer == before.lexer
    &&& after.errors == before.errors
    &&& after.comments == before.comments
    &&& after.help == before.help
    &&& after.interner == before.interner
    &&& after.source_map == before.source_map
    &&& after.expr_id_assigner == before.expr_id_assigner
}

/// One round of [`Parser::many`]: from `s` the next token is looked at, giving `t`; it is
/// no end of input, and parsing from `t` gives `item` and `s2`.
pub open spec fn many_step<P: Parse>(s: Parser, t: Parser, s2: Parser, item: P) -> bool {
    &&& peeked(s, t)
    &&& t.peek->Some_0.0 != Token::Eof
    &&& P::parsed(t, s2, Some(item))
}

/// [`Parser::many`] from `before` gave `items` and `after`: `states[i]` is where the
/// `i`th round started and `peeks[i]` where it looked at the next token; the last round
/// looked at the end of input, or its parse gave nothing.
pub open spec fn many_run<P: Parse>(
    before: Parser,
    after: Parser,
    items: Seq<P>,
    states: Seq<Parser>,
    peeks: Seq<Parser>,
) -> bool {
    &&& states.len() == items.len() + 1
    &&& peeks.len() == items.len() + 1
    &&& states[0] == before
    &&& forall|i: int| 0 <= i < items.len() ==> many_step(states[i], #[trigger] peeks[i], states[i + 1], items[i])
    &&& peeked(states.last(), peeks.last())
    &&& peeks.last().peek->Some_0.0 == Token::Eof ==> after == peeks.last()
    &&& peeks.last().peek->Some_0.0 != Token::Eof ==> P::parsed(peeks.last(), after, None)
}

/// One item of a sequence: from `s` a parse with backtracking gives `item` and `u`, and
/// then the next token is looked at, giving `t`.
pub open spec fn seq_item<P: Parse>(s: Parser, u: Parser, t: Parser, item: P) -> bool {
    backtracked(s, u, Ok::<P, Vec<SpannedItem<ParseError>>>(item)) && peeked(u, t)
}

/// [`Parser::sequence`] from `before` gave `r` and `after`. The `i`th item was parsed
/// from `states[i]` (see [`seq_item`]); every item but the last was followed by the
/// separator, which was consumed. The sequence ends at an item that no separator
/// follows, or at a parse after a separator (or at the start) that failed, from
/// `states[k]` to `fail_at`, with the errors of `fail`. When even the first parse fails
/// there is no sequence, and its errors are reported; otherwise the items come back.
pub open spec fn seq_run<P: Parse>(
    before: Parser,
    after: Parser,
    r: Option<Vec<P>>,
    separator: Token,
    items: Seq<P>,
    states: Seq<Parser>,
    us: Seq<Parser>,
    ts: Seq<Parser>,
    fail_at: Parser,
    fail: Result<P, Vec<SpannedItem<ParseError>>>,
) -> bool {
    let k = items.len() as int;
    &&& states.len() == k + 1
    &&& us.len() == k
    &&& ts.len() == k
    &&& states[0] == before
    &&& forall|i: int| 0 <= i < k ==> seq_item(states[i], us[i], #[trigger] ts[i], items[i])
    &&& forall|i: int|
        0 <= i < k - 1 ==> (#[trigger] ts[i]).peek->Some_0.0 == separator && took_peek(ts[i], states[i + 1])
    &&& k > 0 && ts[k - 1].peek->Some_0.0 != separator ==> {
        &&& r matches Some(v) && v@ == items
        &&& after == ts[k - 1]
    }
    &&& k == 0 || ts[k - 1].peek->Some_0.0 == separator ==> {
        &&& k > 0 ==> took_peek(ts[k - 1], states[k])
        &&& fail is Err
        &&& backtracked(states[k], fail_at, fail)
        &&& k == 0 ==> {
            &&& r is None
            &&& same_but_errors(fail_at, after)
            &&& parse_error_models(after.errors@) == parse_error_models(fail_at.errors@) + parse_error_models(
                fail->Err_0@,
            )
        }
        &&& k > 0 ==> {
            &&& r matches Some(v) && v@ == items
            &&& after == fail_at
        }
    }
}

/// One parse of [`Parser::sequence_zero_or_more`] from `s`, giving `u` and `x`: the first
/// one with backtracking, the others as plain parses.
pub open spec fn zero_attempt<P: Parse>(first: bool, s: Parser, u: Parser, x: Option<P>) -> bool {
    if first {
        match x {
            Some(v) => backtracked(s, u, Ok::<P, Vec<SpannedItem<ParseError>>>(v)),
            None => exists|e: Vec<SpannedItem<ParseError>>| #[trigger] backtracked(s, u, Err::<P, Vec<SpannedItem<ParseError>>>(e)),
        }
    } else {
        P::parsed(s, u, x)
    }
}

/// The `i`th item of a sequence of zero or more: parsed from `states[i]`, giving
/// `us[i]`, and then the next token looked at, giving `ts[i]`.
pub open spec fn zero_item<P: Parse>(states: Seq<Parser>, us: Seq<Parser>, ts: Seq<Parser>, items: Seq<P>, i: int) -> bool {
    zero_attempt(i == 0, states[i], us[i], Some(items[i])) && peeked(us[i], ts[i])
}

/// [`Parser::sequence_zero_or_more`] from `before` gave `items` and `after`: with the
/// sequence's help opened (`states[0]`), the `i`th item was parsed from `states[i]`, and
/// every item but the last was followed by the separator, which was consumed. The
/// sequence ends at an item that no separator follows, or at a parse that failed, at
/// `end`; then the help is closed again.
pub open spec fn zero_run<P: Parse>(
    before: Parser,
    after: Parser,
    items: Seq<P>,
    separator: Token,
    states: Seq<Parser>,
    us: Seq<Parser>,
    ts: Seq<Parser>,
    end: Parser,
) -> bool {
    let k = items.len() as int;
    &&& states.len() == k + 1
    &&& us.len() == k
    &&& ts.len() == k
    &&& same_but_help(before, states[0])
    &&& states[0].help@.len() == before.help@.len() + 1
    &&& states[0].help@.drop_last() == before.help@
    &&& states[0].help@.last()@ == sequence_help(separator)
    &&& forall|i: int| 0 <= i < k ==> #[trigger] zero_item(states, us, ts, items, i)
    &&& forall|i: int|
        0 <= i < k - 1 ==> (#[trigger] ts[i]).peek->Some_0.0 == separator && took_peek(ts[i], states[i + 1])
    &&& k > 0 && ts[k - 1].peek->Some_0.0 != separator ==> end == ts[k - 1]
    &&& k == 0 || ts[k - 1].peek->Some_0.0 == separator ==> {
        &&& k > 0 ==> took_peek(ts[k - 1], states[k])
        &&& zero_attempt(k == 0, states[k], end, None::<P>)
    }
    &&& same_but_help(end, after)
    &&& after.help@ == before.help@
}

/// `after` is `t` with the token it looked at consumed, and nothing else changed but
/// the help.
pub open spec fn consumed(t: Parser, after: Parser) -> bool {
    &&& after.peek is None
    &&& after.lexer == t.lexer
    &&& after.errors == t.errors
    &&& after.comments == t.comments
    &&& after.interner == t.interner
    &&& after.source_map == t.source_map
    &&& after.expr_id_assigner == t.expr_id_assigner
}

/// `after` is `t`, still looking at its token, with the one error `e` reported.
pub open spec fn kept_with_error(t: Parser, after: Parser, e: (ParseErrorModel, Span)) -> bool {
    &&& after.peek == t.peek
    &&& after.lexer == t.lexer
    &&& after.comments == t.comments
    &&& after.interner == t.interner
    &&& after.source_map == t.source_map
    &&& after.expr_id_assigner == t.expr_id_assigner
    &&& parse_error_models(after.errors@) == parse_error_models(t.errors@).push(e)
}

/// Expecting a token: `t` looks at the next token; when it is `ok`, it is consumed and
/// given back, otherwise nothing is consumed and the error of kind `kind` with help
/// `help` is reported at the span of the last token read.
pub open spec fn expected(
    t: Parser,
    after: Parser,
    r: Option<SpannedItem<Token>>,
    ok: bool,
    kind: ParseErrorKindModel,
    help: Option<Seq<char>>,
) -> bool {
    &&& ok ==> r == Some(t.peek->Some_0) && consumed(t, after)
    &&& !ok ==> r is None && kept_with_error(t, after, (ParseErrorModel { kind, help }, t.lexer.current()))
}

/// The span lies in one of the sources.
pub open spec fn span_in_sources(s: Span, source_map: Seq<(String, String)>) -> bool {
    &&& s.source.0 < source_map.len()
    &&& s.fits()
    &&& s.hi() <= source_bytes(source_map, s.source.0 as int)
    &&& source_bytes(source_map, s.source.0 as int) <= usize::MAX
}

/// The number of bytes of the text of source `s`.
pub open spec fn source_bytes(source_map: Seq<(String, String)>, s: int) -> int {
    vstd::utf8::encode_utf8(source_map[s].1@).len() as int
}

impl Parser {
    /// The helps of the parses under way, outermost first.
    pub open spec fn helps(&self) -> Seq<Seq<char>> {
        Seq::new(self.help@.len(), |i: int| self.help@[i]@)
    }

    /// The parser is consistent: the interner stores each text once, the tokens lie in
    /// order in the sources, reading stays within them, and the token looked at is one
    /// the parser hands out.
    pub open spec fn wf(&self) -> bool {
        &&& self.interner.wf()
        &&& self.lexer.position <= self.lexer.lexemes@.len()
        &&& lexemes_ok(self.lexer.lexemes@, self.lexer.start, self.source_map@)
        &&& self.peek matches Some(t) ==> t.0 != Token::Newline && t.0 != Token::Comment
    }

    /// How much is left to read: two for each unread token, one for a token looked at
    /// but not consumed (the end-of-input token counts nothing).
    pub open spec fn remaining(&self) -> nat {
        (2 * (self.lexer.lexemes@.len() - self.lexer.position) + (if self.peek matches Some(t) && t.0 != Token::Eof {
            1int
        } else {
            0int
        })) as nat
    }

    /// What reading may change: the tokens, the sources and the interner stay.
    pub open spec fn same_input(&self, other: &Parser) -> bool {
        &&& self.lexer.lexemes == other.lexer.lexemes
        &&& self.lexer.start == other.lexer.start
        &&& self.lexer.end == other.lexer.end
        &&& self.source_map == other.source_map
    }

    /// The comments after are the comments before and then more.
    pub open spec fn comments_grow(&self, after: &Parser) -> bool {
        &&& after.comments@.len() >= self.comments@.len()
        &&& after.comments@.subrange(0, self.comments@.len() as int) == self.comments@
    }

    /// The errors after are the errors before and then more.
    pub open spec fn errors_grow(&self, after: &Parser) -> bool {
        &&& after.errors@.len() >= self.errors@.len()
        &&& forall|i: int| 0 <= i < self.errors@.len() ==> after.errors@[i] == self.errors@[i]
    }

    /// Reports an error, with help made from the parses under way.
    pub fn push_error(&mut self, err: SpannedItem<ParseErrorKind>)
        ensures
            parse_error_models(final(self).errors@) == parse_error_models(old(self).errors@).push(
                (ParseErrorModel { kind: err.0@, help: help_for(old(self).helps()) }, err.1),
            ),
            final(self).errors@.len() == old(self).errors@.len() + 1,
            forall|i: int| 0 <= i < old(self).errors@.len() ==> final(self).errors@[i] == old(self).errors@[i],
            final(self).lexer == old(self).lexer,
            final(self).peek == old(self).peek,
            final(self).help == old(self).help,
            final(self).interner == old(self).interner,
            final(self).comments == old(self).comments,
            final(self).source_map == old(self).source_map,
            final(self).expr_id_assigner == old(self).expr_id_assigner,
    {
        let ghost before = parse_error_models(self.errors@);
        if self.help.len() == 0 {
            let e = SpannedItem(err.0.into_err(), err.1);
            self.errors.push(e);
            assert(parse_error_models(self.errors@) =~= before.push((e.0@, e.1)));
            return;
        }
        let ghost helps = self.helps();
        let n = self.help.len();
        let mut help_text = String::new();
        let mut indentation: usize = 0;
        while indentation < n
            invariant
                indentation <= n,
                n == self.help@.len(),
                helps == self.helps(),
                help_text@ == help_lines(helps, indentation as nat),
            decreases n - indentation,
        {
            if indentation > 0 {
                push_str(&mut help_text, "\n");
            }
            let ghost line_start = help_text@;
            let mut k: usize = 0;
            while k < indentation
                invariant
                    k <= indentation,
                    help_text@ == line_start + spaces((2 * k) as nat),
                decreases indentation - k,
            {
                push_str(&mut help_text, "  ");
                proof {
                    reveal_strlit("  ");
                }
                k += 1;
                assert(help_text@ =~= line_start + spaces((2 * k) as nat));
            }
            if indentation > 0 {
                push_str(&mut help_text, "↪ ");
            }
            if indentation == n - 1 {
                push_str(&mut help_text, "expected ");
            } else {
                push_str(&mut help_text, "while parsing ");
            }
            push_str(&mut help_text, self.help[indentation].as_str());
            proof {
                assert(help_text@ =~= line_start + help_line(helps, indentation as int));
                if indentation == 0 {
                    assert(line_start =~= Seq::<char>::empty());
                }
            }
            assert(help_text@ =~= help_lines(helps, (indentation + 1) as nat));
            indentation += 1;
        }
        let e = SpannedItem(err.0.into_err().with_help(Some(help_text)), err.1);
        self.errors.push(e);
        assert(parse_error_models(self.errors@) =~= before.push((e.0@, e.1)));
    }

    /// The text of the last token read.
    pub fn slice(&self) -> (r: &str)
        requires
            self.wf(),
        ensures
            self.lexer.position == 0 ==> r@ == Seq::<char>::empty(),
            self.lexer.position > 0 ==> r@ == self.lexer.lexemes@[self.lexer.position - 1].text@,
    {
        self.lexer.slice()
    }

    /// Interns a symbol.
    pub fn intern(&mut self, internee: String) -> (r: SymbolId)
        requires
            old(self).wf(),
        ensures
            final(self).wf(),
            final(self).interner.texts()[r.0 as int] == internee@,
            r.0 < final(self).interner.texts().len(),
            old(self).interner.texts().contains(internee@) ==> final(self).interner.texts() == old(self).interner.texts(),
            !old(self).interner.texts().contains(internee@) ==> final(self).interner.texts()
                == old(self).interner.texts().push(internee@),
            final(self).lexer == old(self).lexer,
            final(self).peek == old(self).peek,
            final(self).errors == old(self).errors,
            final(self).source_map == old(self).source_map,
    {
        self.interner.insert(internee)
    }

    /// The span of the last token read.
    pub fn span(&self) -> (r: Span)
        requires
            self.wf(),
        ensures
            r == self.lexer.current(),
    {
        self.lexer.span()
    }
}


/// A kind of syntax that can be parsed from the tokens. A parse that succeeds consumes
/// something; every parse leaves the parser consistent, keeps its input and the helps under
/// way, and only adds errors.
pub trait Parse: Sized {
    /// What parsing from `before` may give: the parser `after` and the result `r`. Unless
    /// an implementation says more, any outcome that keeps the rules of parsing.
    open spec fn parsed(before: Parser, after: Parser, r: Option<Self>) -> bool {
        &&& after.wf()
        &&& after.same_input(&before)
        &&& before.errors_grow(&after)
        &&& after.help@ == before.help@
        &&& after.remaining() <= before.remaining()
        &&& r is Some ==> after.remaining() < before.remaining()
    }

    fn parse(p: &mut Parser) -> (r: Option<Self>)
        requires
            old(p).wf(),
        ensures
            final(p).wf(),
            final(p).same_input(old(p)),
            old(p).errors_grow(final(p)),
            final(p).help@ == old(p).help@,
            final(p).remaining() <= old(p).remaining(),
            r is Some ==> final(p).remaining() < old(p).remaining(),
            old(p).comments_grow(final(p)),
            Self::parsed(*old(p), *final(p), r),
    ;
}

/// A parse within one source is given the span from the end of the token before it to
/// the end of its last token.
impl<T: Parse> Parse for SpannedItem<T> {
    /// `T` is parsed and given its span (see [`spanned_outcome`]).
    open spec fn parsed(before: Parser, after: Parser, r: Option<Self>) -> bool {
        exists|mid: Parser, x: Option<T>| #[trigger] T::parsed(before, mid, x) && spanned_outcome(before, mid, x, after, r)
    }

    fn parse(p: &mut Parser) -> (r: Option<Self>) {
        let ghost p0 = *p;
        let before_span = p.lexer.span();
        let parsed = T::parse(p);
        let ghost mid = *p;
        let result = match parsed {
            Some(result) => result,
            None => {
                proof {
                    assert(T::parsed(p0, mid, parsed) && spanned_outcome(p0, mid, parsed, *p, None::<SpannedItem<T>>));
                }
                return None;
            },
        };
        proof {
            lemma_current_ordered(&p0, p);
        }
        let mut after_span = p.lexer.span();
        if after_span.source.0 != before_span.source.0 && after_span.span.offset == 0 {
            // this is acceptable only if the span ends at the very start of the next file
            let len = p.source_map[before_span.source.0].1.as_str().len();
            proof {
                assert(len == source_bytes(p.source_map@, before_span.source.0 as int));
            }
            after_span = before_span.extend(len);
        } else if after_span.source.0 != before_span.source.0 {
            let span = before_span.with_item(ParseErrorKind::InternalSpanError(after_span.span, before_span.span));
            p.push_error(span);
            proof {
                assert(T::parsed(p0, mid, parsed) && spanned_outcome(p0, mid, parsed, *p, None::<SpannedItem<T>>));
            }
            return None;
        }
        let r = Some(before_span.hi_to_hi(after_span).with_item(result));
        proof {
            assert(T::parsed(p0, mid, parsed) && spanned_outcome(p0, mid, parsed, *p, r));
        }
        r
    }
}

/// Reading on never goes back in the sources: the span of the last token read only moves
/// forward.
pub proof fn lemma_current_ordered(a: &Parser, b: &Parser)
    requires
        a.wf(),
        b.wf(),
        b.same_input(a),
        b.remaining() <= a.remaining(),
    ensures
        a.lexer.position <= b.lexer.position,
        span_key_le(a.lexer.current(), b.lexer.current()),
{
    let l = a.lexer.lexemes@;
    if a.lexer.position > b.lexer.position {
        assert(b.remaining() > a.remaining());
    }
    if b.lexer.position > 0 {
        if a.lexer.position > 0 && a.lexer.position < b.lexer.position {
            assert(span_key_le(l[a.lexer.position - 1].span, l[b.lexer.position - 1].span));
        }
    }
}

impl Parser {
    /// A parser over lexed sources, with an interner and the sources read before.
    pub fn new_with_existing_interner_and_source_map(
        lexemes: Vec<Lexeme>,
        start: Span,
        end: Span,
        sources: Vec<(String, String)>,
        interner: SymbolInterner,
        source_map: Vec<(String, String)>,
    ) -> (r: Parser)
        requires
            interner.wf(),
            lexemes_ok(lexemes@, start, source_map@ + sources@),
        ensures
            r.wf(),
            r.lexer.lexemes@ == lexemes@,
            r.lexer.position == 0,
            r.source_map@ == source_map@ + sources@,
            r.interner == interner,
            r.errors@.len() == 0,
            r.comments@.len() == 0,
            r.peek is None,
            r.help@.len() == 0,
            r.expr_id_assigner == 0,
    {
        let mut source_map = source_map;
        let mut sources = sources;
        let ghost expected = source_map@ + sources@;
        source_map.append(&mut sources);
        assert(source_map@ =~= expected);
        Parser {
            // reuse the interner if provided, otherwise create a new one
            interner,
            lexer: Lexer { lexemes, position: 0, start, end },
            errors: Vec::new(),
            comments: Vec::new(),
            peek: None,
            source_map,
            help: Vec::new(),
            expr_id_assigner: 0,
        }
    }

    /// A parser over lexed sources.
    pub fn new(lexemes: Vec<Lexeme>, start: Span, end: Span, sources: Vec<(String, String)>) -> (r: Parser)
        requires
            lexemes_ok(lexemes@, start, sources@),
        ensures
            r.wf(),
            r.lexer.lexemes@ == lexemes@,
            r.lexer.position == 0,
            r.source_map@ == sources@,
            r.interner.texts().len() == 0,
            r.errors@.len() == 0,
            r.comments@.len() == 0,
            r.peek is None,
            r.help@.len() == 0,
            r.expr_id_assigner == 0,
    {
        let source_map: Vec<(String, String)> = Vec::new();
        assert(source_map@ + sources@ =~= sources@);
        Self::new_with_existing_interner_and_source_map(lexemes, start, end, sources, SymbolInterner::new(), source_map)
    }

    /// A fresh id for an expression: ids are handed out in increasing order.
    pub fn new_expr_id(&mut self) -> (r: ExprId)
        requires
            old(self).expr_id_assigner < usize::MAX,
        ensures
            r.0 == old(self).expr_id_assigner,
            final(self).expr_id_assigner == old(self).expr_id_assigner + 1,
            final(self).lexer == old(self).lexer,
            final(self).peek == old(self).peek,
            final(self).errors == old(self).errors,
            final(self).interner == old(self).interner,
            final(self).source_map == old(self).source_map,
            final(self).help == old(self).help,
            final(self).comments == old(self).comments,
    {
        let id = self.expr_id_assigner;
        self.expr_id_assigner = self.expr_id_assigner + 1;
        ExprId(id)
    }

    /// Takes the comments read so far, in order.
    pub fn drain_comments(&mut self) -> (r: Vec<Comment>)
        ensures
            r@.len() == old(self).comments@.len(),
            forall|i: int| 0 <= i < r@.len() ==> (#[trigger] r@[i]) == old(self).comments@[i].0,
            final(self).comments@.len() == 0,
            final(self).lexer == old(self).lexer,
            final(self).peek == old(self).peek,
            final(self).errors == old(self).errors,
            final(self).interner == old(self).interner,
            final(self).source_map == old(self).source_map,
            final(self).help == old(self).help,
    {
        let mut taken: Vec<SpannedItem<Comment>> = Vec::new();
        std::mem::swap(&mut taken, &mut self.comments);
        let ghost all = taken@;
        let mut out: Vec<Comment> = Vec::new();
        let mut rest: Vec<SpannedItem<Comment>> = Vec::new();
        // keep the order: move them out back to front, then reverse
        while taken.len() > 0
            invariant
                taken@.len() + rest@.len() == all.len(),
                forall|i: int| 0 <= i < taken@.len() ==> taken@[i] == all[i],
                forall|i: int| 0 <= i < rest@.len() ==> rest@[i] == all[all.len() - 1 - i],
            decreases taken@.len(),
        {
            let c = taken.pop().unwrap();
            rest.push(c);
        }
        while rest.len() > 0
            invariant
                out@.len() + rest@.len() == all.len(),
                forall|i: int| 0 <= i < rest@.len() ==> rest@[i] == all[all.len() - 1 - i],
                forall|i: int| 0 <= i < out@.len() ==> out@[i] == all[i].0,
            decreases rest@.len(),
        {
            let c = rest.pop().unwrap();
            out.push(c.0);
        }
        out
    }

    /// The interner.
    pub fn interner(&self) -> (r: &SymbolInterner)
        ensures
            *r == self.interner,
    {
        &self.interner
    }

    /// The errors reported so far.
    pub fn errors(&self) -> (r: &Vec<SpannedItem<ParseError>>)
        ensures
            r@ == self.errors@,
    {
        &self.errors
    }

    /// The sources, each as its name and its text.
    pub fn source_map(&self) -> (r: &Vec<(String, String)>)
        ensures
            r@ == self.source_map@,
    {
        &self.source_map
    }

    /// A comment just read: its text, placed at the end of the comment token.
    fn parse_comment(&mut self) -> (r: SpannedItem<Comment>)
        requires
            old(self).wf(),
            old(self).lexer.position > 0,
        ensures
            *final(self) == *old(self),
            r.0.content@ == old(self).lexer.lexemes@[old(self).lexer.position - 1].text@,
            r.1 == point_after(old(self).lexer.lexemes@[old(self).lexer.position - 1].span),
    {
        let span = self.lexer.span();
        let comment = Comment::new(self.lexer.slice());
        span.hi_to_hi(span).with_item(comment)
    }

    /// The next token, consumed: the one looked at, if any; otherwise the next one read,
    /// past line breaks and comments (the comments are kept). Text that is no token is
    /// reported and read as the end of input.
    pub fn advance(&mut self) -> (r: SpannedItem<Token>)
        requires
            old(self).wf(),
        ensures
            final(self).wf(),
            final(self).same_input(old(self)),
            old(self).errors_grow(final(self)),
            final(self).help == old(self).help,
            final(self).interner == old(self).interner,
            final(self).expr_id_assigner == old(self).expr_id_assigner,
            final(self).peek is None,
            r.0 != Token::Newline && r.0 != Token::Comment,
            final(self).remaining() <= old(self).remaining(),
            r.0 != Token::Eof ==> final(self).remaining() < old(self).remaining(),
            old(self).peek matches Some(t) ==> {
                &&& r == t
                &&& final(self).lexer == old(self).lexer
                &&& final(self).errors == old(self).errors
                &&& final(self).comments == old(self).comments
            },
            old(self).peek is None ==> reads_next(old(self), final(self), r),
        decreases old(self).lexer.lexemes@.len() - old(self).lexer.position,
    {
        if let Some(tok) = self.peek {
            self.peek = None;
            return tok;
        }
        let ghost before = *self;
        let next_tok = match self.lexer.advance() {
            Ok(o) => o,
            Err(span) => {
                self.push_error(span.with_item(ParseErrorKind::LexerError));
                return span.with_item(Token::Eof);
            },
        };
        match next_tok.0 {
            Token::Newline => {
                let r = self.advance();
                proof {
                    let ls = before.lexer.lexemes@;
                    assert(scan_comments(ls, before.lexer.position as int) == scan_comments(
                        ls,
                        before.lexer.position + 1,
                    ));
                }
                r
            },
            Token::Comment => {
                let comment = self.parse_comment();
                let ghost pushed_from = self.comments@;
                self.comments.push(comment);
                proof {
                    assert(comment_models(self.comments@) =~= comment_models(pushed_from).push(
                        (comment.0.content@, comment.1),
                    ));
                }
                let ghost mid = self.comments@;
                let r = self.advance();
                proof {
                    let ls = before.lexer.lexemes@;
                    let i = before.lexer.position as int;
                    assert(comment_models(self.comments@) =~= comment_models(before.comments@) + scan_comments(ls, i));
                }
                r
            },
            _ => next_tok,
        }
    }

    /// The next token, without consuming it.
    pub fn peek(&mut self) -> (r: SpannedItem<Token>)
        requires
            old(self).wf(),
        ensures
            final(self).wf(),
            final(self).same_input(old(self)),
            old(self).errors_grow(final(self)),
            final(self).help == old(self).help,
            final(self).interner == old(self).interner,
            final(self).peek == Some(r),
            final(self).remaining() <= old(self).remaining(),
            old(self).peek matches Some(t) ==> r == t && *final(self) == *old(self),
            old(self).peek is None ==> reads_next(old(self), final(self), r),
            peeked(*old(self), *final(self)),
    {
        if let Some(peek) = self.peek {
            peek
        } else {
            let item = self.advance();
            self.peek = Some(item);
            item
        }
    }
}


/// The text of the help pushed while a token is expected.
pub open spec fn token_help(tok: Token) -> Seq<char> {
    "while parsing token "@ + token_text(tok)
}

/// The text of the help pushed while a separated sequence is parsed.
pub open spec fn sequence_help(separator: Token) -> Seq<char> {
    "while parsing "@ + token_text(separator) + " separated sequence"@
}

impl Parser {
    /// Consumes the next token if it is `tok`; otherwise reports nothing and consumes
    /// nothing.
    pub fn try_token(&mut self, tok: Token) -> (r: Option<SpannedItem<Token>>)
        requires
            old(self).wf(),
        ensures
            final(self).wf(),
            final(self).same_input(old(self)),
            old(self).errors_grow(final(self)),
            final(self).help == old(self).help,
            final(self).remaining() <= old(self).remaining(),
            r matches Some(t) ==> t.0 == tok && final(self).peek is None && (tok != Token::Eof ==> final(self).remaining()
                < old(self).remaining()),
            r is None ==> (final(self).peek matches Some(t) && t.0 != tok),
            old(self).peek matches Some(t) ==> (r is Some <==> t.0 == tok),
            sees_next(old(self), final(self), if r is Some { r->Some_0 } else { final(self).peek->Some_0 }),
    {
        let peeked_token = self.peek();
        if peeked_token.0 == tok {
            Some(self.advance())
        } else {
            None
        }
    }

    /// Consumes the next token if it is one of `toks`; otherwise reports nothing and
    /// consumes nothing.
    pub fn try_tokens(&mut self, toks: &Vec<Token>) -> (r: Option<SpannedItem<Token>>)
        requires
            old(self).wf(),
        ensures
            final(self).wf(),
            final(self).same_input(old(self)),
            old(self).errors_grow(final(self)),
            final(self).help == old(self).help,
            final(self).remaining() <= old(self).remaining(),
            r matches Some(t) ==> toks@.contains(t.0) && final(self).peek is None,
            r is None ==> (final(self).peek matches Some(t) && !toks@.contains(t.0)),
            sees_next(old(self), final(self), if r is Some { r->Some_0 } else { final(self).peek->Some_0 }),
    {
        let peeked_token = self.peek();
        if contains_token(toks, peeked_token.0) {
            Some(self.advance())
        } else {
            None
        }
    }

    /// Opens a parse under way, for the help of the errors found in it.
    pub fn push_help(&mut self, arg: String)
        ensures
            final(self).help@ == old(self).help@.push(arg),
            final(self).helps() == old(self).helps().push(arg@),
            final(self).expr_id_assigner == old(self).expr_id_assigner,
            final(self).lexer == old(self).lexer,
            final(self).peek == old(self).peek,
            final(self).errors == old(self).errors,
            final(self).interner == old(self).interner,
            final(self).source_map == old(self).source_map,
            final(self).comments == old(self).comments,
    {
        self.help.push(arg);
        assert(self.helps() =~= old(self).helps().push(arg@));
    }

    /// Closes the innermost parse under way.
    pub fn pop_help(&mut self)
        ensures
            final(self).help@ == (if old(self).help@.len() == 0 {
                old(self).help@
            } else {
                old(self).help@.drop_last()
            }),
            final(self).expr_id_assigner == old(self).expr_id_assigner,
            final(self).lexer == old(self).lexer,
            final(self).peek == old(self).peek,
            final(self).errors == old(self).errors,
            final(self).interner == old(self).interner,
            final(self).source_map == old(self).source_map,
            final(self).comments == old(self).comments,
    {
        let _ = self.help.pop();
    }

    /// Consumes the next token if it is `tok`; otherwise reports that `tok` was expected,
    /// with the help `while parsing token ..` added, and consumes nothing.
    pub fn token(&mut self, tok: Token) -> (r: Option<SpannedItem<Token>>)
        requires
            old(self).wf(),
        ensures
            final(self).wf(),
            final(self).same_input(old(self)),
            old(self).errors_grow(final(self)),
            final(self).help@ == old(self).help@,
            final(self).remaining() <= old(self).remaining(),
            r matches Some(t) ==> t.0 == tok && final(self).peek is None && (tok != Token::Eof ==> final(self).remaining()
                < old(self).remaining()),
            old(self).peek matches Some(t) ==> (r is Some <==> t.0 == tok),
            r is None ==> (final(self).peek matches Some(t) && t.0 != tok && parse_error_models(final(self).errors@).last()
                == (ParseErrorModel {
                kind: ParseErrorKindModel::ExpectedToken(tok, t.0),
                help: help_for(old(self).helps().push(token_help(tok))),
            }, final(self).lexer.current())),
            exists|pushed: Parser, t: Parser|
                {
                    &&& same_but_help(*old(self), pushed)
                    &&& pushed.helps() == old(self).helps().push(token_help(tok))
                    &&& #[trigger] peeked(pushed, t)
                    &&& expected(
                        t,
                        *final(self),
                        r,
                        t.peek->Some_0.0 == tok,
                        ParseErrorKindModel::ExpectedToken(tok, t.peek->Some_0.0),
                        help_for(pushed.helps()),
                    )
                },
    {
        let ghost before = *self;
        let mut help_text = owned("while parsing token ");
        push_str(&mut help_text, tok.text());
        self.push_help(help_text);
        let ghost pushed = *self;
        let peeked_token = self.peek();
        let ghost t = *self;
        let r = if peeked_token.0 == tok {
            Some(self.advance())
        } else {
            let span = self.lexer.span();
            self.push_error(span.with_item(ParseErrorKind::ExpectedToken(tok, peeked_token.0)));
            None
        };
        let ghost popped_from = self.help@;
        self.pop_help();
        proof {
            assert(self.help@ =~= before.help@);
            assert(expected(
                t,
                *self,
                r,
                t.peek->Some_0.0 == tok,
                ParseErrorKindModel::ExpectedToken(tok, t.peek->Some_0.0),
                help_for(pushed.helps()),
            ));
        }
        r
    }

    /// Consumes the next token if it is one of `toks` (see [`Parser::token`]); otherwise
    /// reports which token, or which of the tokens, was expected, and consumes nothing.
    pub fn one_of<const N: usize>(&mut self, toks: [Token; N]) -> (r: Option<SpannedItem<Token>>)
        requires
            old(self).wf(),
        ensures
            final(self).wf(),
            final(self).same_input(old(self)),
            old(self).errors_grow(final(self)),
            final(self).help@ == old(self).help@,
            final(self).remaining() <= old(self).remaining(),
            r matches Some(t) ==> toks@.contains(t.0) && final(self).peek is None,
            r is None ==> (final(self).peek matches Some(t) && !toks@.contains(t.0) && parse_error_models(
                final(self).errors@,
            ).last() == (ParseErrorModel {
                kind: if N == 1 {
                    ParseErrorKindModel::ExpectedToken(toks@[0], t.0)
                } else {
                    ParseErrorKindModel::ExpectedOneOf(toks@, t.0)
                },
                help: help_for(old(self).helps()),
            }, final(self).lexer.current())),
            exists|t: Parser|
                {
                    &&& #[trigger] peeked(*old(self), t)
                    &&& expected(
                        t,
                        *final(self),
                        r,
                        toks@.contains(t.peek->Some_0.0),
                        if N == 1 {
                            ParseErrorKindModel::ExpectedToken(toks@[0], t.peek->Some_0.0)
                        } else {
                            ParseErrorKindModel::ExpectedOneOf(toks@, t.peek->Some_0.0)
                        },
                        help_for(old(self).helps()),
                    )
                },
    {
        let ghost before = *self;
        let peeked = self.peek();
        let ghost t = *self;
        let mut list: Vec<Token> = Vec::new();
        let mut i: usize = 0;
        while i < N
            invariant
                i <= N,
                toks@.len() == N,
                list@ == toks@.subrange(0, i as int),
            decreases N - i,
        {
            list.push(toks[i]);
            i += 1;
            assert(list@ =~= toks@.subrange(0, i as int));
        }
        assert(toks@.subrange(0, N as int) =~= toks@);
        let ghost kind = if N == 1 {
            ParseErrorKindModel::ExpectedToken(toks@[0], peeked.0)
        } else {
            ParseErrorKindModel::ExpectedOneOf(toks@, peeked.0)
        };
        if contains_token(&list, peeked.0) {
            let r = self.token(peeked.0);
            proof {
                assert(expected(t, *self, r, true, kind, help_for(before.helps())));
            }
            r
        } else {
            let span = self.lexer.span();
            if N == 1 {
                self.push_error(span.with_item(ParseErrorKind::ExpectedToken(toks[0], peeked.0)));
            } else {
                self.push_error(span.with_item(ParseErrorKind::ExpectedOneOf(list, peeked.0)));
            }
            proof {
                assert(expected(t, *self, None, false, kind, help_for(before.helps())));
            }
            None
        }
    }

    /// Where the parser stands.
    pub fn checkpoint(&self) -> (r: Checkpoint)
        ensures
            r.errors == self.errors@.len(),
            r.comments == self.comments@.len(),
            r.position == self.lexer.position,
            r.peek == self.peek,
    {
        Checkpoint {
            errors: self.errors.len(),
            comments: self.comments.len(),
            position: self.lexer.position,
            peek: self.peek,
        }
    }

    /// Goes back to where the parser stood, and hands back the errors reported since.
    pub fn restore_checkpoint(&mut self, checkpoint: Checkpoint) -> (r: Vec<SpannedItem<ParseError>>)
        requires
            checkpoint.errors <= old(self).errors@.len(),
        ensures
            final(self).lexer.position == checkpoint.position,
            final(self).peek == checkpoint.peek,
            final(self).errors@ == old(self).errors@.subrange(0, checkpoint.errors as int),
            r@ == old(self).errors@.subrange(checkpoint.errors as int, old(self).errors@.len() as int),
            final(self).lexer.lexemes == old(self).lexer.lexemes,
            final(self).lexer.start == old(self).lexer.start,
            final(self).lexer.end == old(self).lexer.end,
            final(self).interner == old(self).interner,
            final(self).source_map == old(self).source_map,
            final(self).help == old(self).help,
            checkpoint.comments <= old(self).comments@.len() ==> final(self).comments@ == old(self).comments@.subrange(
                0,
                checkpoint.comments as int,
            ),
            checkpoint.comments > old(self).comments@.len() ==> final(self).comments@ == old(self).comments@,
            final(self).expr_id_assigner == old(self).expr_id_assigner,
    {
        self.lexer.position = checkpoint.position;
        self.peek = checkpoint.peek;
        self.comments.truncate(checkpoint.comments);
        self.errors.split_off(checkpoint.errors)
    }

    /// Parses a `P`; when that fails, goes back to where the parser stood, taking back the
    /// errors the failed parse reported and handing them out.
    pub fn with_backtrack<P: Parse>(&mut self) -> (r: Result<P, Vec<SpannedItem<ParseError>>>)
        requires
            old(self).wf(),
        ensures
            final(self).wf(),
            final(self).same_input(old(self)),
            old(self).errors_grow(final(self)),
            final(self).help@ == old(self).help@,
            final(self).remaining() <= old(self).remaining(),
            r is Ok ==> final(self).remaining() < old(self).remaining(),
            r is Err ==> {
                &&& final(self).lexer == old(self).lexer
                &&& final(self).peek == old(self).peek
                &&& final(self).errors@ == old(self).errors@
                &&& final(self).comments@ == old(self).comments@
            },
            backtracked(*old(self), *final(self), r),
    {
        let ghost before = *self;
        let checkpoint = self.checkpoint();
        let res = P::parse(self);
        let ghost q = *self;
        let out: Result<P, Vec<SpannedItem<ParseError>>> = match res {
            Some(v) => Ok(v),
            None => {
                let errs = self.restore_checkpoint(checkpoint);
                proof {
                    assert(self.errors@ =~= before.errors@);
                    assert(self.lexer == before.lexer);
                }
                Err(errs)
            },
        };
        proof {
            assert(P::parsed(before, q, res));
            if res is Some {
                assert(out == Ok::<P, Vec<SpannedItem<ParseError>>>(res->Some_0));
                assert(*self == q);
            } else {
                assert(out is Err);
                assert(restored(before, q, *self));
            }
            assert(backtracked(before, *self, out));
        }
        out
    }

    /// Parses a `P`.
    pub fn parse<P: Parse>(&mut self) -> (r: Option<P>)
        requires
            old(self).wf(),
        ensures
            final(self).wf(),
            final(self).same_input(old(self)),
            old(self).errors_grow(final(self)),
            final(self).help@ == old(self).help@,
            final(self).remaining() <= old(self).remaining(),
            r is Some ==> final(self).remaining() < old(self).remaining(),
            P::parsed(*old(self), *final(self), r),
    {
        P::parse(self)
    }

    /// Parses a `P` with `help_text` as the parse under way.
    pub fn with_help<P: Parse>(&mut self, help_text: String) -> (r: Option<P>)
        requires
            old(self).wf(),
        ensures
            final(self).wf(),
            final(self).same_input(old(self)),
            old(self).errors_grow(final(self)),
            final(self).help@ == old(self).help@,
            final(self).remaining() <= old(self).remaining(),
            r is Some ==> final(self).remaining() < old(self).remaining(),
            exists|pushed: Parser, q: Parser|
                {
                    &&& help_pushed(*old(self), pushed, help_text)
                    &&& #[trigger] P::parsed(pushed, q, r)
                    &&& same_but_help(q, *final(self))
                },
    {
        let ghost before = *self;
        let ghost text = help_text;
        self.push_help(help_text);
        let ghost pushed = *self;
        let res = P::parse(self);
        let ghost q = *self;
        self.pop_help();
        proof {
            assert(self.help@ =~= before.help@);
            assert(help_pushed(before, pushed, text) && P::parsed(pushed, q, res) && same_but_help(q, *self));
        }
        res
    }

    /// Consumes the parser: parses `P`s until the end of input or until one fails, and
    /// hands back what was parsed, the errors reported, the interner and the sources.
    pub fn into_result<P: Parse>(self) -> (r: (Vec<P>, Vec<SpannedItem<ParseError>>, SymbolInterner, Vec<(String, String)>))
        requires
            self.wf(),
        ensures
            exists|q: Parser, states: Seq<Parser>, peeks: Seq<Parser>|
                {
                    &&& #[trigger] many_run(self, q, r.0@, states, peeks)
                    &&& q.wf()
                    &&& q.same_input(&self)
                    &&& self.errors_grow(&q)
                    &&& q.errors@ == r.1@
                    &&& q.interner == r.2
                    &&& q.source_map@ == r.3@
                },
            r.3@ == self.source_map@,
    {
        let mut p = self;
        let ghost start = p;
        let nodes = p.many::<P>();
        let ghost q = p;
        let out = (nodes, p.errors, p.interner, p.source_map);
        proof {
            let (states, peeks) = choose|states: Seq<Parser>, peeks: Seq<Parser>| #[trigger] many_run(start, q, nodes@, states, peeks);
            assert(out.0@ == nodes@);
            assert(many_run(start, q, out.0@, states, peeks));
            assert(q.errors@ == out.1@);
            assert(q.interner == out.2);
            assert(q.source_map@ == out.3@);
            assert(start == self);
        }
        out
    }

    /// Parses `P`s until the end of input or until one fails.
    pub fn many<P: Parse>(&mut self) -> (r: Vec<P>)
        requires
            old(self).wf(),
        ensures
            final(self).wf(),
            final(self).same_input(old(self)),
            old(self).errors_grow(final(self)),
            final(self).help@ == old(self).help@,
            exists|states: Seq<Parser>, peeks: Seq<Parser>| #[trigger] many_run(*old(self), *final(self), r@, states, peeks),
    {
        let ghost before = *self;
        let mut buf: Vec<P> = Vec::new();
        let mut done = false;
        let ghost mut states: Seq<Parser> = seq![before];
        let ghost mut peeks: Seq<Parser> = Seq::empty();
        while !done
            invariant
                self.wf(),
                self.same_input(&before),
                before.errors_grow(self),
                self.help@ == before.help@,
                states.len() == buf@.len() + 1,
                states[0] == before,
                forall|i: int| 0 <= i < buf@.len() ==> many_step(states[i], #[trigger] peeks[i], states[i + 1], buf@[i]),
                !done ==> peeks.len() == buf@.len() && states.last() == *self,
                done ==> many_run(before, *self, buf@, states, peeks),
            decreases self.remaining(), if done {
                0int
            } else {
                1int
            },
        {
            let ghost s = *self;
            let next = self.peek();
            let ghost t = *self;
            if next.0 == Token::Eof {
                proof {
                    peeks = peeks.push(t);
                }
                done = true;
            } else {
                let parsed = P::parse(self);
                match parsed {
                    Some(parsed_item) => {
                        proof {
                            peeks = peeks.push(t);
                            states = states.push(*self);
                            assert(many_step(s, t, *self, parsed_item));
                        }
                        let ghost prev = buf@;
                        buf.push(parsed_item);
                        proof {
                            assert forall|i: int| 0 <= i < buf@.len() implies many_step(
                                states[i],
                                #[trigger] peeks[i],
                                states[i + 1],
                                buf@[i],
                            ) by {
                                if i < buf@.len() - 1 {
                                    assert(buf@[i] == prev[i]);
                                }
                            }
                        }
                    },
                    None => {
                        proof {
                            peeks = peeks.push(t);
                        }
                        done = true;
                    },
                }
            }
        }
        buf
    }

    /// Parses one or more `P`s separated by `separator`, such as `a, b, c`. When not even
    /// one can be parsed, the errors of that attempt are reported and nothing is consumed.
    pub fn sequence<P: Parse>(&mut self, separator: Token) -> (r: Option<Vec<P>>)
        requires
            old(self).wf(),
        ensures
            final(self).wf(),
            final(self).same_input(old(self)),
            old(self).errors_grow(final(self)),
            final(self).help@ == old(self).help@,
            final(self).remaining() <= old(self).remaining(),
            r matches Some(v) ==> v@.len() > 0,
            r is None ==> final(self).lexer == old(self).lexer && final(self).peek == old(self).peek,
            exists|
                items: Seq<P>,
                states: Seq<Parser>,
                us: Seq<Parser>,
                ts: Seq<Parser>,
                fail_at: Parser,
                fail: Result<P, Vec<SpannedItem<ParseError>>>,
            | #[trigger] seq_run(*old(self), *final(self), r, separator, items, states, us, ts, fail_at, fail),
    {
        let ghost before = *self;
        let mut buf: Vec<P> = Vec::new();
        let mut errs: Vec<SpannedItem<ParseError>> = Vec::new();
        let mut done = false;
        let ghost mut states: Seq<Parser> = seq![before];
        let ghost mut us: Seq<Parser> = Seq::empty();
        let ghost mut ts: Seq<Parser> = Seq::empty();
        let ghost mut ended_a = false;
        let ghost mut fail_at = before;
        let ghost mut fail: Result<P, Vec<SpannedItem<ParseError>>> = arbitrary();
        while !done
            invariant
                self.wf(),
                self.same_input(&before),
                before.errors_grow(self),
                self.help@ == before.help@,
                self.remaining() <= before.remaining(),
                buf@.len() == 0 ==> self.lexer == before.lexer && self.peek == before.peek && self.errors@ == before.errors@,
                states.len() == buf@.len() + 1,
                us.len() == buf@.len(),
                ts.len() == buf@.len(),
                states[0] == before,
                forall|i: int| 0 <= i < buf@.len() ==> seq_item(states[i], us[i], #[trigger] ts[i], buf@[i]),
                forall|i: int|
                    0 <= i < buf@.len() - 1 ==> (#[trigger] ts[i]).peek->Some_0.0 == separator && took_peek(
                        ts[i],
                        states[i + 1],
                    ),
                !done ==> states.last() == *self && !ended_a,
                !done && buf@.len() > 0 ==> ts.last().peek->Some_0.0 == separator && took_peek(ts.last(), states.last()),
                done && ended_a ==> buf@.len() > 0 && ts.last().peek->Some_0.0 != separator && *self == ts.last(),
                done && !ended_a ==> {
                    &&& buf@.len() > 0 ==> ts.last().peek->Some_0.0 == separator && took_peek(ts.last(), states.last())
                    &&& fail is Err
                    &&& backtracked(states.last(), *self, fail)
                    &&& fail_at == *self
                    &&& errs@ == fail->Err_0@
                },
            decreases self.remaining(), if done {
                0int
            } else {
                1int
            },
        {
            let ghost s0 = *self;
            let res = self.with_backtrack::<P>();
            let ghost res_g = res;
            match res {
                Ok(item) => {
                    let ghost u = *self;
                    let next = self.peek();
                    let ghost t = *self;
                    let ghost prev = buf@;
                    proof {
                        assert(seq_item(s0, u, t, item));
                        us = us.push(u);
                        ts = ts.push(t);
                    }
                    buf.push(item);
                    if next.0 == separator {
                        self.advance();
                        proof {
                            states = states.push(*self);
                            assert(took_peek(t, *self));
                        }
                    } else {
                        proof {
                            states = states.push(t);
                            ended_a = true;
                            assert(ts.last() == t);
                            assert(t.peek == Some(next));
                            assert(*self == t);
                        }
                        done = true;
                    }
                    proof {
                        assert forall|i: int| 0 <= i < buf@.len() implies seq_item(
                            states[i],
                            us[i],
                            #[trigger] ts[i],
                            buf@[i],
                        ) by {
                            if i < buf@.len() - 1 {
                                assert(buf@[i] == prev[i]);
                            }
                        }
                    }
                },
                Err(e) => {
                    proof {
                        fail = res_g;
                        fail_at = *self;
                    }
                    errs = e;
                    done = true;
                },
            }
        }
        if buf.len() == 0 {
            let ghost at = *self;
            let mut i: usize = 0;
            proof {
                assert(errs@.subrange(0, 0) =~= Seq::<SpannedItem<ParseError>>::empty());
                assert(parse_error_models(self.errors@) =~= parse_error_models(at.errors@) + parse_error_models(
                    errs@.subrange(0, 0),
                ));
            }
            while i < errs.len()
                invariant
                    i <= errs@.len(),
                    self.wf(),
                    self.same_input(&before),
                    before.errors_grow(self),
                    self.help@ == before.help@,
                    self.lexer == before.lexer,
                    self.peek == before.peek,
                    same_but_errors(at, *self),
                    parse_error_models(self.errors@) == parse_error_models(at.errors@) + parse_error_models(
                        errs@.subrange(0, i as int),
                    ),
                decreases errs@.len() - i,
            {
                let ghost prev = self.errors@;
                let c = errs[i].copy_error();
                self.errors.push(c);
                proof {
                    assert(parse_error_models(errs@.subrange(0, i + 1)) =~= parse_error_models(
                        errs@.subrange(0, i as int),
                    ).push((c.0@, c.1)));
                    assert(parse_error_models(self.errors@) =~= parse_error_models(prev).push((c.0@, c.1)));
                }
                i += 1;
            }
            proof {
                assert(errs@.subrange(0, errs@.len() as int) =~= errs@);
                assert(seq_run(before, *self, None::<Vec<P>>, separator, buf@, states, us, ts, fail_at, fail));
            }
            None
        } else {
            let r = Some(buf);
            proof {
                assert(seq_run(before, *self, r, separator, buf@, states, us, ts, fail_at, fail));
            }
            r
        }
    }

    /// Parses one or more `P`s separated by `separator` (see [`Parser::sequence`]).
    pub fn sequence_one_or_more<P: Parse>(&mut self, separator: Token) -> (r: Option<Vec<P>>)
        requires
            old(self).wf(),
        ensures
            final(self).wf(),
            final(self).same_input(old(self)),
            old(self).errors_grow(final(self)),
            final(self).help@ == old(self).help@,
            final(self).remaining() <= old(self).remaining(),
            r matches Some(v) ==> v@.len() > 0,
            r is None ==> final(self).lexer == old(self).lexer && final(self).peek == old(self).peek,
            exists|
                items: Seq<P>,
                states: Seq<Parser>,
                us: Seq<Parser>,
                ts: Seq<Parser>,
                fail_at: Parser,
                fail: Result<P, Vec<SpannedItem<ParseError>>>,
            | #[trigger] seq_run(*old(self), *final(self), r, separator, items, states, us, ts, fail_at, fail),
    {
        self.sequence(separator)
    }

    /// Parses zero or more `P`s separated by `separator`, with `while parsing ..
    /// separated sequence` as the parse under way. A first `P` that cannot be parsed is
    /// no error: the sequence is empty.
    pub fn sequence_zero_or_more<P: Parse>(&mut self, separator: Token) -> (r: Option<Vec<P>>)
        requires
            old(self).wf(),
        ensures
            final(self).wf(),
            final(self).same_input(old(self)),
            old(self).errors_grow(final(self)),
            final(self).help@ == old(self).help@,
            final(self).remaining() <= old(self).remaining(),
            r is Some,
            exists|states: Seq<Parser>, us: Seq<Parser>, ts: Seq<Parser>, end: Parser|
                #[trigger] zero_run(*old(self), *final(self), r->Some_0@, separator, states, us, ts, end),
    {
        let ghost before = *self;
        let mut help_text = owned("while parsing ");
        push_str(&mut help_text, separator.text());
        push_str(&mut help_text, " separated sequence");
        proof {
            assert(help_text@ == sequence_help(separator)) by {
                reveal_strlit("while parsing ");
                reveal_strlit(" separated sequence");
            }
        }
        self.push_help(help_text);
        let ghost pushed = *self;
        proof {
            assert(pushed.help@.drop_last() =~= before.help@);
        }
        let mut buf: Vec<P> = Vec::new();
        let mut done = false;
        let ghost mut states: Seq<Parser> = seq![pushed];
        let ghost mut us: Seq<Parser> = Seq::empty();
        let ghost mut ts: Seq<Parser> = Seq::empty();
        let ghost mut ended_a = false;
        while !done
            invariant
                self.wf(),
                self.same_input(&before),
                before.errors_grow(self),
                self.help@ == pushed.help@,
                self.helps() == before.helps().push(sequence_help(separator)),
                self.remaining() <= before.remaining(),
                states.len() == buf@.len() + 1,
                us.len() == buf@.len(),
                ts.len() == buf@.len(),
                states[0] == pushed,
                forall|i: int| 0 <= i < buf@.len() ==> #[trigger] zero_item(states, us, ts, buf@, i),
                forall|i: int|
                    0 <= i < buf@.len() - 1 ==> (#[trigger] ts[i]).peek->Some_0.0 == separator && took_peek(
                        ts[i],
                        states[i + 1],
                    ),
                !done ==> states.last() == *self && !ended_a,
                !done && buf@.len() > 0 ==> ts.last().peek->Some_0.0 == separator && took_peek(ts.last(), states.last()),
                done && ended_a ==> buf@.len() > 0 && ts.last().peek->Some_0.0 != separator && *self == ts.last(),
                done && !ended_a ==> {
                    &&& buf@.len() > 0 ==> ts.last().peek->Some_0.0 == separator && took_peek(ts.last(), states.last())
                    &&& zero_attempt(buf@.len() == 0, states.last(), *self, None::<P>)
                },
            decreases self.remaining(), if done {
                0int
            } else {
                1int
            },
        {
            let ghost s0 = *self;
            let ghost first = buf@.len() == 0;
            // if there are no items in the buf, we try a backtracking parse in case this is
            // a zero sequence
            let item = if buf.len() == 0 {
                let res = self.with_backtrack::<P>();
                let ghost rg = res;
                match res {
                    Ok(item) => Some(item),
                    Err(_) => {
                        proof {
                            assert(backtracked(s0, *self, Err::<P, Vec<SpannedItem<ParseError>>>(rg->Err_0)));
                        }
                        None
                    },
                }
            } else {
                // there is at least one item in the buf, so we know all parse errors arising
                // from `P` are valid
                P::parse(self)
            };
            let ghost item_opt = item;
            let ghost u = *self;
            proof {
                assert(zero_attempt(first, s0, u, item_opt));
            }
            match item {
                Some(item) => {
                    let next = self.peek();
                    let ghost t = *self;
                    let ghost prev = buf@;
                    let ghost (ps, pu, pt) = (states, us, ts);
                    proof {
                        us = us.push(u);
                        ts = ts.push(t);
                    }
                    buf.push(item);
                    if next.0 == separator {
                        self.advance();
                        proof {
                            states = states.push(*self);
                            assert(took_peek(t, *self));
                        }
                    } else {
                        proof {
                            states = states.push(t);
                            ended_a = true;
                        }
                        done = true;
                    }
                    proof {
                        assert forall|i: int| 0 <= i < buf@.len() implies #[trigger] zero_item(states, us, ts, buf@, i) by {
                            if i < buf@.len() - 1 {
                                assert(buf@[i] == prev[i]);
                                assert(states[i] == ps[i] && us[i] == pu[i] && ts[i] == pt[i]);
                                assert(zero_item(ps, pu, pt, prev, i));
                            } else {
                                assert(item_opt == Some(buf@[i]));
                                assert(states[i] == s0);
                                assert(us[i] == u);
                                assert(first == (i == 0));
                            }
                        }
                    }
                },
                None => {
                    done = true;
                },
            }
        }
        let ghost end = *self;
        self.pop_help();
        proof {
            assert(self.help@ =~= before.help@);
            assert(zero_run(before, *self, buf@, separator, states, us, ts, end));
        }
        let r = Some(buf);
        proof {
            assert(r->Some_0@ == buf@);
            assert(zero_run(before, *self, r->Some_0@, separator, states, us, ts, end));
        }
        r
    }
}

/// Whether `tok` is one of `toks`.
pub fn contains_token(toks: &Vec<Token>, tok: Token) -> (r: bool)
    ensures
        r == toks@.contains(tok),
{
    let mut i: usize = 0;
    while i < toks.len()
        invariant
            i <= toks@.len(),
            forall|j: int| 0 <= j < i ==> toks@[j] != tok,
        decreases toks@.len() - i,
    {
        if toks[i] == tok {
            assert(toks@[i as int] == tok);
            return true;
        }
        i += 1;
    }
    false
}

impl SpannedItem<ParseError> {
    /// A copy of a reported parse error.
    pub fn copy_error(&self) -> (r: SpannedItem<ParseError>)
        ensures
            r.0@ == self.0@,
            r.1 == self.1,
    {
        SpannedItem(self.0.copy(), self.1)
    }
}

} // verus!
