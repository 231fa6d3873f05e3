//! The tokenizer: one cursor, classified one lexeme at a time.

use crate::source::Source;
use crate::source::SourceView;
use vstd::prelude::*;

verus! {

/// A classified lexeme.
#[derive(Debug, PartialEq, Eq)]
pub enum Token {
    Lambda,
    Dot,
    Lparen,
    Rparen,
    Equals,
    Identifier(String),
    Eof,
}

/// A token as a mathematical value: an identifier carries its characters.
pub enum TokenView {
    Lambda,
    Dot,
    Lparen,
    Rparen,
    Equals,
    Identifier(Seq<char>),
    Eof,
}

impl View for Token {
    type V = TokenView;

    open spec fn view(&self) -> TokenView {
        match self {
            Token::Lambda => TokenView::Lambda,
            Token::Dot => TokenView::Dot,
            Token::Lparen => TokenView::Lparen,
            Token::Rparen => TokenView::Rparen,
            Token::Equals => TokenView::Equals,
            Token::Identifier(name) => TokenView::Identifier(name@),
            Token::Eof => TokenView::Eof,
        }
    }
}

/// The four characters that separate tokens and produce none.
pub open spec fn blank(c: char) -> bool {
    c == ' ' || c == '\r' || c == '\n' || c == '\t'
}

/// The token of a one-character symbol, if `c` is one of the five.
pub open spec fn symbol(c: char) -> Option<TokenView> {
    if c == '\\' {
        Some(TokenView::Lambda)
    } else if c == '.' {
        Some(TokenView::Dot)
    } else if c == '(' {
        Some(TokenView::Lparen)
    } else if c == ')' {
        Some(TokenView::Rparen)
    } else if c == '=' {
        Some(TokenView::Equals)
    } else {
        None
    }
}

/// An identifier may begin with any character that is neither a symbol nor
/// a blank: punctuation and characters outside ASCII included.
pub open spec fn identifier_start(c: char) -> bool {
    symbol(c) is None && !blank(c)
}

/// An identifier goes on only over ASCII letters and digits.
pub open spec fn identifier_continue(c: char) -> bool {
    ('a' <= c && c <= 'z') || ('A' <= c && c <= 'Z') || ('0' <= c && c <= '9')
}

/// The first position at or after `pos` that holds no identifier
/// continuation character, or the length of `text` if there is none.
pub open spec fn identifier_end(text: Seq<char>, pos: nat) -> nat
    decreases text.len() - pos,
{
    if pos < text.len() && identifier_continue(text[pos as int]) {
        identifier_end(text, pos + 1)
    } else {
        pos
    }
}

/// The first position at or after `pos` that holds no blank, or the length
/// of `text` if there is none.
pub open spec fn blank_end(text: Seq<char>, pos: nat) -> nat
    decreases text.len() - pos,
{
    if pos < text.len() && blank(text[pos as int]) {
        blank_end(text, pos + 1)
    } else {
        pos
    }
}

/// The cursor after one classification step. The lexeme begins at the old
/// read position; a symbol or a blank takes one character, an identifier
/// its first character and every continuation character after it.
pub open spec fn scan_state(v: SourceView) -> SourceView {
    if v.finished() {
        v.restarted()
    } else if identifier_start(v.text[v.current as int]) {
        SourceView { text: v.text, start: v.current, current: identifier_end(v.text, v.current + 1) }
    } else {
        SourceView { text: v.text, start: v.current, current: v.current + 1 }
    }
}

/// What one classification step yields: nothing at the end of the text and
/// nothing for a blank, else the token of the lexeme.
pub open spec fn scan_result(v: SourceView) -> Option<TokenView> {
    if v.finished() {
        None
    } else if identifier_start(v.text[v.current as int]) {
        Some(TokenView::Identifier(scan_state(v).lexeme()))
    } else {
        symbol(v.text[v.current as int])
    }
}

/// The cursor with every blank at the read position passed over.
pub open spec fn past_blanks(v: SourceView) -> SourceView {
    SourceView { current: blank_end(v.text, v.current), ..v }
}

/// The cursor after the next token has been taken.
pub open spec fn token_state(v: SourceView) -> SourceView {
    scan_state(past_blanks(v))
}

/// The next token: blanks are passed over, and the end of the text is a
/// token of its own.
pub open spec fn token_result(v: SourceView) -> TokenView {
    match scan_result(past_blanks(v)) {
        Some(token) => token,
        None => TokenView::Eof,
    }
}

/// An identifier ends where its continuation characters end: every
/// character from `pos` up to `identifier_end` continues an identifier, and
/// the character at `identifier_end`, if there is one, does not.
pub proof fn lemma_identifier_end(text: Seq<char>, pos: nat)
    requires
        pos <= text.len(),
    ensures
        pos <= identifier_end(text, pos) <= text.len(),
        forall|i: int| pos <= i < identifier_end(text, pos) ==> identifier_continue(#[trigger] text[i]),
        identifier_end(text, pos) < text.len() ==> !identifier_continue(
            text[identifier_end(text, pos) as int],
        ),
    decreases text.len() - pos,
{
    if pos < text.len() && identifier_continue(text[pos as int]) {
        lemma_identifier_end(text, pos + 1);
    }
}

/// Only one position ends an identifier: the first at or after `pos` that
/// holds no continuation character.
pub proof fn lemma_identifier_end_is(text: Seq<char>, pos: nat, end: nat)
    requires
        pos <= end <= text.len(),
        forall|i: int| pos <= i < end ==> identifier_continue(#[trigger] text[i]),
        end < text.len() ==> !identifier_continue(text[end as int]),
    ensures
        identifier_end(text, pos) == end,
    decreases end - pos,
{
    if pos < end {
        lemma_identifier_end_is(text, pos + 1, end);
    }
}

/// Blanks end at the first character that is none: every character from
/// `pos` up to `blank_end` is a blank, and the character at `blank_end`, if
/// there is one, is not.
pub proof fn lemma_blank_end(text: Seq<char>, pos: nat)
    requires
        pos <= text.len(),
    ensures
        pos <= blank_end(text, pos) <= text.len(),
        forall|i: int| pos <= i < blank_end(text, pos) ==> blank(#[trigger] text[i]),
        blank_end(text, pos) < text.len() ==> !blank(text[blank_end(text, pos) as int]),
    decreases text.len() - pos,
{
    if pos < text.len() && blank(text[pos as int]) {
        lemma_blank_end(text, pos + 1);
    }
}

/// Only one position ends a run of blanks: the first at or after `pos`
/// that holds no blank.
pub proof fn lemma_blank_end_is(text: Seq<char>, pos: nat, end: nat)
    requires
        pos <= end <= text.len(),
        forall|i: int| pos <= i < end ==> blank(#[trigger] text[i]),
        end < text.len() ==> !blank(text[end as int]),
    ensures
        blank_end(text, pos) == end,
    decreases end - pos,
{
    if pos < end {
        lemma_blank_end_is(text, pos + 1, end);
    }
}

/// Taking a token keeps the cursor well formed and never moves it back; a
/// token other than the end of the text has a lexeme of at least one
/// character, which begins where the blanks before it end.
pub proof fn lemma_token_progress(v: SourceView)
    requires
        v.wf(),
    ensures
        token_state(v).wf(),
        token_state(v).text == v.text,
        token_state(v).start == blank_end(v.text, v.current),
        v.current <= token_state(v).start,
        token_result(v) is Eof <==> token_state(v).start == v.text.len(),
        !(token_result(v) is Eof) ==> token_state(v).start < token_state(v).current,
{
    lemma_blank_end(v.text, v.current);
    let p = past_blanks(v);
    if !p.finished() {
        lemma_identifier_end(v.text, p.current + 1);
    }
}

/// The end of the text is final: once it has been returned, the cursor is
/// finished and stays where it is, and every later token is the end of the
/// text again.
pub proof fn lemma_eof_repeats(v: SourceView)
    requires
        v.wf(),
        token_result(v) is Eof,
    ensures
        token_state(v).finished(),
        token_result(token_state(v)) is Eof,
        token_state(token_state(v)) == token_state(v),
{
    lemma_token_progress(v);
}

/// A text that is one of the five symbols and nothing else yields that
/// symbol's token once, and the end of the text from then on.
pub proof fn lemma_single_symbol(c: char)
    requires
        symbol(c) is Some,
    ensures
        token_result(SourceView::fresh(seq![c])) == symbol(c)->0,
        token_state(SourceView::fresh(seq![c])).finished(),
        token_result(token_state(SourceView::fresh(seq![c]))) is Eof,
{
    let v = SourceView::fresh(seq![c]);
    assert(v.text[0] == c);
    assert(blank_end(v.text, 0) == 0);
    assert(blank_end(v.text, 1) == 1);
}

/// A text of one or more ASCII letters and digits, and nothing else, is one
/// identifier: its first token carries the whole text.
pub proof fn lemma_alphanumeric_text(text: Seq<char>)
    requires
        text.len() > 0,
        forall|i: int| 0 <= i < text.len() ==> identifier_continue(#[trigger] text[i]),
    ensures
        token_result(SourceView::fresh(text)) == TokenView::Identifier(text),
        token_state(SourceView::fresh(text)) == (SourceView {
            text,
            start: 0,
            current: text.len(),
        }),
{
    let v = SourceView::fresh(text);
    assert(identifier_continue(text[0]));
    assert(blank_end(text, 0) == 0);
    lemma_identifier_end_is(text, 1, text.len());
    assert(text.subrange(0, text.len() as int) =~= text);
}

/// Blanks before a text change nothing but positions: the first token of
/// `blanks + rest` is the first token of `rest`, and its lexeme lies
/// `blanks.len()` characters further on.
pub proof fn lemma_leading_blanks(blanks: Seq<char>, rest: Seq<char>)
    requires
        forall|i: int| 0 <= i < blanks.len() ==> blank(#[trigger] blanks[i]),
    ensures
        token_result(SourceView::fresh(blanks + rest)) == token_result(SourceView::fresh(rest)),
        token_state(SourceView::fresh(blanks + rest)).start == blanks.len() + token_state(
            SourceView::fresh(rest),
        ).start,
        token_state(SourceView::fresh(blanks + rest)).current == blanks.len() + token_state(
            SourceView::fresh(rest),
        ).current,
{
    let text = blanks + rest;
    let n = blanks.len();
    let b = blank_end(rest, 0);
    lemma_blank_end(rest, 0);
    assert forall|i: int| 0 <= i < n + b implies blank(#[trigger] text[i]) by {
        if i < n {
            assert(text[i] == blanks[i]);
        } else {
            assert(text[i] == rest[i - n]);
        }
    }
    if b < rest.len() {
        assert(text[(n + b) as int] == rest[b as int]);
    }
    lemma_blank_end_is(text, 0, n + b);
    if b < rest.len() {
        let e = identifier_end(rest, b + 1);
        lemma_identifier_end(rest, b + 1);
        assert forall|i: int| n + b + 1 <= i < n + e implies identifier_continue(
            #[trigger] text[i],
        ) by {
            assert(text[i] == rest[i - n]);
        }
        if e < rest.len() {
            assert(text[(n + e) as int] == rest[e as int]);
        }
        lemma_identifier_end_is(text, n + b + 1, n + e);
        assert(text.subrange((n + b) as int, (n + e) as int) =~= rest.subrange(b as int, e as int));
    }
}

/// Whether `c` is one of the four blanks.
pub fn is_blank(c: char) -> (b: bool)
    ensures
        b == blank(c),
{
    c == ' ' || c == '\r' || c == '\n' || c == '\t'
}

/// Whether an identifier may begin with `c`.
pub fn is_identifier_start(c: char) -> (b: bool)
    ensures
        b == identifier_start(c),
{
    !(c == '\\' || c == '.' || c == '(' || c == ')' || c == '=' || is_blank(c))
}

/// Whether an identifier may go on with `c`.
pub fn is_identifier_continue(c: char) -> (b: bool)
    ensures
        b == identifier_continue(c),
{
    ('a' <= c && c <= 'z') || ('A' <= c && c <= 'Z') || ('0' <= c && c <= '9')
}

/// A tokenizer: it owns one cursor and keeps nothing else.
pub struct Lexer {
    source: Source,
}

impl View for Lexer {
    type V = SourceView;

    closed spec fn view(&self) -> SourceView {
        self.source@
    }
}

impl Lexer {
    /// A tokenizer that reads on from where `source` stands.
    pub fn new(source: Source) -> (lexer: Lexer)
        ensures
            lexer@ == source@,
    {
        Lexer { source }
    }

    /// The next token. Blanks before it are passed over; once the text is
    /// used up, every call yields `Token::Eof`.
    pub fn get_token(&mut self) -> (token: Token)
        ensures
            token@ == token_result(old(self)@),
            final(self)@ == token_state(old(self)@),
            old(self)@.wf(),
            final(self)@.wf(),
    {
        proof {
            use_type_invariant(&self.source);
        }
        loop
            invariant
                old(self)@.wf(),
                self@.wf(),
                self@.text == old(self)@.text,
                blank_end(self@.text, self@.current) == blank_end(old(self)@.text, old(self)@.current),
            decreases self@.text.len() - self@.current,
        {
            match self.scan() {
                Some(token) => {
                    return token;
                },
                None => {
                    if self.source.is_finished() {
                        assert(blank_end(self@.text, self@.current) == self@.current);
                        self.source.reset();
                        return Token::Eof;
                    }
                },
            }
        }
    }

    /// One classification step: begins a new lexeme, reads one character
    /// and classifies it. Yields nothing at the end of the text and nothing
    /// for a blank.
    pub fn scan(&mut self) -> (token: Option<Token>)
        ensures
            match token {
                Some(t) => scan_result(old(self)@) == Some(t@),
                None => scan_result(old(self)@) is None,
            },
            final(self)@ == scan_state(old(self)@),
            old(self)@.wf(),
            final(self)@.wf(),
    {
        self.source.reset();
        match self.source.advance() {
            None => None,
            Some(c) => {
                match c {
                    '\\' => Some(Token::Lambda),
                    '.' => Some(Token::Dot),
                    '(' => Some(Token::Lparen),
                    ')' => Some(Token::Rparen),
                    '=' => Some(Token::Equals),
                    _ => {
                        if is_identifier_start(c) {
                            self.identifier()
                        } else {
                            None
                        }
                    },
                }
            },
        }
    }

    /// Reads on to the end of the identifier whose first character has been
    /// read, and yields the whole lexeme.
    fn identifier(&mut self) -> (token: Option<Token>)
        ensures
            final(self)@ == (SourceView {
                current: identifier_end(old(self)@.text, old(self)@.current),
                ..old(self)@
            }),
            token matches Some(t) && t@ == TokenView::Identifier(final(self)@.lexeme()),
            old(self)@.wf(),
            final(self)@.wf(),
    {
        proof {
            use_type_invariant(&self.source);
        }
        loop
            invariant
                old(self)@.wf(),
                self@.wf(),
                self@.text == old(self)@.text,
                self@.start == old(self)@.start,
                identifier_end(self@.text, self@.current) == identifier_end(
                    old(self)@.text,
                    old(self)@.current,
                ),
            ensures
                identifier_end(self@.text, self@.current) == self@.current,
            decreases self@.text.len() - self@.current,
        {
            match self.source.peek() {
                Some(c) if is_identifier_continue(c) => {
                    self.source.advance();
                },
                _ => {
                    break;
                },
            }
        }
        Some(Token::Identifier(self.source.extract().unwrap()))
    }
}

} // verus!
