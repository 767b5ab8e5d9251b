//! Tokens, and the scanner that produces them.

use super::scanner::{
    blank_run, lemma_next_token_progress, lemma_steps_consume, lemma_tokens_ordered, line_run,
    ordered, percent_rule, stops_text, text_run, Percent, Scanner,
};
use super::span::{Position, Span};
use super::text::{chars_of, is_exec_key};
use super::State;
use vstd::prelude::*;

verus! {

/// What a token is.
#[derive(PartialEq, Eq, Clone, Debug)]
pub enum TokenKind {
    /// A run of text: a key, a heading, a locale, or a piece of a value.
    Text(String),
    LeftBracket,
    RightBracket,
    Equal,
    Semicolon,
    /// A `%` in an `Exec` value together with the character after it.
    Argument(char),
}

/// A token kind with its text as a sequence of characters.
pub enum TokenKindView {
    Text(Seq<char>),
    LeftBracket,
    RightBracket,
    Equal,
    Semicolon,
    Argument(char),
}

impl View for TokenKind {
    type V = TokenKindView;

    open spec fn view(&self) -> TokenKindView {
        match self {
            TokenKind::Text(s) => TokenKindView::Text(s@),
            TokenKind::LeftBracket => TokenKindView::LeftBracket,
            TokenKind::RightBracket => TokenKindView::RightBracket,
            TokenKind::Equal => TokenKindView::Equal,
            TokenKind::Semicolon => TokenKindView::Semicolon,
            TokenKind::Argument(c) => TokenKindView::Argument(*c),
        }
    }
}

/// The kind of a token without what it carries.
#[derive(PartialEq, Eq, Clone, Copy, Debug, Structural)]
pub enum TokenClass {
    Text,
    LeftBracket,
    RightBracket,
    Equal,
    Semicolon,
    Argument,
}

impl TokenKindView {
    /// The kind without what it carries.
    pub open spec fn class(self) -> TokenClass {
        match self {
            TokenKindView::Text(_) => TokenClass::Text,
            TokenKindView::LeftBracket => TokenClass::LeftBracket,
            TokenKindView::RightBracket => TokenClass::RightBracket,
            TokenKindView::Equal => TokenClass::Equal,
            TokenKindView::Semicolon => TokenClass::Semicolon,
            TokenKindView::Argument(_) => TokenClass::Argument,
        }
    }
}

/// A token and the place in the source where it stands.
#[derive(PartialEq, Eq, Clone, Debug)]
pub struct Token {
    pub kind: TokenKind,
    pub span: Span,
}

/// A token with its text as a sequence of characters.
pub struct TokenView {
    pub kind: TokenKindView,
    pub span: Span,
}

impl View for Token {
    type V = TokenView;

    open spec fn view(&self) -> TokenView {
        TokenView { kind: self.kind@, span: self.span }
    }
}

impl DeepView for Token {
    type V = TokenView;

    open spec fn deep_view(&self) -> TokenView {
        self@
    }
}

/// The text of a token, which is empty for all but text tokens.
pub open spec fn text_of(t: TokenView) -> Seq<char> {
    match t.kind {
        TokenKindView::Text(s) => s,
        _ => Seq::empty(),
    }
}

impl Token {
    /// The text of the token, which is empty for all but text tokens.
    pub fn text(&self) -> (r: String)
        ensures
            r@ == text_of(self@),
    {
        match &self.kind {
            TokenKind::Text(s) => s.clone(),
            _ => String::new(),
        }
    }

    /// A token one character wide that starts at `pos`.
    pub fn new(kind: TokenKind, pos: Position) -> (r: Token)
        requires
            pos.can_forward(1),
        ensures
            r@ == (TokenView { kind: kind@, span: Span { start: pos, end: pos.forward(1) } }),
            r.span.wf(),
    {
        Token { kind, span: Span::new(pos, pos + 1) }
    }

    /// A token that covers `span`.
    pub fn new_with_span(kind: TokenKind, span: Span) -> (r: Token)
        ensures
            r@ == (TokenView { kind: kind@, span }),
    {
        Token { kind, span }
    }

    /// The kind of the token without what it carries.
    pub fn class(&self) -> (r: TokenClass)
        ensures
            r == self@.kind.class(),
    {
        match self.kind {
            TokenKind::Text(_) => TokenClass::Text,
            TokenKind::LeftBracket => TokenClass::LeftBracket,
            TokenKind::RightBracket => TokenClass::RightBracket,
            TokenKind::Equal => TokenClass::Equal,
            TokenKind::Semicolon => TokenClass::Semicolon,
            TokenKind::Argument(_) => TokenClass::Argument,
        }
    }

    /// Whether the token is a run of text.
    pub fn is_text(&self) -> (r: bool)
        ensures
            r == (self@.kind is Text),
    {
        match self.kind {
            TokenKind::Text(..) => true,
            _ => false,
        }
    }

    /// Whether the token is a `[`.
    pub fn is_left_bracket(&self) -> (r: bool)
        ensures
            r == (self@.kind is LeftBracket),
    {
        match self.kind {
            TokenKind::LeftBracket => true,
            _ => false,
        }
    }

    /// Whether the token is a `]`.
    pub fn is_right_bracket(&self) -> (r: bool)
        ensures
            r == (self@.kind is RightBracket),
    {
        match self.kind {
            TokenKind::RightBracket => true,
            _ => false,
        }
    }

    /// Whether the token is an `=`.
    pub fn is_equal(&self) -> (r: bool)
        ensures
            r == (self@.kind is Equal),
    {
        match self.kind {
            TokenKind::Equal => true,
            _ => false,
        }
    }

    /// Whether the token is a `;`.
    pub fn is_semicolon(&self) -> (r: bool)
        ensures
            r == (self@.kind is Semicolon),
    {
        match self.kind {
            TokenKind::Semicolon => true,
            _ => false,
        }
    }

    /// Whether the token is an argument.
    pub fn is_argument(&self) -> (r: bool)
        ensures
            r == (self@.kind is Argument),
    {
        match self.kind {
            TokenKind::Argument(..) => true,
            _ => false,
        }
    }
}

/// The characters of a text with a cursor in them. A character that was
/// taken can be put back, and is then the next one again.
pub struct TokenData {
    data: Vec<char>,
    next: usize,
    pos: Position,
    back_data: Vec<char>,
}

impl TokenData {
    /// The characters that have not been taken yet, the next one first.
    pub closed spec fn rest(&self) -> Seq<char> {
        self.back_data@.reverse() + self.data@.skip(self.next as int)
    }

    /// Where the next character stands.
    pub closed spec fn position(&self) -> Position {
        self.pos
    }

    /// The cursor lies within the text.
    pub closed spec fn inv(&self) -> bool {
        self.next <= self.data.len()
    }

    /// The position can be moved over all that is left without leaving
    /// `u32`, and every line before this one took at least one character.
    pub open spec fn wf(&self) -> bool {
        &&& self.inv()
        &&& self.position().row + self.position().col <= self.position().byte
        &&& self.position().byte + self.rest().len() <= u32::MAX
    }

    /// A cursor at the start of `data`.
    pub fn new(data: &str) -> (r: TokenData)
        requires
            data@.len() <= u32::MAX,
        ensures
            r.wf(),
            r.rest() == data@,
            r.position() == (Position { row: 0, col: 0, byte: 0 }),
    {
        TokenData { data: chars_of(data), next: 0, pos: Position::new(), back_data: Vec::new() }
    }

    /// Where the next character stands.
    pub fn pos(&self) -> (r: Position)
        ensures
            r == self.position(),
    {
        self.pos
    }

    /// Takes the next character, if there is one, and moves one forward.
    pub fn next(&mut self) -> (c: Option<char>)
        requires
            old(self).wf(),
        ensures
            final(self).wf(),
            old(self).rest().len() == 0 ==> c is None && final(self).rest() == old(self).rest()
                && final(self).position() == old(self).position(),
            old(self).rest().len() > 0 ==> c == Some(old(self).rest()[0]) && final(self).rest()
                == old(self).rest().skip(1) && final(self).position() == old(
                self,
            ).position().forward(1),
    {
        let c = if self.back_data.len() > 0 {
            self.back_data.pop()
        } else if self.next < self.data.len() {
            let c = self.data[self.next];
            self.next += 1;
            Some(c)
        } else {
            None
        };
        if c.is_some() {
            self.pos.advance();
        }
        c
    }

    /// The next character, if there is one, without taking it.
    pub fn peek(&self) -> (c: Option<char>)
        requires
            self.wf(),
        ensures
            self.rest().len() == 0 ==> c is None,
            self.rest().len() > 0 ==> c == Some(self.rest()[0]),
    {
        if self.back_data.len() > 0 {
            Some(self.back_data[self.back_data.len() - 1])
        } else if self.next < self.data.len() {
            Some(self.data[self.next])
        } else {
            None
        }
    }

    /// Puts `c` back in front of what is left and moves one back.
    pub fn push(&mut self, c: char)
        requires
            old(self).wf(),
            old(self).position().col > 0,
        ensures
            final(self).wf(),
            final(self).rest() == seq![c] + old(self).rest(),
            final(self).position() == old(self).position().backward(1),
    {
        self.pos.sub_assign(1);
        self.back_data.push(c);
    }
}

/// The scanner: it turns the text into tokens, one at each call of
/// [`Tokens::next_token`].
pub struct Tokens {
    data: TokenData,
    state: State,
    buf: String,
}

impl View for Tokens {
    type V = Scanner;

    closed spec fn view(&self) -> Scanner {
        Scanner {
            state: self.state,
            buf: self.buf@,
            rest: self.data.rest(),
            pos: self.data.position(),
        }
    }
}

impl Tokens {
    /// The cursor lies within the text.
    pub closed spec fn inv(&self) -> bool {
        self.data.inv()
    }

    /// The scanner is well formed: see [`Scanner::wf`].
    pub open spec fn wf(&self) -> bool {
        self.inv() && self@.wf()
    }

    /// A scanner at the start of `data`, ready for a key.
    pub fn new(data: &str) -> (r: Tokens)
        requires
            data@.len() <= u32::MAX,
        ensures
            r.wf(),
            r@ == Scanner::start(data@),
    {
        Tokens { data: TokenData::new(data), state: State::ReadKey, buf: String::new() }
    }

    /// What the scanner is reading.
    pub fn state(&self) -> (r: State)
        ensures
            r == self@.state,
    {
        self.state
    }

    /// Makes the scanner read as `state` says.
    pub fn set_state(&mut self, state: State)
        ensures
            final(self)@ == old(self)@.enter(state),
            old(self).wf() ==> final(self).wf(),
    {
        self.state = state;
    }

    /// Where the next character stands.
    pub fn pos(&self) -> (r: Position)
        ensures
            r == self@.pos,
    {
        self.data.pos()
    }

    /// The run of text that was read last.
    pub fn buf(&self) -> (r: &str)
        ensures
            r@ == self@.buf,
    {
        self.buf.as_str()
    }

    /// Passes over the blanks that the scanner stands at.
    pub fn skip_whitespace(&mut self)
        requires
            old(self).wf(),
        ensures
            final(self).wf(),
            final(self)@ == old(self)@.skip_whitespace(),
    {
        let ghost mut k: int = 0;
        loop
            invariant
                self.wf(),
                old(self)@.wf(),
                0 <= k <= old(self)@.rest.len(),
                self@.state == old(self)@.state,
                self@.buf == old(self)@.buf,
                self@.rest == old(self)@.rest.skip(k),
                self@.pos == old(self)@.pos.forward(k),
                k + blank_run(self@.rest) == blank_run(old(self)@.rest),
            decreases self@.rest.len(),
        {
            match self.data.next() {
                Some(c) => {
                    if c == ' ' || c == '\t' {
                        proof {
                            k = k + 1;
                        }
                    } else {
                        self.data.push(c);
                        assert(seq![c] + old(self)@.rest.skip(k).skip(1) =~= old(self)@.rest.skip(
                            k,
                        ));
                        return ;
                    }
                },
                None => {
                    return ;
                },
            }
        }
    }

    /// Passes over the line break that the scanner stands at, if it stands
    /// at one, on to the next line.
    pub fn advance_line(&mut self)
        requires
            old(self).wf(),
        ensures
            final(self).wf(),
            final(self)@ == old(self)@.advance_line(),
    {
        let ghost rest = self@.rest;
        match self.data.next() {
            Some(c) => {
                if c == '\n' {
                } else if c == '\r' {
                    match self.data.next() {
                        Some(d) => {
                            if d != '\n' {
                                self.data.push(d);
                                assert(seq![d] + rest.skip(1).skip(1) =~= rest.skip(1));
                            } else {
                                assert(rest.skip(1).skip(1) =~= rest.skip(2));
                            }
                        },
                        None => {},
                    }
                } else {
                    self.data.push(c);
                    assert(seq![c] + rest.skip(1) =~= rest);
                    return ;
                }
            },
            None => {
                return ;
            },
        }
        self.data.pos.newline();
        self.state = State::ReadKey;
    }

    /// Passes over the rest of the line and the line break that ends it.
    pub fn skip_comment(&mut self)
        requires
            old(self).wf(),
        ensures
            final(self).wf(),
            final(self)@ == old(self)@.skip_comment(),
    {
        let ghost mut k: int = 0;
        loop
            invariant
                self.wf(),
                old(self)@.wf(),
                0 <= k <= old(self)@.rest.len(),
                self@.state == old(self)@.state,
                self@.buf == old(self)@.buf,
                self@.rest == old(self)@.rest.skip(k),
                self@.pos == old(self)@.pos.forward(k),
                k + line_run(self@.rest) == line_run(old(self)@.rest),
            decreases self@.rest.len(),
        {
            match self.data.next() {
                Some(c) => {
                    if c == '\n' || c == '\r' {
                        self.data.push(c);
                        assert(seq![c] + old(self)@.rest.skip(k).skip(1) =~= old(self)@.rest.skip(
                            k,
                        ));
                        self.advance_line();
                        return ;
                    } else {
                        proof {
                            k = k + 1;
                        }
                    }
                },
                None => {
                    return ;
                },
            }
        }
    }

    /// Whether a run of text read in `state` stops before `c`.
    fn ends_text(state: State, c: char) -> (r: bool)
        ensures
            r == stops_text(state, c),
    {
        c == '\n' || c == '\r' || c == '#' || match state {
            State::ReadKey => c == '[' || c == ']' || c == '=',
            State::ReadHeader => c == ']',
            State::ReadValue => c == ';',
            State::ReadExec => false,
        }
    }

    /// What becomes of a `%` in the text of a command line, given the
    /// character after it and whether that character is a letter.
    pub fn percent(following: Option<char>, letter: bool) -> (r: Percent)
        ensures
            r == percent_rule(following, letter),
    {
        match following {
            Some(c) => {
                if letter {
                    Percent::Placeholder
                } else if c == '\n' || c == '\r' || c == '#' {
                    Percent::Last
                } else {
                    Percent::Pair
                }
            },
            None => Percent::Last,
        }
    }

    /// Reads the run of text that the scanner stands at into the buffer.
    /// The run may be empty.
    pub fn read_text(&mut self)
        requires
            old(self).wf(),
        ensures
            final(self).wf(),
            final(self)@ == old(self)@.read_text(),
    {
        self.buf.clear();
        let ghost mut k: int = 0;
        loop
            invariant
                self.wf(),
                old(self)@.wf(),
                0 <= k <= old(self)@.rest.len(),
                self@.state == old(self)@.state,
                self@.buf == old(self)@.rest.take(k),
                self@.rest == old(self)@.rest.skip(k),
                self@.pos == old(self)@.pos.forward(k),
                k + text_run(self@.state, self@.rest) == text_run(
                    old(self)@.state,
                    old(self)@.rest,
                ),
            decreases self@.rest.len(),
        {
            let ghost rest = self@.rest;
            match self.data.peek() {
                None => {
                    return ;
                },
                Some(c) => {
                    if Self::ends_text(self.state, c) {
                        return ;
                    }
                    self.data.next();
                    if self.state == State::ReadExec && c == '%' {
                        let following = self.data.peek();
                        let letter = match following {
                            Some(a) => a.is_alphabetic(),
                            None => false,
                        };
                        match Self::percent(following, letter) {
                            Percent::Placeholder => {
                                self.data.push('%');
                                assert(seq!['%'] + rest.skip(1) =~= rest);
                                return ;
                            },
                            Percent::Pair => {
                                self.buf.push('%');
                                if let Some(a) = self.data.next() {
                                    self.buf.push(a);
                                }
                                proof {
                                    assert(old(self)@.rest.skip(k).skip(2) =~= old(
                                        self,
                                    )@.rest.skip(k + 2));
                                    k = k + 2;
                                }
                            },
                            Percent::Last => {
                                self.buf.push('%');
                                proof {
                                    k = k + 1;
                                }
                            },
                        }
                    } else {
                        self.buf.push(c);
                        proof {
                            k = k + 1;
                        }
                    }
                },
            }
        }
    }

    /// The next token, or nothing where the text holds no more. Blanks
    /// outside of a command line, comments and line breaks are passed over
    /// on the way.
    pub fn next_token(&mut self) -> (r: Option<Token>)
        requires
            old(self).wf(),
        ensures
            final(self).wf(),
            r.deep_view() == old(self)@.next_token().0,
            final(self)@ == old(self)@.next_token().1,
    {
        loop
            invariant
                self.wf(),
                self@.next_token() == old(self)@.next_token(),
            decreases self@.rest.len(),
        {
            proof {
                lemma_steps_consume(self@);
            }
            let start = self.data.pos();
            match self.data.peek() {
                None => {
                    return None;
                },
                Some(c) => {
                    if (c == ' ' || c == '\t') && self.state != State::ReadExec {
                        self.skip_whitespace();
                    } else if c == '#' {
                        self.skip_comment();
                    } else if c == '\n' || c == '\r' {
                        self.advance_line();
                    } else if c == '[' && self.state == State::ReadKey {
                        self.data.next();
                        self.state = State::ReadHeader;
                        return Some(Token::new(TokenKind::LeftBracket, start));
                    } else if c == ']' && (self.state == State::ReadHeader || self.state
                        == State::ReadKey) {
                        self.data.next();
                        self.state = State::ReadKey;
                        return Some(Token::new(TokenKind::RightBracket, start));
                    } else if c == '=' && self.state == State::ReadKey {
                        self.data.next();
                        self.state = if is_exec_key(self.buf.as_str()) {
                            State::ReadExec
                        } else {
                            State::ReadValue
                        };
                        return Some(Token::new(TokenKind::Equal, start));
                    } else if c == ';' && self.state == State::ReadValue {
                        self.data.next();
                        return Some(Token::new(TokenKind::Semicolon, start));
                    } else if c == '%' && self.state == State::ReadExec {
                        let ghost rest = self@.rest;
                        self.data.next();
                        let kind = match self.data.next() {
                            Some(arg) => TokenKind::Argument(arg),
                            None => TokenKind::Argument('\0'),
                        };
                        assert(rest.len() >= 2 ==> rest.skip(1).skip(1) =~= rest.skip(2));
                        let span = Span::new(start, self.data.pos());
                        return Some(Token::new_with_span(kind, span));
                    } else {
                        self.read_text();
                        let span = Span::new(start, self.data.pos());
                        let kind = TokenKind::Text(self.buf.clone());
                        return Some(Token::new_with_span(kind, span));
                    }
                },
            }
        }
    }

    /// All the tokens from here to the end of the text. They follow one
    /// another in the text.
    pub fn drain(&mut self) -> (r: Vec<Token>)
        requires
            old(self).wf(),
        ensures
            final(self).wf(),
            r.deep_view() == old(self)@.tokens(),
            ordered(r.deep_view()),
            final(self)@.rest.len() == 0,
    {
        proof {
            lemma_tokens_ordered(self@);
        }
        let mut found: Vec<Token> = Vec::new();
        loop
            invariant
                self.wf(),
                found.deep_view() + self@.tokens() == old(self)@.tokens(),
            ensures
                self.wf(),
                found.deep_view() == old(self)@.tokens(),
                self@.rest.len() == 0,
            decreases self@.rest.len(),
        {
            proof {
                lemma_next_token_progress(self@);
            }
            match self.next_token() {
                Some(t) => {
                    found.push(t);
                },
                None => {
                    break ;
                },
            }
        }
        found
    }
}

} // verus!
