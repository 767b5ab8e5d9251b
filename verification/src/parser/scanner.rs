//! The scanner as mathematics: what each step of scanning does to the text
//! that is left, to the position and to the state.

use super::span::{Position, Span};
use super::text::{alphabetic, exec_key};
use super::tokens::{TokenKindView, TokenView};
use super::State;
use vstd::prelude::*;

verus! {

/// A space or a tab.
pub open spec fn is_blank(c: char) -> bool {
    c == ' ' || c == '\t'
}

/// A character that ends a line.
pub open spec fn is_line_break(c: char) -> bool {
    c == '\n' || c == '\r'
}

/// How many blanks `s` starts with.
pub open spec fn blank_run(s: Seq<char>) -> nat
    decreases s.len(),
{
    if s.len() > 0 && is_blank(s[0]) {
        1 + blank_run(s.skip(1))
    } else {
        0
    }
}

/// How many characters stand before the first line break of `s`, or in
/// all of `s` if it has none.
pub open spec fn line_run(s: Seq<char>) -> nat
    decreases s.len(),
{
    if s.len() > 0 && !is_line_break(s[0]) {
        1 + line_run(s.skip(1))
    } else {
        0
    }
}

/// How many characters the line break at the start of `s` takes: two for
/// a carriage return with a line feed, one for either alone, none where
/// `s` does not start with a line break.
pub open spec fn line_break_len(s: Seq<char>) -> nat {
    if s.len() == 0 {
        0
    } else if s[0] == '\n' {
        1
    } else if s[0] == '\r' {
        if s.len() >= 2 && s[1] == '\n' {
            2
        } else {
            1
        }
    } else {
        0
    }
}

/// Whether a run of text read in `state` stops before `c`.
pub open spec fn stops_text(state: State, c: char) -> bool {
    is_line_break(c) || c == '#' || match state {
        State::ReadKey => c == '[' || c == ']' || c == '=',
        State::ReadHeader => c == ']',
        State::ReadValue => c == ';',
        State::ReadExec => false,
    }
}

/// What becomes of a `%` in the text of a command line.
#[derive(PartialEq, Eq, Clone, Copy, Debug, Structural)]
pub enum Percent {
    /// It starts a placeholder: the run of text ends before it.
    Placeholder,
    /// It is text, and so is the character after it.
    Pair,
    /// It is text, and the run of text ends after it.
    Last,
}

/// What becomes of a `%` in the text of a command line, given the
/// character after it and whether that character is a letter. Before a
/// letter the `%` starts a placeholder. Any other `%` is text together
/// with the character after it, so that `%%` stays as it is; but a line
/// break or a `#` after it ends the run as it always does.
pub open spec fn percent_rule(following: Option<char>, letter: bool) -> Percent {
    match following {
        Some(c) => if letter {
            Percent::Placeholder
        } else if is_line_break(c) || c == '#' {
            Percent::Last
        } else {
            Percent::Pair
        },
        None => Percent::Last,
    }
}

/// What becomes of the `%` at the start of `s`, which stands in the text
/// of a command line.
pub open spec fn percent_at(s: Seq<char>) -> Percent {
    if s.len() >= 2 {
        percent_rule(Some(s[1]), alphabetic(s[1]))
    } else {
        percent_rule(None, false)
    }
}

/// How many characters the run of text at the start of `s` has when read
/// in `state`.
pub open spec fn text_run(state: State, s: Seq<char>) -> nat
    decreases s.len(),
{
    if s.len() == 0 || stops_text(state, s[0]) {
        0
    } else if state == State::ReadExec && s[0] == '%' {
        match percent_at(s) {
            Percent::Placeholder => 0,
            Percent::Pair => 2 + text_run(state, s.skip(2)),
            Percent::Last => 1,
        }
    } else {
        1 + text_run(state, s.skip(1))
    }
}

/// The leading blanks of `s` are blanks, and they end with the text or
/// before the first character that is none.
pub proof fn lemma_blank_run(s: Seq<char>)
    ensures
        blank_run(s) <= s.len(),
        forall|i: int| 0 <= i < blank_run(s) ==> is_blank(#[trigger] s[i]),
        blank_run(s) < s.len() ==> !is_blank(s[blank_run(s) as int]),
    decreases s.len(),
{
    if s.len() > 0 && is_blank(s[0]) {
        lemma_blank_run(s.skip(1));
        assert forall|i: int| 0 <= i < blank_run(s) implies is_blank(#[trigger] s[i]) by {
            if i > 0 {
                assert(s[i] == s.skip(1)[i - 1]);
            }
        }
    }
}

/// No character before the first line break is a line break, and the run
/// ends at a line break or with the text.
pub proof fn lemma_line_run(s: Seq<char>)
    ensures
        line_run(s) <= s.len(),
        forall|i: int| 0 <= i < line_run(s) ==> !is_line_break(#[trigger] s[i]),
        line_run(s) < s.len() ==> is_line_break(s[line_run(s) as int]),
    decreases s.len(),
{
    if s.len() > 0 && !is_line_break(s[0]) {
        lemma_line_run(s.skip(1));
        assert forall|i: int| 0 <= i < line_run(s) implies !is_line_break(#[trigger] s[i]) by {
            if i > 0 {
                assert(s[i] == s.skip(1)[i - 1]);
            }
        }
    }
}

/// A run of text lies within the text, holds no line break and no `#`,
/// and ends with the text, before a character that stops it, or before a
/// `%` that a letter follows.
pub proof fn lemma_text_run(state: State, s: Seq<char>)
    ensures
        text_run(state, s) <= s.len(),
        forall|i: int|
            0 <= i < text_run(state, s) ==> !is_line_break(#[trigger] s[i]) && s[i] != '#',
        state != State::ReadExec ==> forall|i: int|
            0 <= i < text_run(state, s) ==> !stops_text(state, #[trigger] s[i]),
        text_run(state, s) < s.len() ==> {
            let n = text_run(state, s) as int;
            stops_text(state, s[n]) || (state == State::ReadExec && s[n] == '%' && n + 1 < s.len()
                && alphabetic(s[n + 1]))
        },
    decreases s.len(),
{
    let n = text_run(state, s) as int;
    if s.len() == 0 || stops_text(state, s[0]) {
    } else if state == State::ReadExec && s[0] == '%' {
        if percent_at(s) == Percent::Pair {
            let t = s.skip(2);
            lemma_text_run(state, t);
            assert forall|i: int| 0 <= i < n implies !is_line_break(#[trigger] s[i]) && s[i]
                != '#' by {
                if i >= 2 {
                    assert(s[i] == t[i - 2]);
                }
            }
        }
    } else {
        let t = s.skip(1);
        lemma_text_run(state, t);
        assert forall|i: int| 0 <= i < n implies !is_line_break(#[trigger] s[i]) && s[i]
            != '#' by {
            if i >= 1 {
                assert(s[i] == t[i - 1]);
            }
        }
        if state != State::ReadExec {
            assert forall|i: int| 0 <= i < n implies !stops_text(state, #[trigger] s[i]) by {
                if i >= 1 {
                    assert(s[i] == t[i - 1]);
                }
            }
        }
    }
}

/// A scanner at one moment: the state it is in, the text of the run it
/// read last, the text it has not read yet, and where that text starts.
pub struct Scanner {
    pub state: State,
    pub buf: Seq<char>,
    pub rest: Seq<char>,
    pub pos: Position,
}

impl Scanner {
    /// The position can be moved over all that is left without leaving
    /// `u32`, and every line before this one took at least one character.
    pub open spec fn wf(self) -> bool {
        &&& self.pos.row + self.pos.col <= self.pos.byte
        &&& self.pos.byte + self.rest.len() <= u32::MAX
    }

    /// The scanner at the start of `text`, ready for a key.
    pub open spec fn start(text: Seq<char>) -> Scanner {
        Scanner {
            state: State::ReadKey,
            buf: Seq::empty(),
            rest: text,
            pos: Position { row: 0, col: 0, byte: 0 },
        }
    }

    /// The scanner after it has read `n` characters of the line it is on.
    pub open spec fn consume(self, n: nat) -> Scanner {
        Scanner {
            state: self.state,
            buf: self.buf,
            rest: self.rest.skip(n as int),
            pos: self.pos.forward(n as int),
        }
    }

    /// The same scanner in another state.
    pub open spec fn enter(self, state: State) -> Scanner {
        Scanner { state, buf: self.buf, rest: self.rest, pos: self.pos }
    }

    /// The scanner after the blanks it stands at.
    pub open spec fn skip_whitespace(self) -> Scanner {
        self.consume(blank_run(self.rest))
    }

    /// The scanner after the line break it stands at, on the next line and
    /// ready for a key; the scanner itself where it stands at none.
    pub open spec fn advance_line(self) -> Scanner {
        let n = line_break_len(self.rest);
        if n == 0 {
            self
        } else {
            Scanner {
                state: State::ReadKey,
                buf: self.buf,
                rest: self.rest.skip(n as int),
                pos: self.pos.forward(n as int).next_line(),
            }
        }
    }

    /// The scanner after the rest of the line it is on and the line break
    /// that ends it.
    pub open spec fn skip_comment(self) -> Scanner {
        self.consume(line_run(self.rest)).advance_line()
    }

    /// The scanner after the run of text it stands at, with that run as
    /// its buffer.
    pub open spec fn read_text(self) -> Scanner {
        let n = text_run(self.state, self.rest);
        Scanner {
            state: self.state,
            buf: self.rest.take(n as int),
            rest: self.rest.skip(n as int),
            pos: self.pos.forward(n as int),
        }
    }

    /// The token of `kind` that covers the next `n` characters.
    pub open spec fn token(self, kind: TokenKindView, n: nat) -> TokenView {
        TokenView { kind, span: Span { start: self.pos, end: self.pos.forward(n as int) } }
    }

    /// The state that an `=` after a key leads to: that of a command line
    /// where the text read last is `Exec`, that of a plain value otherwise.
    pub open spec fn value_state(self) -> State {
        if self.buf == exec_key() {
            State::ReadExec
        } else {
            State::ReadValue
        }
    }

    /// The next token, if the text holds one more, and the scanner after it.
    /// Blanks outside of a command line, comments and line breaks are passed
    /// over; a line break leaves the scanner ready for a key.
    pub open spec fn next_token(self) -> (Option<TokenView>, Scanner)
        decreases self.rest.len(),
    {
        if self.rest.len() == 0 {
            (None, self)
        } else {
            let c = self.rest[0];
            if is_blank(c) && self.state != State::ReadExec {
                proof {
                    lemma_blank_run(self.rest);
                }
                self.skip_whitespace().next_token()
            } else if c == '#' {
                proof {
                    lemma_line_run(self.rest);
                }
                self.skip_comment().next_token()
            } else if is_line_break(c) {
                self.advance_line().next_token()
            } else if c == '[' && self.state == State::ReadKey {
                (
                    Some(self.token(TokenKindView::LeftBracket, 1)),
                    self.consume(1).enter(State::ReadHeader),
                )
            } else if c == ']' && (self.state == State::ReadHeader || self.state
                == State::ReadKey) {
                (
                    Some(self.token(TokenKindView::RightBracket, 1)),
                    self.consume(1).enter(State::ReadKey),
                )
            } else if c == '=' && self.state == State::ReadKey {
                (
                    Some(self.token(TokenKindView::Equal, 1)),
                    self.consume(1).enter(self.value_state()),
                )
            } else if c == ';' && self.state == State::ReadValue {
                (Some(self.token(TokenKindView::Semicolon, 1)), self.consume(1))
            } else if c == '%' && self.state == State::ReadExec {
                if self.rest.len() >= 2 {
                    (Some(self.token(TokenKindView::Argument(self.rest[1]), 2)), self.consume(2))
                } else {
                    (Some(self.token(TokenKindView::Argument('\0'), 1)), self.consume(1))
                }
            } else {
                let after = self.read_text();
                (
                    Some(
                        self.token(TokenKindView::Text(after.buf), text_run(self.state, self.rest)),
                    ),
                    after,
                )
            }
        }
    }

    /// All the tokens from here to the end of the text, in order.
    pub open spec fn tokens(self) -> Seq<TokenView>
        decreases self.rest.len(),
    {
        let (token, after) = self.next_token();
        match token {
            Some(t) => {
                proof {
                    lemma_next_token_progress(self);
                }
                seq![t] + after.tokens()
            },
            None => Seq::empty(),
        }
    }
}

/// The tokens of `text`.
pub open spec fn scan(text: Seq<char>) -> Seq<TokenView> {
    Scanner::start(text).tokens()
}

/// Each step of scanning shortens the text by the characters it takes.
pub proof fn lemma_steps_consume(s: Scanner)
    ensures
        s.skip_whitespace().rest.len() == s.rest.len() - blank_run(s.rest),
        s.advance_line().rest.len() == s.rest.len() - line_break_len(s.rest),
        s.skip_comment().rest.len() <= s.rest.len() - line_run(s.rest),
        s.read_text().rest.len() == s.rest.len() - text_run(s.state, s.rest),
{
    lemma_blank_run(s.rest);
    lemma_line_run(s.rest);
    lemma_text_run(s.state, s.rest);
}

/// A token takes at least one character, and without a token nothing is
/// left of the text.
pub proof fn lemma_next_token_progress(s: Scanner)
    ensures
        s.next_token().0 is Some ==> s.next_token().1.rest.len() < s.rest.len(),
        s.next_token().0 is None ==> s.next_token().1.rest.len() == 0,
        s.next_token().1.rest.len() <= s.rest.len(),
    decreases s.rest.len(),
{
    lemma_steps_consume(s);
    if s.rest.len() > 0 {
        let c = s.rest[0];
        if is_blank(c) && s.state != State::ReadExec {
            lemma_next_token_progress(s.skip_whitespace());
        } else if c == '#' {
            lemma_next_token_progress(s.skip_comment());
        } else if is_line_break(c) {
            lemma_next_token_progress(s.advance_line());
        }
    }
}

/// No step of scanning goes back in the text or breaks what position and
/// text owe each other.
pub proof fn lemma_steps_forward(s: Scanner)
    requires
        s.wf(),
    ensures
        s.skip_whitespace().wf() && s.pos.not_after(s.skip_whitespace().pos),
        s.advance_line().wf() && s.pos.not_after(s.advance_line().pos),
        s.skip_comment().wf() && s.pos.not_after(s.skip_comment().pos),
        s.read_text().wf() && s.pos.not_after(s.read_text().pos),
        s.read_text().pos.row == s.pos.row,
{
    lemma_steps_consume(s);
    lemma_line_run(s.rest);
}

/// The span of a token is not inverted and lies on one line; it starts at
/// or after the place the scanner was at and ends where the scanner is
/// after it. It is as many characters wide as the token took, which is at
/// least one, and which for a text is the length of the text. The scanner
/// never goes back.
pub proof fn lemma_next_token_span(s: Scanner)
    requires
        s.wf(),
    ensures
        s.next_token().1.wf(),
        s.pos.not_after(s.next_token().1.pos),
        s.next_token().0 matches Some(t) ==> {
            &&& t.span.wf()
            &&& s.pos.not_after(t.span.start)
            &&& t.span.end == s.next_token().1.pos
            &&& t.span.start.row == t.span.end.row
            &&& t.span.start.byte < t.span.end.byte
            &&& t.span.end.col - t.span.start.col == t.span.end.byte - t.span.start.byte
            &&& t.kind matches TokenKindView::Text(text) ==> text.len() == t.span.end.byte
                - t.span.start.byte
        },
    decreases s.rest.len(),
{
    lemma_text_run(s.state, s.rest);
    lemma_steps_consume(s);
    lemma_steps_forward(s);
    if s.rest.len() > 0 {
        let c = s.rest[0];
        if is_blank(c) && s.state != State::ReadExec {
            lemma_next_token_span(s.skip_whitespace());
        } else if c == '#' {
            lemma_next_token_span(s.skip_comment());
        } else if is_line_break(c) {
            lemma_next_token_span(s.advance_line());
        }
    }
}

/// The scanner after `n` calls of `advance_line`.
pub open spec fn lines_on(s: Scanner, n: nat) -> Scanner
    decreases n,
{
    if n == 0 {
        s
    } else {
        lines_on(s, (n - 1) as nat).advance_line()
    }
}

/// Rows count line breaks: a scanner that passes over `n` line breaks one
/// after another is `n` rows further, in the first column where `n` is not
/// zero, and its offset has grown by the characters that the line breaks
/// took.
pub proof fn lemma_rows_count_line_breaks(s: Scanner, n: nat)
    requires
        s.wf(),
        forall|k: nat| k < n ==> line_break_len((#[trigger] lines_on(s, k)).rest) > 0,
    ensures
        lines_on(s, n).wf(),
        lines_on(s, n).pos.row == s.pos.row + n,
        n > 0 ==> lines_on(s, n).pos.col == 0,
        lines_on(s, n).pos.byte + lines_on(s, n).rest.len() == s.pos.byte + s.rest.len(),
    decreases n,
{
    if n > 0 {
        let k = (n - 1) as nat;
        lemma_rows_count_line_breaks(s, k);
        lemma_steps_forward(lines_on(s, k));
        lemma_steps_consume(lines_on(s, k));
    }
}

/// Offsets count characters: from one token to the next the offset grows
/// by the number of characters that left the text.
pub proof fn lemma_offset_counts_characters(s: Scanner)
    requires
        s.wf(),
    ensures
        s.next_token().1.pos.byte + s.next_token().1.rest.len() == s.pos.byte + s.rest.len(),
    decreases s.rest.len(),
{
    lemma_steps_consume(s);
    lemma_steps_forward(s);
    lemma_line_run(s.rest);
    lemma_text_run(s.state, s.rest);
    lemma_blank_run(s.rest);
    if s.rest.len() > 0 {
        let c = s.rest[0];
        if is_blank(c) && s.state != State::ReadExec {
            lemma_offset_counts_characters(s.skip_whitespace());
        } else if c == '#' {
            lemma_offset_counts_characters(s.skip_comment());
        } else if is_line_break(c) {
            lemma_offset_counts_characters(s.advance_line());
        }
    }
}

/// The tokens follow one another in the text: no span is inverted, and
/// each token ends at or before the start of every later one.
pub open spec fn ordered(ts: Seq<TokenView>) -> bool {
    &&& forall|i: int| 0 <= i < ts.len() ==> (#[trigger] ts[i]).span.wf()
    &&& forall|i: int, j: int|
        0 <= i < j < ts.len() ==> (#[trigger] ts[i]).span.end.not_after(
            (#[trigger] ts[j]).span.start,
        )
}

/// All of `ts` start at or after `p`.
pub open spec fn starts_from(ts: Seq<TokenView>, p: Position) -> bool {
    forall|i: int| 0 <= i < ts.len() ==> p.not_after((#[trigger] ts[i]).span.start)
}

/// The tokens of a text come in the order of the text and none before the
/// place where scanning began.
pub proof fn lemma_tokens_ordered(s: Scanner)
    requires
        s.wf(),
    ensures
        ordered(s.tokens()),
        starts_from(s.tokens(), s.pos),
    decreases s.rest.len(),
{
    let (token, after) = s.next_token();
    lemma_next_token_span(s);
    lemma_next_token_progress(s);
    if token is Some {
        lemma_tokens_ordered(after);
    }
}

/// What is left to the scanner is the end of `text`, from the offset the
/// scanner is at.
pub open spec fn anchored(s: Scanner, text: Seq<char>) -> bool {
    s.pos.byte <= text.len() && s.rest == text.skip(s.pos.byte as int)
}

/// The characters of `text` that `span` covers, by its offsets.
pub open spec fn slice(text: Seq<char>, span: Span) -> Seq<char> {
    text.subrange(span.start.byte as int, span.end.byte as int)
}

/// The span of `t` covers in `text` what `t` stands for: a text its
/// characters, a bracket, an `=` or a semicolon itself, an argument the
/// `%` and its character, or the `%` alone where the text ends with it.
pub open spec fn spelled(text: Seq<char>, t: TokenView) -> bool {
    let found = slice(text, t.span);
    match t.kind {
        TokenKindView::Text(s) => found == s,
        TokenKindView::LeftBracket => found == seq!['['],
        TokenKindView::RightBracket => found == seq![']'],
        TokenKindView::Equal => found == seq!['='],
        TokenKindView::Semicolon => found == seq![';'],
        TokenKindView::Argument(c) => found == seq!['%', c] || (found == seq!['%'] && c == '\0'
            && t.span.end.byte == text.len()),
    }
}

/// Each step of scanning leaves the scanner at the end of the same text.
pub proof fn lemma_steps_anchored(s: Scanner, text: Seq<char>)
    requires
        s.wf(),
        anchored(s, text),
    ensures
        anchored(s.skip_whitespace(), text),
        anchored(s.advance_line(), text),
        anchored(s.skip_comment(), text),
        anchored(s.read_text(), text),
{
    lemma_blank_run(s.rest);
    lemma_line_run(s.rest);
    lemma_text_run(s.state, s.rest);
    let at = s.pos.byte as int;
    assert forall|n: int| 0 <= n <= s.rest.len() implies #[trigger] s.rest.skip(n) == text.skip(
        at + n,
    ) by {
        assert(text.skip(at).skip(n) =~= text.skip(at + n));
    }
    let c = s.consume(line_run(s.rest));
    assert(c.rest.skip(line_break_len(c.rest) as int) =~= text.skip(
        c.pos.byte + line_break_len(c.rest),
    ));
}

/// A token of a text is spelled in that text where its span says.
pub proof fn lemma_next_token_spelled(s: Scanner, text: Seq<char>)
    requires
        s.wf(),
        anchored(s, text),
    ensures
        anchored(s.next_token().1, text),
        s.next_token().0 matches Some(t) ==> spelled(text, t),
    decreases s.rest.len(),
{
    lemma_steps_consume(s);
    lemma_steps_forward(s);
    lemma_steps_anchored(s, text);
    lemma_text_run(s.state, s.rest);
    let at = s.pos.byte as int;
    if s.rest.len() > 0 {
        let c = s.rest[0];
        if is_blank(c) && s.state != State::ReadExec {
            lemma_next_token_spelled(s.skip_whitespace(), text);
        } else if c == '#' {
            lemma_next_token_spelled(s.skip_comment(), text);
        } else if is_line_break(c) {
            lemma_next_token_spelled(s.advance_line(), text);
        } else {
            let t = s.next_token().0->Some_0;
            let n = t.span.end.byte - t.span.start.byte;
            assert(text.skip(at).skip(n) =~= text.skip(at + n));
            assert(slice(text, t.span) =~= s.rest.take(n));
            assert(s.rest.take(1) =~= seq![c]);
            if s.rest.len() >= 2 {
                assert(s.rest.take(2) =~= seq![c, s.rest[1]]);
            }
        }
    }
}

/// The tokens of a text are spelled in that text where their spans say.
pub proof fn lemma_tokens_spelled(s: Scanner, text: Seq<char>)
    requires
        s.wf(),
        anchored(s, text),
    ensures
        forall|i: int| 0 <= i < s.tokens().len() ==> spelled(text, #[trigger] s.tokens()[i]),
    decreases s.rest.len(),
{
    let (token, after) = s.next_token();
    lemma_next_token_span(s);
    lemma_next_token_progress(s);
    lemma_next_token_spelled(s, text);
    if token is Some {
        lemma_tokens_spelled(after, text);
        let ts = s.tokens();
        let later = after.tokens();
        assert forall|i: int| 0 <= i < ts.len() implies spelled(text, #[trigger] ts[i]) by {
            if i > 0 {
                assert(ts[i] == later[i - 1]);
            }
        }
    }
}

/// Scanning a text gives tokens that follow one another in the text, each
/// spelled where its span says.
pub proof fn lemma_scan(text: Seq<char>)
    requires
        text.len() <= u32::MAX,
    ensures
        ordered(scan(text)),
        forall|i: int| 0 <= i < scan(text).len() ==> spelled(text, #[trigger] scan(text)[i]),
{
    let s = Scanner::start(text);
    assert(s.rest =~= text.skip(0));
    lemma_tokens_ordered(s);
    lemma_tokens_spelled(s, text);
}

} // verus!
