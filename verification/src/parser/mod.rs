//! Scanning and parsing of Desktop Entry text.

pub mod describe;
pub mod error;
pub mod grammar;
pub mod scanner;
pub mod span;
pub mod text;
pub mod tokens;
pub mod tree;

use self::error::ParseError;
use self::grammar::{
    cover, document, document_tokens, entry, heading, key_len, lemma_document_spans,
    lemma_document_tokens, lemma_entry_len, lies_before, point, sections, spans_wf, value_run,
    with_entry,
};
use self::scanner::{lemma_next_token_progress, lemma_tokens_ordered, ordered, scan};
use self::span::Span;
use self::tokens::{Token, TokenClass, TokenView, Tokens};
use self::tree::{Document, Entry, EntryView, Node, Section, SectionView, Value, ValueKind};
use vstd::pervasive::unreached;
use vstd::prelude::*;

verus! {

/// What the scanner is reading. It decides which characters delimit a run
/// of text and which single characters are tokens of their own.
#[derive(PartialEq, Eq, Clone, Copy, Debug, Structural)]
pub enum State {
    /// Inside the brackets of a section heading or of a locale qualifier.
    ReadHeader,
    /// At a key, or anywhere a line may start.
    ReadKey,
    /// In the value of an ordinary entry.
    ReadValue,
    /// In the value of an `Exec` entry.
    ReadExec,
}

/// The tree builder: it takes the tokens of a text and assembles them
/// into sections and entries. A token that was taken can be put back.
pub struct Parser {
    tokens: Tokens,
    fwd: Vec<Token>,
}

impl Parser {
    /// The tokens that have not been taken yet, the next one first.
    pub closed spec fn stream(&self) -> Seq<TokenView> {
        self.fwd.deep_view().reverse() + self.tokens@.tokens()
    }

    /// The scanner underneath is well formed.
    pub closed spec fn inv(&self) -> bool {
        self.tokens.wf()
    }

    /// The tokens that are left follow one another in the text.
    pub open spec fn wf(&self) -> bool {
        self.inv() && ordered(self.stream())
    }

    /// A tree builder for the text `data`.
    pub fn new(data: &str) -> (r: Parser)
        requires
            data@.len() <= u32::MAX,
        ensures
            r.wf(),
            r.stream() == scan(data@),
    {
        let tokens = Tokens::new(data);
        proof {
            lemma_tokens_ordered(tokens@);
        }
        let r = Parser { tokens, fwd: Vec::new() };
        r
    }

    /// Takes the next token, if there is one.
    pub fn next(&mut self) -> (r: Option<Token>)
        requires
            old(self).wf(),
        ensures
            final(self).wf(),
            old(self).stream().len() == 0 ==> r is None && final(self).stream() == old(
                self,
            ).stream(),
            old(self).stream().len() > 0 ==> r is Some && r.unwrap()@ == old(self).stream()[0]
                && final(self).stream() == old(self).stream().skip(1),
    {
        if self.fwd.len() > 0 {
            let r = self.fwd.pop();
            assert(self.stream() =~= old(self).stream().skip(1));
            r
        } else {
            proof {
                lemma_next_token_progress(self.tokens@);
            }
            let r = self.tokens.next_token();
            assert(r is Some ==> self.stream() =~= old(self).stream().skip(1));
            r
        }
    }

    /// Puts back a token that was taken.
    fn unread(&mut self, token: Token)
        requires
            old(self).wf(),
            ordered(seq![token@] + old(self).stream()),
        ensures
            final(self).wf(),
            final(self).stream() == seq![token@] + old(self).stream(),
    {
        self.fwd.push(token);
        assert(self.stream() =~= seq![token@] + old(self).stream());
    }

    /// Takes a section heading: a `[`, a text and a `]`.
    fn match_heading(&mut self) -> (r: Result<Section, ParseError>)
        requires
            old(self).wf(),
            old(self).stream().len() > 0,
        ensures
            final(self).wf(),
            match r {
                Ok(s) => heading(old(self).stream()) matches Ok((v, n)) && s.deep_view() == v
                    && final(self).stream() == old(self).stream().skip(n as int),
                Err(e) => heading(old(self).stream()) == Err::<(SectionView, nat), ParseError>(e),
            },
    {
        let ghost ts = self.stream();
        let first = match self.next() {
            Some(t) => t,
            None => unreached(),
        };
        if !first.is_left_bracket() {
            return Err(ParseError::MalformedHeader { span: first.span });
        }
        let name = match self.next() {
            Some(t) => t,
            None => {
                return Err(ParseError::MalformedHeader { span: Span::start(first.span.end) });
            },
        };
        if !name.is_text() {
            return Err(ParseError::MalformedHeader { span: name.span });
        }
        let close = match self.next() {
            Some(t) => t,
            None => {
                return Err(ParseError::MalformedHeader { span: Span::start(name.span.end) });
            },
        };
        if !close.is_right_bracket() {
            return Err(ParseError::MalformedHeader { span: close.span });
        }
        let span = Span::new(first.span.start, close.span.end);
        let heading = name.text();
        let mut tokens: Vec<Token> = Vec::new();
        tokens.push(first);
        tokens.push(name);
        tokens.push(close);
        let entries: Vec<Entry> = Vec::new();
        assert(tokens.deep_view() =~= ts.take(3));
        assert(entries.deep_view() =~= Seq::<EntryView>::empty());
        Ok(Section { node: Node { span, tokens }, heading, entries })
    }

    /// Takes an entry: a key, a locale in brackets or none, an `=`, and
    /// the tokens of the value, which end with the line.
    fn match_entry(&mut self) -> (r: Result<Entry, ParseError>)
        requires
            old(self).wf(),
            old(self).stream().len() > 0,
        ensures
            final(self).wf(),
            match r {
                Ok(e) => entry(old(self).stream()) matches Ok((v, n)) && e.deep_view() == v
                    && final(self).stream() == old(self).stream().skip(n as int),
                Err(e) => entry(old(self).stream()) == Err::<(EntryView, nat), ParseError>(e),
            },
    {
        let ghost ts = self.stream();
        let first = match self.next() {
            Some(t) => t,
            None => unreached(),
        };
        if !first.is_text() {
            return Err(
                ParseError::UnexpectedToken {
                    expected: TokenClass::Text,
                    found: first.class(),
                    span: first.span,
                },
            );
        }
        let start = first.span.start;
        let key = first.text();
        let mut end = first.span.end;
        let mut tokens: Vec<Token> = Vec::new();
        tokens.push(first);
        let mut locale: Option<String> = None;
        let mut token = self.next();
        let opens = match &token {
            Some(t) => t.is_left_bracket(),
            None => false,
        };
        assert(ts.len() >= 2 ==> ts.skip(1).skip(1) =~= ts.skip(2));
        if opens {
            let bracket = match token {
                Some(t) => t,
                None => unreached(),
            };
            end = bracket.span.end;
            tokens.push(bracket);
            let name = match self.next() {
                Some(t) => t,
                None => {
                    return Err(ParseError::UnterminatedEntry { span: Span::new(start, end) });
                },
            };
            if !name.is_text() {
                return Err(
                    ParseError::UnexpectedToken {
                        expected: TokenClass::Text,
                        found: name.class(),
                        span: name.span,
                    },
                );
            }
            end = name.span.end;
            locale = Some(name.text());
            tokens.push(name);
            assert(ts.skip(2).skip(1) =~= ts.skip(3));
            let close = match self.next() {
                Some(t) => t,
                None => {
                    return Err(ParseError::UnterminatedEntry { span: Span::new(start, end) });
                },
            };
            if !close.is_right_bracket() {
                return Err(
                    ParseError::UnexpectedToken {
                        expected: TokenClass::RightBracket,
                        found: close.class(),
                        span: close.span,
                    },
                );
            }
            end = close.span.end;
            tokens.push(close);
            assert(ts.skip(3).skip(1) =~= ts.skip(4));
            token = self.next();
            assert(ts.len() >= 5 ==> ts.skip(4).skip(1) =~= ts.skip(5));
        }
        let ghost m: int = if opens {
            4
        } else {
            1
        };
        let equal = match token {
            Some(t) => t,
            None => {
                return Err(ParseError::UnterminatedEntry { span: Span::new(start, end) });
            },
        };
        if !equal.is_equal() {
            return Err(
                ParseError::UnexpectedToken {
                    expected: TokenClass::Equal,
                    found: equal.class(),
                    span: equal.span,
                },
            );
        }
        let row = equal.span.start.row;
        end = equal.span.end;
        let mut span = Span::start(equal.span.end);
        tokens.push(equal);
        assert(tokens.deep_view() =~= ts.take(m + 1));
        let mut parts: Vec<Token> = Vec::new();
        let ghost mut n: int = 0;
        loop
            invariant
                self.wf(),
                ordered(ts),
                m == 1 || m == 4,
                0 <= n == parts.len(),
                m + 1 + n <= ts.len(),
                self.stream() == ts.skip(m + 1 + n),
                parts.deep_view() == ts.subrange(m + 1, m + 1 + n),
                n + value_run(self.stream(), row) == value_run(ts.skip(m + 1), row),
                span == if n == 0 {
                    point(ts[m].span.end)
                } else {
                    cover(ts[m + 1], ts[m + n])
                },
                end == span.end,
                start == ts[0].span.start,
            ensures
                n == value_run(ts.skip(m + 1), row),
            decreases self.stream().len(),
        {
            match self.next() {
                Some(t) => {
                    let fits = (t.is_text() || t.is_semicolon() || t.is_argument())
                        && t.span.start.row == row;
                    if fits {
                        if parts.len() == 0 {
                            span = t.span;
                        } else {
                            span = Span::new(span.start, t.span.end);
                        }
                        end = t.span.end;
                        parts.push(t);
                        proof {
                            n = n + 1;
                        }
                    } else {
                        self.unread(t);
                        break ;
                    }
                },
                None => {
                    break ;
                },
            }
        }
        let kind = ValueKind::classify(key.as_str(), &parts);
        let whole = Span::new(start, end);
        Ok(
            Entry {
                node: Node { span: whole, tokens },
                key,
                locale,
                value: Value { node: Node { span, tokens: parts }, kind },
            },
        )
    }

    /// Assembles the tokens that are left into the sections of a document.
    /// The document must open with a section heading; every entry goes to
    /// the section that was opened last. The document holds every token
    /// once, in the order of the text, and none of its spans is inverted.
    pub fn parse(&mut self) -> (r: Result<Document, ParseError>)
        requires
            old(self).wf(),
        ensures
            final(self).wf(),
            match r {
                Ok(d) => document(old(self).stream()) == Ok::<Seq<SectionView>, ParseError>(
                    d.deep_view(),
                ) && spans_wf(d.deep_view()) && document_tokens(d.deep_view()) == old(
                    self,
                ).stream() && final(self).stream().len() == 0,
                Err(e) => document(old(self).stream()) == Err::<Seq<SectionView>, ParseError>(e),
            },
    {
        proof {
            lemma_document_spans(self.stream());
            lemma_document_tokens(self.stream());
        }
        let mut done: Document = Vec::new();
        assert(done.deep_view() =~= Seq::<SectionView>::empty());
        loop
            invariant
                self.wf(),
                sections(self.stream(), done.deep_view()) == document(old(self).stream()),
                document(old(self).stream()) matches Ok(d) ==> spans_wf(d) && document_tokens(d)
                    == old(self).stream(),
                spans_wf(done.deep_view()),
                lies_before(done.deep_view(), self.stream()),
            decreases self.stream().len(),
        {
            let ghost ts = self.stream();
            let ghost held = done.deep_view();
            let token = match self.next() {
                Some(t) => t,
                None => {
                    return Ok(done);
                },
            };
            let opens = token.is_left_bracket();
            if !opens && done.len() == 0 {
                return Err(ParseError::ExpectedHeader { span: token.span });
            }
            assert(seq![token@] + ts.skip(1) =~= ts);
            self.unread(token);
            if opens {
                match self.match_heading() {
                    Ok(section) => {
                        done.push(section);
                        assert(done.deep_view() =~= held.push(section.deep_view()));
                    },
                    Err(e) => {
                        return Err(e);
                    },
                }
            } else {
                proof {
                    lemma_entry_len(ts);
                }
                match self.match_entry() {
                    Ok(e) => {
                        let mut last = match done.pop() {
                            Some(s) => s,
                            None => unreached(),
                        };
                        let ghost before = last.deep_view();
                        last.node.span.finish(e.node.span.end);
                        last.entries.push(e);
                        assert(last.entries.deep_view() =~= before.entries.push(e.deep_view()));
                        done.push(last);
                        assert(done.deep_view() =~= with_entry(held, e.deep_view()));
                    },
                    Err(e) => {
                        return Err(e);
                    },
                }
            }
        }
    }
}

/// The document that `text` spells, or the fault that was found in it;
/// nothing where the text has more characters than positions can count.
pub fn parse_text(text: &str) -> (r: Option<Result<Document, ParseError>>)
    ensures
        r is Some <==> text@.len() <= u32::MAX,
        r matches Some(Ok(d)) ==> document(scan(text@)) == Ok::<Seq<SectionView>, ParseError>(
            d.deep_view(),
        ) && spans_wf(d.deep_view()) && document_tokens(d.deep_view()) == scan(text@),
        r matches Some(Err(e)) ==> document(scan(text@)) == Err::<Seq<SectionView>, ParseError>(
            e,
        ),
{
    if text.unicode_len() <= 0xffff_ffff {
        let mut parser = Parser::new(text);
        Some(parser.parse())
    } else {
        None
    }
}

} // verus!
