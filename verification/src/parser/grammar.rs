//! The shape of a document, stated over the sequence of its tokens.

use super::error::ParseError;
use super::scanner::ordered;
use super::span::{Position, Span, SpanStep};
use super::tokens::{text_of, TokenClass, TokenView};
use super::tree::{classify, EntryView, NodeView, SectionView, ValueView};
use vstd::prelude::*;

verus! {

/// The empty span at `p`.
pub open spec fn point(p: Position) -> Span {
    Span { start: p, end: p }
}

/// The span from the start of `first` to the end of `last`.
pub open spec fn cover(first: TokenView, last: TokenView) -> Span {
    Span { start: first.span.start, end: last.span.end }
}

/// The fault of a token of another kind than `expected`.
pub open spec fn unexpected(expected: TokenClass, found: TokenView) -> ParseError {
    ParseError::UnexpectedToken { expected, found: found.kind.class(), span: found.span }
}

/// The fault of an entry that the end of the input cuts short: it carries
/// the span of what there is of the entry.
pub open spec fn unterminated(ts: Seq<TokenView>) -> ParseError {
    ParseError::UnterminatedEntry { span: cover(ts[0], ts.last()) }
}

/// A section heading at the start of `ts`, which holds at least one
/// token: a `[`, a text and a `]`. The result is the section, still without
/// entries, and the number of tokens it took. Where a token is not what
/// the heading needs, the fault carries the span of that token; where the
/// tokens end too early, the empty span at the end of the last one.
pub open spec fn heading(ts: Seq<TokenView>) -> Result<(SectionView, nat), ParseError> {
    if !(ts[0].kind is LeftBracket) {
        Err(ParseError::MalformedHeader { span: ts[0].span })
    } else if ts.len() < 2 {
        Err(ParseError::MalformedHeader { span: point(ts[0].span.end) })
    } else if !(ts[1].kind is Text) {
        Err(ParseError::MalformedHeader { span: ts[1].span })
    } else if ts.len() < 3 {
        Err(ParseError::MalformedHeader { span: point(ts[1].span.end) })
    } else if !(ts[2].kind is RightBracket) {
        Err(ParseError::MalformedHeader { span: ts[2].span })
    } else {
        Ok(
            (
                SectionView {
                    node: NodeView { span: cover(ts[0], ts[2]), tokens: ts.take(3) },
                    heading: text_of(ts[1]),
                    entries: Seq::empty(),
                },
                3,
            ),
        )
    }
}

/// How many tokens the key at the start of `ts` takes: one, or four where
/// a locale in brackets follows the key.
pub open spec fn key_len(ts: Seq<TokenView>) -> Result<nat, ParseError> {
    if !(ts[0].kind is Text) {
        Err(unexpected(TokenClass::Text, ts[0]))
    } else if ts.len() >= 2 && ts[1].kind is LeftBracket {
        if ts.len() < 3 {
            Err(unterminated(ts))
        } else if !(ts[2].kind is Text) {
            Err(unexpected(TokenClass::Text, ts[2]))
        } else if ts.len() < 4 {
            Err(unterminated(ts))
        } else if !(ts[3].kind is RightBracket) {
            Err(unexpected(TokenClass::RightBracket, ts[3]))
        } else {
            Ok(4)
        }
    } else {
        Ok(1)
    }
}

/// Whether `t` can be part of a value whose `=` stands on line `row`: it
/// is a text, a semicolon or an argument and starts on that line.
pub open spec fn is_value_token(t: TokenView, row: u32) -> bool {
    (t.kind is Text || t.kind is Semicolon || t.kind is Argument) && t.span.start.row == row
}

/// How many tokens at the start of `ts` belong to the value whose `=`
/// stands on line `row`.
pub open spec fn value_run(ts: Seq<TokenView>, row: u32) -> nat
    decreases ts.len(),
{
    if ts.len() > 0 && is_value_token(ts[0], row) {
        1 + value_run(ts.skip(1), row)
    } else {
        0
    }
}

/// The tokens of a value are value tokens, and the value ends with the
/// tokens or before the first token that is none.
pub proof fn lemma_value_run(ts: Seq<TokenView>, row: u32)
    ensures
        value_run(ts, row) <= ts.len(),
        forall|i: int| 0 <= i < value_run(ts, row) ==> is_value_token(#[trigger] ts[i], row),
        value_run(ts, row) < ts.len() ==> !is_value_token(ts[value_run(ts, row) as int], row),
    decreases ts.len(),
{
    if ts.len() > 0 && is_value_token(ts[0], row) {
        lemma_value_run(ts.skip(1), row);
        assert forall|i: int| 0 <= i < value_run(ts, row) implies is_value_token(
            #[trigger] ts[i],
            row,
        ) by {
            if i > 0 {
                assert(ts[i] == ts.skip(1)[i - 1]);
            }
        }
    }
}

/// An entry at the start of `ts`, which holds at least one token: a key,
/// a locale in brackets or none, an `=`, and the value, which is made of
/// the value tokens that follow on the line of the `=`. The result is the
/// entry and the number of tokens it took.
pub open spec fn entry(ts: Seq<TokenView>) -> Result<(EntryView, nat), ParseError> {
    match key_len(ts) {
        Err(e) => Err(e),
        Ok(k) => {
            let m = k as int;
            if ts.len() <= m {
                Err(unterminated(ts))
            } else if !(ts[m].kind is Equal) {
                Err(unexpected(TokenClass::Equal, ts[m]))
            } else {
                let equal = ts[m];
                let n = value_run(ts.skip(m + 1), equal.span.start.row) as int;
                let tokens = ts.subrange(m + 1, m + 1 + n);
                let span = if n == 0 {
                    point(equal.span.end)
                } else {
                    cover(tokens[0], tokens.last())
                };
                let key = text_of(ts[0]);
                Ok(
                    (
                        EntryView {
                            node: NodeView {
                                span: Span { start: ts[0].span.start, end: span.end },
                                tokens: ts.take(m + 1),
                            },
                            key,
                            locale: if m == 4 {
                                Some(text_of(ts[2]))
                            } else {
                                None
                            },
                            value: ValueView {
                                node: NodeView { span, tokens },
                                kind: classify(key, tokens),
                            },
                        },
                        (m + 1 + n) as nat,
                    ),
                )
            }
        },
    }
}

/// `done` with `e` added to the entries of its last section, which then
/// ends where `e` ends.
pub open spec fn with_entry(done: Seq<SectionView>, e: EntryView) -> Seq<SectionView> {
    let last = done.last();
    done.drop_last().push(
        SectionView {
            node: NodeView {
                span: last.node.span.after(SpanStep::Finish(e.node.span.end)),
                tokens: last.node.tokens,
            },
            heading: last.heading,
            entries: last.entries.push(e),
        },
    )
}

/// The sections that `ts` add to those in `done`: a `[` opens a section,
/// any other token an entry of the section that was opened last, and
/// before the first section no entry can stand.
pub open spec fn sections(ts: Seq<TokenView>, done: Seq<SectionView>) -> Result<
    Seq<SectionView>,
    ParseError,
>
    decreases ts.len(),
{
    if ts.len() == 0 {
        Ok(done)
    } else if ts[0].kind is LeftBracket {
        match heading(ts) {
            Err(e) => Err(e),
            Ok((section, n)) => sections(ts.skip(n as int), done.push(section)),
        }
    } else if done.len() == 0 {
        Err(ParseError::ExpectedHeader { span: ts[0].span })
    } else {
        match entry(ts) {
            Err(e) => Err(e),
            Ok((e, n)) => {
                proof {
                    lemma_entry_len(ts);
                }
                sections(ts.skip(n as int), with_entry(done, e))
            },
        }
    }
}

/// The document that `ts` spell.
pub open spec fn document(ts: Seq<TokenView>) -> Result<Seq<SectionView>, ParseError> {
    sections(ts, Seq::empty())
}

/// An entry takes at least two tokens and no more than there are. Made of
/// tokens that follow one another in the text, it reaches from the start
/// of the first token it takes to the end of the last, and none of its
/// spans is inverted.
pub proof fn lemma_entry_len(ts: Seq<TokenView>)
    requires
        ts.len() > 0,
    ensures
        entry(ts) matches Ok((e, n)) ==> 2 <= n <= ts.len() && (ordered(ts) ==> e.node.span
            == cover(ts[0], ts[n - 1]) && entry_spans_wf(e)),
{
    if let Ok(k) = key_len(ts) {
        let m = k as int;
        if ts.len() > m {
            lemma_value_run(ts.skip(m + 1), ts[m].span.start.row);
        }
    }
}

/// No span of the entry is inverted.
pub open spec fn entry_spans_wf(e: EntryView) -> bool {
    e.node.span.wf() && e.value.node.span.wf()
}

/// No span of the section or of its entries is inverted.
pub open spec fn section_spans_wf(s: SectionView) -> bool {
    &&& s.node.span.wf()
    &&& forall|j: int| 0 <= j < s.entries.len() ==> entry_spans_wf(#[trigger] s.entries[j])
}

/// No span in the document is inverted.
pub open spec fn spans_wf(d: Seq<SectionView>) -> bool {
    forall|i: int| 0 <= i < d.len() ==> section_spans_wf(#[trigger] d[i])
}

/// The last of the sections in `done` ends at or before the start of
/// each of `ts`.
pub open spec fn lies_before(done: Seq<SectionView>, ts: Seq<TokenView>) -> bool {
    done.len() > 0 ==> forall|i: int|
        0 <= i < ts.len() ==> done.last().node.span.end.not_after((#[trigger] ts[i]).span.start)
}

/// Sections made of tokens that follow one another in the text, after the
/// sections that are there, hold no inverted span.
pub proof fn lemma_sections_spans(ts: Seq<TokenView>, done: Seq<SectionView>)
    requires
        ordered(ts),
        spans_wf(done),
        lies_before(done, ts),
    ensures
        sections(ts, done) matches Ok(d) ==> spans_wf(d),
    decreases ts.len(),
{
    if ts.len() == 0 {
    } else if ts[0].kind is LeftBracket {
        if let Ok((section, n)) = heading(ts) {
            lemma_sections_spans(ts.skip(n as int), done.push(section));
        }
    } else if done.len() > 0 {
        if let Ok((e, n)) = entry(ts) {
            lemma_entry_len(ts);
            lemma_sections_spans(ts.skip(n as int), with_entry(done, e));
        }
    }
}

/// In a document made of tokens that follow one another in the text no
/// span is inverted.
pub proof fn lemma_document_spans(ts: Seq<TokenView>)
    requires
        ordered(ts),
    ensures
        document(ts) matches Ok(d) ==> spans_wf(d),
{
    lemma_sections_spans(ts, Seq::empty());
}

/// The tokens of the entry: those of the key part, then those of the
/// value.
pub open spec fn entry_tokens(e: EntryView) -> Seq<TokenView> {
    e.node.tokens + e.value.node.tokens
}

/// The tokens of the entries, one entry after the other.
pub open spec fn entries_tokens(es: Seq<EntryView>) -> Seq<TokenView>
    decreases es.len(),
{
    if es.len() == 0 {
        Seq::empty()
    } else {
        entries_tokens(es.drop_last()) + entry_tokens(es.last())
    }
}

/// The tokens of the section: those of the heading, then those of the
/// entries.
pub open spec fn section_tokens(s: SectionView) -> Seq<TokenView> {
    s.node.tokens + entries_tokens(s.entries)
}

/// The tokens of the document, one section after the other.
pub open spec fn document_tokens(d: Seq<SectionView>) -> Seq<TokenView>
    decreases d.len(),
{
    if d.len() == 0 {
        Seq::empty()
    } else {
        document_tokens(d.drop_last()) + section_tokens(d.last())
    }
}

/// The sections that `ts` add to those in `done` hold the tokens of
/// `done` and then `ts`, each once and in order.
pub proof fn lemma_sections_tokens(ts: Seq<TokenView>, done: Seq<SectionView>)
    ensures
        sections(ts, done) matches Ok(d) ==> document_tokens(d) == document_tokens(done) + ts,
    decreases ts.len(),
{
    if ts.len() == 0 {
    } else if ts[0].kind is LeftBracket {
        if let Ok((section, n)) = heading(ts) {
            let next = done.push(section);
            lemma_sections_tokens(ts.skip(n as int), next);
            assert(next.drop_last() =~= done);
        }
    } else if done.len() > 0 {
        if let Ok((e, n)) = entry(ts) {
            lemma_entry_len(ts);
            let next = with_entry(done, e);
            lemma_sections_tokens(ts.skip(n as int), next);
            assert(next.drop_last() =~= done.drop_last());
            assert(next.last().entries.drop_last() =~= done.last().entries);
        }
    }
}

/// A document holds the tokens it was made of, each once and in order.
pub proof fn lemma_document_tokens(ts: Seq<TokenView>)
    ensures
        document(ts) matches Ok(d) ==> document_tokens(d) == ts,
{
    lemma_sections_tokens(ts, Seq::empty());
}

} // verus!
