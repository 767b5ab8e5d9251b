//! Short descriptions of tokens and of the parts of a document, for
//! messages and for looking at what was read.

use super::tokens::{Token, TokenKind, TokenKindView, TokenView};
use super::tree::{
    Entry, EntryView, Node, NodeView, Section, SectionView, Value, ValueKind, ValueKindView,
    ValuePart, ValuePartView, ValueView,
};
use vstd::prelude::*;

verus! {

/// `s` between double quotes.
pub open spec fn quoted(s: Seq<char>) -> Seq<char> {
    seq!['"'] + s + seq!['"']
}

/// `parts` in order with one space between each two.
pub open spec fn spaced(parts: Seq<Seq<char>>) -> Seq<char>
    decreases parts.len(),
{
    if parts.len() == 0 {
        Seq::empty()
    } else if parts.len() == 1 {
        parts[0]
    } else {
        spaced(parts.drop_last()) + seq![' '] + parts.last()
    }
}

/// A token as it is described: text between quotes, a bracket, an `=` or a
/// semicolon as itself, an argument as `%` and its character.
pub open spec fn token_text(t: TokenView) -> Seq<char> {
    match t.kind {
        TokenKindView::Text(s) => quoted(s),
        TokenKindView::LeftBracket => seq!['['],
        TokenKindView::RightBracket => seq![']'],
        TokenKindView::Equal => seq!['='],
        TokenKindView::Semicolon => seq![';'],
        TokenKindView::Argument(c) => seq!['%', c],
    }
}

/// A piece of a command line as it is described: a literal between
/// quotes, a placeholder as `%` and its character.
pub open spec fn part_text(p: ValuePartView) -> Seq<char> {
    match p {
        ValuePartView::Literal(s) => quoted(s),
        ValuePartView::Placeholder(c) => seq!['%', c],
    }
}

/// A node as it is described: its tokens with spaces between them.
pub open spec fn node_text(n: NodeView) -> Seq<char> {
    spaced(n.tokens.map_values(|t: TokenView| token_text(t)))
}

/// What a value holds as it is described: a string between quotes, a list
/// as `LIST(..)` around its quoted items, a command line as `EXEC(..)`
/// around its pieces.
pub open spec fn kind_text(k: ValueKindView) -> Seq<char> {
    match k {
        ValueKindView::Simple(s) => quoted(s),
        ValueKindView::List(items) => "LIST("@ + spaced(items.map_values(|s: Seq<char>| quoted(s)))
            + ")"@,
        ValueKindView::Exec(parts) => "EXEC("@ + spaced(
            parts.map_values(|p: ValuePartView| part_text(p)),
        ) + ")"@,
    }
}

/// A value as it is described.
pub open spec fn value_text(v: ValueView) -> Seq<char> {
    "VALUE "@ + kind_text(v.kind)
}

/// An entry as it is described: its key, and its locale in brackets,
/// which are empty where it has none.
pub open spec fn entry_text(e: EntryView) -> Seq<char> {
    "ENTRY("@ + e.key + " ["@ + match e.locale {
        Some(l) => l,
        None => Seq::empty(),
    } + "])"@
}

/// A section as it is described: its heading.
pub open spec fn section_text(s: SectionView) -> Seq<char> {
    "SECTION("@ + s.heading + ")"@
}

/// `s` between double quotes.
fn quote(s: &str) -> (r: String)
    ensures
        r@ == quoted(s@),
{
    let mut r = String::new();
    r.push('"');
    r.append(s);
    r.push('"');
    r
}

/// `c` alone.
fn single(c: char) -> (r: String)
    ensures
        r@ == seq![c],
{
    let mut r = String::new();
    r.push(c);
    r
}

/// `%` and `c`.
fn percent(c: char) -> (r: String)
    ensures
        r@ == seq!['%', c],
{
    let mut r = String::new();
    r.push('%');
    r.push(c);
    r
}

/// The strings of `parts` with one space between each two.
fn join_spaced(parts: &Vec<String>) -> (r: String)
    ensures
        r@ == spaced(parts.deep_view()),
{
    let ghost all = parts.deep_view();
    let mut line = String::new();
    let mut i: usize = 0;
    while i < parts.len()
        invariant
            i <= parts.len(),
            all == parts.deep_view(),
            line@ == spaced(all.take(i as int)),
        decreases parts.len() - i,
    {
        assert(all.take(i + 1).drop_last() =~= all.take(i as int));
        if i > 0 {
            line.push(' ');
        }
        line.append(parts[i].as_str());
        i += 1;
    }
    assert(all.take(i as int) =~= all);
    line
}

impl Token {
    /// The token as a short string.
    pub fn describe(&self) -> (r: String)
        ensures
            r@ == token_text(self@),
    {
        match &self.kind {
            TokenKind::Text(data) => quote(data.as_str()),
            TokenKind::LeftBracket => single('['),
            TokenKind::RightBracket => single(']'),
            TokenKind::Equal => single('='),
            TokenKind::Semicolon => single(';'),
            TokenKind::Argument(a) => percent(*a),
        }
    }
}

impl Node {
    /// The tokens of the node as short strings, with spaces between them.
    pub fn describe(&self) -> (r: String)
        ensures
            r@ == node_text(self.deep_view()),
    {
        let ghost ts = self.tokens.deep_view();
        let ghost texts = ts.map_values(|t: TokenView| token_text(t));
        let mut parts: Vec<String> = Vec::new();
        let mut i: usize = 0;
        while i < self.tokens.len()
            invariant
                i <= self.tokens.len(),
                ts == self.tokens.deep_view(),
                texts == ts.map_values(|t: TokenView| token_text(t)),
                parts.deep_view() == texts.take(i as int),
            decreases self.tokens.len() - i,
        {
            let ghost held = parts.deep_view();
            let d = self.tokens[i].describe();
            parts.push(d);
            assert(held.push(d@) =~= texts.take(i + 1));
            i += 1;
        }
        assert(texts.take(i as int) =~= texts);
        join_spaced(&parts)
    }
}

impl ValuePart {
    /// The piece as a short string.
    pub fn describe(&self) -> (r: String)
        ensures
            r@ == part_text(self.deep_view()),
    {
        match self {
            ValuePart::Literal(s) => quote(s.as_str()),
            ValuePart::Placeholder(c) => percent(*c),
        }
    }
}

impl ValueKind {
    /// What the value holds as a short string.
    pub fn describe(&self) -> (r: String)
        ensures
            r@ == kind_text(self.deep_view()),
    {
        match self {
            ValueKind::Simple(s) => quote(s.as_str()),
            ValueKind::List(items) => {
                let ghost all = items.deep_view();
                let ghost texts = all.map_values(|s: Seq<char>| quoted(s));
                let mut parts: Vec<String> = Vec::new();
                let mut i: usize = 0;
                while i < items.len()
                    invariant
                        i <= items.len(),
                        all == items.deep_view(),
                        texts == all.map_values(|s: Seq<char>| quoted(s)),
                        parts.deep_view() == texts.take(i as int),
                    decreases items.len() - i,
                {
                    let ghost held = parts.deep_view();
                    let d = quote(items[i].as_str());
                    parts.push(d);
                    assert(held.push(d@) =~= texts.take(i + 1));
                    i += 1;
                }
                assert(texts.take(i as int) =~= texts);
                let inner = join_spaced(&parts);
                let mut r = String::from_str("LIST(");
                r.append(inner.as_str());
                r.append(")");
                r
            },
            ValueKind::Exec(pieces) => {
                let ghost all = pieces.deep_view();
                let ghost texts = all.map_values(|p: ValuePartView| part_text(p));
                let mut parts: Vec<String> = Vec::new();
                let mut i: usize = 0;
                while i < pieces.len()
                    invariant
                        i <= pieces.len(),
                        all == pieces.deep_view(),
                        texts == all.map_values(|p: ValuePartView| part_text(p)),
                        parts.deep_view() == texts.take(i as int),
                    decreases pieces.len() - i,
                {
                    let ghost held = parts.deep_view();
                    let d = pieces[i].describe();
                    parts.push(d);
                    assert(held.push(d@) =~= texts.take(i + 1));
                    i += 1;
                }
                assert(texts.take(i as int) =~= texts);
                let inner = join_spaced(&parts);
                let mut r = String::from_str("EXEC(");
                r.append(inner.as_str());
                r.append(")");
                r
            },
        }
    }
}

impl Value {
    /// The value as a short string.
    pub fn describe(&self) -> (r: String)
        ensures
            r@ == value_text(self.deep_view()),
    {
        let kind = self.kind.describe();
        let mut r = String::from_str("VALUE ");
        r.append(kind.as_str());
        r
    }
}

impl Entry {
    /// The key and the locale of the entry as a short string.
    pub fn describe(&self) -> (r: String)
        ensures
            r@ == entry_text(self.deep_view()),
    {
        let mut r = String::from_str("ENTRY(");
        r.append(self.key.as_str());
        r.append(" [");
        match &self.locale {
            Some(l) => {
                r.append(l.as_str());
            },
            None => {
            },
        }
        r.append("])");
        r
    }
}

impl Section {
    /// The heading of the section as a short string.
    pub fn describe(&self) -> (r: String)
        ensures
            r@ == section_text(self.deep_view()),
    {
        let mut r = String::from_str("SECTION(");
        r.append(self.heading.as_str());
        r.append(")");
        r
    }
}

} // verus!
