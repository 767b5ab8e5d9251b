//! The document that the tokens are assembled into.

use super::span::Span;
use super::text::{exec_key, is_exec_key};
use super::tokens::{text_of, Token, TokenKind, TokenKindView, TokenView};
use vstd::prelude::*;

verus! {

/// What every part of the document has: its own tokens, and the stretch
/// of text that it covers together with the parts that belong to it.
#[derive(PartialEq, Eq, Clone, Debug)]
pub struct Node {
    /// From the start of the first token of the part to the end of the
    /// last token of the part and of what belongs to it.
    pub span: Span,
    /// The tokens of the part itself, without those of the parts that
    /// belong to it.
    pub tokens: Vec<Token>,
}

/// A node with its tokens as what they are in contracts.
pub struct NodeView {
    pub span: Span,
    pub tokens: Seq<TokenView>,
}

impl DeepView for Node {
    type V = NodeView;

    open spec fn deep_view(&self) -> NodeView {
        NodeView { span: self.span, tokens: self.tokens.deep_view() }
    }
}

/// A piece of a command line.
#[derive(PartialEq, Eq, Clone, Debug)]
pub enum ValuePart {
    /// Text that stands for itself.
    Literal(String),
    /// A field code: the character after the `%`.
    Placeholder(char),
}

/// A piece of a command line with its text as a sequence of characters.
pub enum ValuePartView {
    Literal(Seq<char>),
    Placeholder(char),
}

impl DeepView for ValuePart {
    type V = ValuePartView;

    open spec fn deep_view(&self) -> ValuePartView {
        match self {
            ValuePart::Literal(s) => ValuePartView::Literal(s@),
            ValuePart::Placeholder(c) => ValuePartView::Placeholder(*c),
        }
    }
}

/// What a value holds.
#[derive(PartialEq, Eq, Clone, Debug)]
pub enum ValueKind {
    /// One string.
    Simple(String),
    /// The items of a list that semicolons separate.
    List(Vec<String>),
    /// The pieces of a command line.
    Exec(Vec<ValuePart>),
}

/// What a value holds, with strings as sequences of characters.
pub enum ValueKindView {
    Simple(Seq<char>),
    List(Seq<Seq<char>>),
    Exec(Seq<ValuePartView>),
}

impl DeepView for ValueKind {
    type V = ValueKindView;

    open spec fn deep_view(&self) -> ValueKindView {
        match self {
            ValueKind::Simple(s) => ValueKindView::Simple(s@),
            ValueKind::List(items) => ValueKindView::List(items.deep_view()),
            ValueKind::Exec(parts) => ValueKindView::Exec(parts.deep_view()),
        }
    }
}

/// The value of an entry. Its tokens are those after the `=`; where there
/// are none, its span is empty and lies at the end of the `=`.
#[derive(PartialEq, Eq, Clone, Debug)]
pub struct Value {
    pub node: Node,
    pub kind: ValueKind,
}

/// A value as it is in contracts.
pub struct ValueView {
    pub node: NodeView,
    pub kind: ValueKindView,
}

impl DeepView for Value {
    type V = ValueView;

    open spec fn deep_view(&self) -> ValueView {
        ValueView { node: self.node.deep_view(), kind: self.kind.deep_view() }
    }
}

/// A key, the locale it is given for, if any, and its value. The tokens
/// of the entry are the key, the brackets and the locale, and the `=`; its
/// span reaches from the key to the end of the value.
#[derive(PartialEq, Eq, Clone, Debug)]
pub struct Entry {
    pub node: Node,
    pub key: String,
    pub locale: Option<String>,
    pub value: Value,
}

/// An entry as it is in contracts.
pub struct EntryView {
    pub node: NodeView,
    pub key: Seq<char>,
    pub locale: Option<Seq<char>>,
    pub value: ValueView,
}

impl DeepView for Entry {
    type V = EntryView;

    open spec fn deep_view(&self) -> EntryView {
        EntryView {
            node: self.node.deep_view(),
            key: self.key@,
            locale: self.locale.deep_view(),
            value: self.value.deep_view(),
        }
    }
}

/// A heading and the entries under it. The tokens of the section are
/// those of the heading; its span reaches from the `[` to the end of the
/// last entry.
#[derive(PartialEq, Eq, Clone, Debug)]
pub struct Section {
    pub node: Node,
    pub heading: String,
    pub entries: Vec<Entry>,
}

/// A section as it is in contracts.
pub struct SectionView {
    pub node: NodeView,
    pub heading: Seq<char>,
    pub entries: Seq<EntryView>,
}

impl DeepView for Section {
    type V = SectionView;

    open spec fn deep_view(&self) -> SectionView {
        SectionView {
            node: self.node.deep_view(),
            heading: self.heading@,
            entries: self.entries.deep_view(),
        }
    }
}

/// A document: its sections in the order of the text.
pub type Document = Vec<Section>;

/// The texts of the text tokens among `ts`, joined in order.
pub open spec fn joined_text(ts: Seq<TokenView>) -> Seq<char>
    decreases ts.len(),
{
    if ts.len() == 0 {
        Seq::empty()
    } else {
        joined_text(ts.drop_last()) + text_of(ts.last())
    }
}

/// The pieces of a command line: a literal for each text token and a
/// placeholder for each argument token, in the order of the tokens.
pub open spec fn exec_parts(ts: Seq<TokenView>) -> Seq<ValuePartView>
    decreases ts.len(),
{
    if ts.len() == 0 {
        Seq::empty()
    } else {
        let parts = exec_parts(ts.drop_last());
        match ts.last().kind {
            TokenKindView::Text(s) => parts.push(ValuePartView::Literal(s)),
            TokenKindView::Argument(c) => parts.push(ValuePartView::Placeholder(c)),
            _ => parts,
        }
    }
}

/// The stretches of text that the semicolons among `ts` separate: one more
/// than there are semicolons, each the joined text of the tokens between
/// two of them.
pub open spec fn segments(ts: Seq<TokenView>) -> Seq<Seq<char>>
    decreases ts.len(),
{
    if ts.len() == 0 {
        seq![Seq::empty()]
    } else {
        let before = segments(ts.drop_last());
        match ts.last().kind {
            TokenKindView::Semicolon => before.push(Seq::empty()),
            TokenKindView::Text(s) => before.drop_last().push(before.last() + s),
            _ => before,
        }
    }
}

/// The items of a list: its segments, without the last one where that is
/// empty, as it is after a closing semicolon.
pub open spec fn list_items(ts: Seq<TokenView>) -> Seq<Seq<char>> {
    let all = segments(ts);
    if all.last().len() == 0 {
        all.drop_last()
    } else {
        all
    }
}

/// Whether a semicolon is among `ts`.
pub open spec fn has_semicolon(ts: Seq<TokenView>) -> bool {
    exists|i: int| 0 <= i < ts.len() && (#[trigger] ts[i]).kind is Semicolon
}

/// What the value of the entry `key` holds, given the tokens of the value:
/// a command line under the key `Exec`, else a list where a semicolon is
/// among the tokens, else one string.
pub open spec fn classify(key: Seq<char>, ts: Seq<TokenView>) -> ValueKindView {
    if key == exec_key() {
        ValueKindView::Exec(exec_parts(ts))
    } else if has_semicolon(ts) {
        ValueKindView::List(list_items(ts))
    } else {
        ValueKindView::Simple(joined_text(ts))
    }
}

impl ValueKind {
    /// The pieces of the command line that `tokens` spell.
    fn exec_of(tokens: &Vec<Token>) -> (r: Vec<ValuePart>)
        ensures
            r.deep_view() == exec_parts(tokens.deep_view()),
    {
        let ghost ts = tokens.deep_view();
        let mut parts: Vec<ValuePart> = Vec::new();
        let mut i: usize = 0;
        while i < tokens.len()
            invariant
                i <= tokens.len(),
                ts == tokens.deep_view(),
                parts.deep_view() == exec_parts(ts.take(i as int)),
            decreases tokens.len() - i,
        {
            assert(ts.take(i + 1).drop_last() =~= ts.take(i as int));
            match &tokens[i].kind {
                TokenKind::Text(s) => {
                    parts.push(ValuePart::Literal(s.clone()));
                },
                TokenKind::Argument(c) => {
                    parts.push(ValuePart::Placeholder(*c));
                },
                _ => {},
            }
            i += 1;
        }
        assert(ts.take(i as int) =~= ts);
        parts
    }

    /// The joined text of the text tokens among `tokens`.
    fn text_from(tokens: &Vec<Token>) -> (r: String)
        ensures
            r@ == joined_text(tokens.deep_view()),
    {
        let ghost ts = tokens.deep_view();
        let mut text = String::new();
        let mut i: usize = 0;
        while i < tokens.len()
            invariant
                i <= tokens.len(),
                ts == tokens.deep_view(),
                text@ == joined_text(ts.take(i as int)),
            decreases tokens.len() - i,
        {
            assert(ts.take(i + 1).drop_last() =~= ts.take(i as int));
            match &tokens[i].kind {
                TokenKind::Text(s) => {
                    text.append(s.as_str());
                },
                _ => {},
            }
            i += 1;
        }
        assert(ts.take(i as int) =~= ts);
        text
    }

    /// The items of the list that `tokens` spell.
    fn list_of(tokens: &Vec<Token>) -> (r: Vec<String>)
        ensures
            r.deep_view() == list_items(tokens.deep_view()),
    {
        let ghost ts = tokens.deep_view();
        let mut items: Vec<String> = Vec::new();
        let mut current = String::new();
        let mut i: usize = 0;
        while i < tokens.len()
            invariant
                i <= tokens.len(),
                ts == tokens.deep_view(),
                items.deep_view().push(current@) == segments(ts.take(i as int)),
            decreases tokens.len() - i,
        {
            assert(ts.take(i + 1).drop_last() =~= ts.take(i as int));
            match &tokens[i].kind {
                TokenKind::Semicolon => {
                    items.push(current);
                    current = String::new();
                },
                TokenKind::Text(s) => {
                    current.append(s.as_str());
                },
                _ => {},
            }
            i += 1;
        }
        assert(ts.take(i as int) =~= ts);
        if !current.as_str().is_empty() {
            items.push(current);
        }
        items
    }

    /// Whether a semicolon is among `tokens`.
    fn any_semicolon(tokens: &Vec<Token>) -> (r: bool)
        ensures
            r == has_semicolon(tokens.deep_view()),
    {
        let ghost ts = tokens.deep_view();
        let mut i: usize = 0;
        while i < tokens.len()
            invariant
                i <= tokens.len(),
                ts == tokens.deep_view(),
                forall|j: int| 0 <= j < i ==> !((#[trigger] ts[j]).kind is Semicolon),
            decreases tokens.len() - i,
        {
            if tokens[i].is_semicolon() {
                assert(ts[i as int].kind is Semicolon);
                return true;
            }
            i += 1;
        }
        false
    }

    /// What the value of the entry `key` holds, given the tokens of the
    /// value.
    pub fn classify(key: &str, tokens: &Vec<Token>) -> (r: ValueKind)
        ensures
            r.deep_view() == classify(key@, tokens.deep_view()),
    {
        if is_exec_key(key) {
            ValueKind::Exec(Self::exec_of(tokens))
        } else if Self::any_semicolon(tokens) {
            ValueKind::List(Self::list_of(tokens))
        } else {
            ValueKind::Simple(Self::text_from(tokens))
        }
    }
}

} // verus!
