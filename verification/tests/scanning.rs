use lsapp::parser::scanner::Percent;
use lsapp::parser::span::{Position, Span};
use lsapp::parser::tokens::{Token, TokenClass, TokenData, TokenKind, Tokens};
use lsapp::parser::State;

fn kinds(source: &str) -> Vec<TokenKind> {
    let mut found = Vec::new();
    for token in Tokens::new(source).drain() {
        found.push(token.kind);
    }
    found
}

fn text(s: &str) -> TokenKind {
    TokenKind::Text(s.to_string())
}

fn at(row: u32, col: u32, byte: u32) -> Position {
    Position { row, col, byte }
}

#[test]
fn key_and_value() {
    let mut t = Tokens::new("key=value\n");
    assert_eq!(t.next_token().unwrap().kind, text("key"));
    assert_eq!(t.next_token().unwrap().kind, TokenKind::Equal);
    assert_eq!(t.state(), State::ReadValue);
    assert_eq!(t.next_token().unwrap().kind, text("value"));
    assert_eq!(t.next_token(), None);
    assert_eq!(kinds("key=value\n"), vec![text("key"), TokenKind::Equal, text("value")]);
}

#[test]
fn heading_in_brackets() {
    let mut t = Tokens::new("[header]");
    assert_eq!(t.state(), State::ReadKey);
    assert_eq!(
        t.drain().into_iter().map(|t| t.kind).collect::<Vec<TokenKind>>(),
        vec![TokenKind::LeftBracket, text("header"), TokenKind::RightBracket]
    );
    assert_eq!(t.state(), State::ReadKey);
}

#[test]
fn locale_and_comment() {
    assert_eq!(
        kinds("key1[en]=Hello World! [text] = stuff #this is a comment\n"),
        vec![
            text("key1"),
            TokenKind::LeftBracket,
            text("en"),
            TokenKind::RightBracket,
            TokenKind::Equal,
            text("Hello World! [text] = stuff "),
        ]
    );
}

#[test]
fn exec_line_with_placeholder_and_literal_percent() {
    let mut t = Tokens::new("Exec=/usr/bin/app %f --arg %%\n");
    assert_eq!(t.next_token().unwrap().kind, text("Exec"));
    assert_eq!(t.next_token().unwrap().kind, TokenKind::Equal);
    assert_eq!(t.state(), State::ReadExec);
    assert_eq!(t.next_token().unwrap().kind, text("/usr/bin/app "));
    assert_eq!(t.next_token().unwrap().kind, TokenKind::Argument('f'));
    assert_eq!(t.next_token().unwrap().kind, text(" --arg %%"));
    assert_eq!(t.next_token(), None);
}

#[test]
fn list_value() {
    assert_eq!(
        kinds("key3=list;of;stuff!\n"),
        vec![
            text("key3"),
            TokenKind::Equal,
            text("list"),
            TokenKind::Semicolon,
            text("of"),
            TokenKind::Semicolon,
            text("stuff!"),
        ]
    );
}

#[test]
fn doubled_percent_is_text_even_before_a_letter() {
    assert_eq!(
        kinds("Exec=app %%f %u"),
        vec![text("Exec"), TokenKind::Equal, text("app %%f "), TokenKind::Argument('u')]
    );
}

#[test]
fn percent_before_something_else_than_a_letter_is_text() {
    assert_eq!(kinds("Exec=50% off"), vec![text("Exec"), TokenKind::Equal, text("50% off")]);
    assert_eq!(kinds("Exec=100%"), vec![text("Exec"), TokenKind::Equal, text("100%")]);
    assert_eq!(
        kinds("Exec=a%\nb=c"),
        vec![text("Exec"), TokenKind::Equal, text("a%"), text("b"), TokenKind::Equal, text("c")]
    );
    assert_eq!(kinds("Exec=a%1"), vec![text("Exec"), TokenKind::Equal, text("a%1")]);
}

#[test]
fn percent_before_a_letter_of_any_script_is_an_argument() {
    assert_eq!(
        kinds("Exec=a%\u{e9}"),
        vec![text("Exec"), TokenKind::Equal, text("a"), TokenKind::Argument('\u{e9}')]
    );
}

#[test]
fn percent_at_the_start_of_a_scan_takes_the_next_character() {
    assert_eq!(
        kinds("Exec=%%f"),
        vec![text("Exec"), TokenKind::Equal, TokenKind::Argument('%'), text("f")]
    );
    assert_eq!(kinds("Exec=%"), vec![text("Exec"), TokenKind::Equal, TokenKind::Argument('\0')]);
}

#[test]
fn blanks_are_text_in_a_command_line_only() {
    assert_eq!(kinds("Exec= a"), vec![text("Exec"), TokenKind::Equal, text(" a")]);
    assert_eq!(kinds("Name= a"), vec![text("Name"), TokenKind::Equal, text("a")]);
}

#[test]
fn exec_state_follows_the_text_read_last() {
    let mut t = Tokens::new("Exec[en]=a;b");
    let mut last = None;
    while let Some(token) = t.next_token() {
        if token.is_equal() {
            last = Some(t.state());
        }
    }
    assert_eq!(last, Some(State::ReadValue));
    let mut t = Tokens::new("Name[Exec]=a;b");
    let mut last = None;
    while let Some(token) = t.next_token() {
        if token.is_equal() {
            last = Some(t.state());
        }
    }
    assert_eq!(last, Some(State::ReadExec));
}

#[test]
fn stray_right_bracket_is_a_token() {
    assert_eq!(
        kinds("a]b=c"),
        vec![text("a"), TokenKind::RightBracket, text("b"), TokenKind::Equal, text("c")]
    );
    assert_eq!(kinds("]]"), vec![TokenKind::RightBracket, TokenKind::RightBracket]);
}

#[test]
fn line_break_resets_the_state() {
    let mut t = Tokens::new("[abc\nkey=v");
    assert!(t.next_token().unwrap().is_left_bracket());
    assert_eq!(t.next_token().unwrap().kind, text("abc"));
    assert_eq!(t.state(), State::ReadHeader);
    assert_eq!(t.next_token().unwrap().kind, text("key"));
    assert_eq!(t.state(), State::ReadKey);
}

#[test]
fn empty_and_blank_texts_have_no_tokens() {
    assert_eq!(kinds(""), vec![]);
    assert_eq!(kinds("  \t\n\r\n# only a comment"), vec![]);
    assert_eq!(kinds("# a comment\n\n"), vec![]);
}

#[test]
fn spans_cover_the_characters_of_each_token() {
    let tokens = Tokens::new("[ab]\nExec=x %f").drain();
    let spans: Vec<Span> = tokens.iter().map(|t| t.span).collect();
    assert_eq!(
        spans,
        vec![
            Span { start: at(0, 0, 0), end: at(0, 1, 1) },
            Span { start: at(0, 1, 1), end: at(0, 3, 3) },
            Span { start: at(0, 3, 3), end: at(0, 4, 4) },
            Span { start: at(1, 0, 5), end: at(1, 4, 9) },
            Span { start: at(1, 4, 9), end: at(1, 5, 10) },
            Span { start: at(1, 5, 10), end: at(1, 7, 12) },
            Span { start: at(1, 7, 12), end: at(1, 9, 14) },
        ]
    );
}

#[test]
fn tokens_come_in_the_order_of_the_text() {
    let tokens = Tokens::new("[s]\na[b]=c;d\r\nExec=x %f y\n#z\nk=v").drain();
    assert_eq!(tokens.len(), 19);
    for token in &tokens {
        assert!(token.span.start <= token.span.end);
        assert_eq!(token.span.start.row, token.span.end.row);
    }
    for pair in tokens.windows(2) {
        assert!(pair[0].span.end <= pair[1].span.start);
    }
}

#[test]
fn offsets_count_characters() {
    let mut t = Tokens::new("\u{e9}\u{e9}=\u{4eac}");
    let key = t.next_token().unwrap();
    assert_eq!(key.span, Span { start: at(0, 0, 0), end: at(0, 2, 2) });
    t.next_token();
    let value = t.next_token().unwrap();
    assert_eq!(value.span, Span { start: at(0, 3, 3), end: at(0, 4, 4) });
}

#[test]
fn read_text_starts_from_an_empty_buffer() {
    let mut t = Tokens::new("abc=def");
    t.read_text();
    assert_eq!(t.buf(), "abc");
    t.read_text();
    assert_eq!(t.buf(), "");
    t.set_state(State::ReadValue);
    t.read_text();
    assert_eq!(t.buf(), "=def");
}

#[test]
fn advance_line_does_nothing_elsewhere() {
    let mut t = Tokens::new("ab\n");
    t.advance_line();
    assert_eq!(t.pos(), at(0, 0, 0));
    assert_eq!(t.state(), State::ReadKey);
    t.set_state(State::ReadValue);
    t.read_text();
    t.advance_line();
    assert_eq!(t.pos(), at(1, 0, 3));
    assert_eq!(t.state(), State::ReadKey);
    t.advance_line();
    assert_eq!(t.pos(), at(1, 0, 3));
}

#[test]
fn skip_comment_without_a_line_break_takes_the_rest() {
    let mut t = Tokens::new("# to the end");
    t.set_state(State::ReadValue);
    t.skip_comment();
    assert_eq!(t.pos(), at(0, 12, 12));
    assert_eq!(t.state(), State::ReadValue);
    assert_eq!(t.next_token(), None);
}

#[test]
fn token_data_takes_and_puts_back() {
    let mut d = TokenData::new("ab");
    assert_eq!(d.peek(), Some('a'));
    assert_eq!(d.next(), Some('a'));
    assert_eq!(d.pos(), at(0, 1, 1));
    d.push('z');
    assert_eq!(d.pos(), at(0, 0, 0));
    assert_eq!(d.peek(), Some('z'));
    assert_eq!(d.next(), Some('z'));
    assert_eq!(d.next(), Some('b'));
    assert_eq!(d.pos(), at(0, 2, 2));
    assert_eq!(d.peek(), None);
    assert_eq!(d.next(), None);
    assert_eq!(d.pos(), at(0, 2, 2));
}

#[test]
fn token_constructors_and_classes() {
    let t = Token::new(TokenKind::Equal, at(3, 4, 50));
    assert_eq!(t.span, Span { start: at(3, 4, 50), end: at(3, 5, 51) });
    assert_eq!(t.class(), TokenClass::Equal);
    assert!(t.is_equal() && !t.is_text() && !t.is_semicolon());
    let span = Span { start: at(0, 0, 0), end: at(0, 2, 2) };
    let t = Token::new_with_span(text("ab"), span);
    assert_eq!(t.span, span);
    assert_eq!(t.class(), TokenClass::Text);
    assert_eq!(t.text(), "ab");
    assert!(t.is_text() && !t.is_left_bracket() && !t.is_right_bracket());
    let t = Token::new_with_span(TokenKind::Argument('u'), span);
    assert!(t.is_argument() && !t.is_text());
    assert_eq!(t.class(), TokenClass::Argument);
    assert_eq!(t.text(), "");
    assert_eq!(Token::new(TokenKind::LeftBracket, at(0, 0, 0)).class(), TokenClass::LeftBracket);
    assert_eq!(Token::new(TokenKind::RightBracket, at(0, 0, 0)).class(), TokenClass::RightBracket);
    assert_eq!(Token::new(TokenKind::Semicolon, at(0, 0, 0)).class(), TokenClass::Semicolon);
}

#[test]
fn percent_rule_by_the_character_after() {
    assert_eq!(Tokens::percent(Some('f'), true), Percent::Placeholder);
    assert_eq!(Tokens::percent(Some('\u{e9}'), true), Percent::Placeholder);
    assert_eq!(Tokens::percent(Some('%'), false), Percent::Pair);
    assert_eq!(Tokens::percent(Some(' '), false), Percent::Pair);
    assert_eq!(Tokens::percent(Some('1'), false), Percent::Pair);
    assert_eq!(Tokens::percent(Some(';'), false), Percent::Pair);
    assert_eq!(Tokens::percent(Some('\n'), false), Percent::Last);
    assert_eq!(Tokens::percent(Some('\r'), false), Percent::Last);
    assert_eq!(Tokens::percent(Some('#'), false), Percent::Last);
    assert_eq!(Tokens::percent(None, false), Percent::Last);
}

#[test]
fn percent_before_a_comment_ends_the_text() {
    assert_eq!(kinds("Exec=a%#b\nc=d"), vec![
        text("Exec"),
        TokenKind::Equal,
        text("a%"),
        text("c"),
        TokenKind::Equal,
        text("d"),
    ]);
}
