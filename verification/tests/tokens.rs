use lsapp::parser::tokens::{Token, TokenKind, Tokens};
use lsapp::parser::State;

fn text_of(tok: &Token) -> &str {
    match &tok.kind {
        TokenKind::Text(val) => val.as_str(),
        _ => panic!("not a text token: {:?}", tok),
    }
}

fn read_in(state: State, source: &str) -> String {
    let mut t = Tokens::new(source);
    t.set_state(state);
    t.read_text();
    t.buf().to_string()
}

#[test]
fn test_read_text() {
    assert_eq!(read_in(State::ReadHeader, "abc]=\n"), "abc");
    assert_eq!(read_in(State::ReadValue, "abc]=\n"), "abc]=");

    assert_eq!(read_in(State::ReadKey, "abc%f=\n"), "abc%f");
    assert_eq!(read_in(State::ReadExec, "abc%f=\n"), "abc");
    assert_eq!(read_in(State::ReadValue, "abc%f=\n"), "abc%f=");
    assert_eq!(read_in(State::ReadHeader, "abc%f=\n"), "abc%f=");

    assert_eq!(read_in(State::ReadValue, "value #comment"), "value ");
    assert_eq!(read_in(State::ReadValue, "text1;text2"), "text1");
    assert_eq!(read_in(State::ReadValue, "text1\n"), "text1");
}

#[test]
fn test_advance_line() {
    let mut t = Tokens::new("\n\n\r\n\r");
    t.set_state(State::ReadValue);

    assert_eq!(t.pos().row, 0);
    assert_eq!(t.pos().col, 0);
    assert_eq!(t.pos().byte, 0);

    t.advance_line();
    assert_eq!(t.pos().row, 1);
    assert_eq!(t.pos().col, 0);
    assert_eq!(t.pos().byte, 1);

    t.advance_line();
    assert_eq!(t.pos().row, 2);
    assert_eq!(t.pos().col, 0);
    assert_eq!(t.pos().byte, 2);

    t.advance_line();
    assert_eq!(t.pos().row, 3);
    assert_eq!(t.pos().col, 0);
    assert_eq!(t.pos().byte, 4);

    t.advance_line();
    assert_eq!(t.pos().row, 4);
    assert_eq!(t.pos().col, 0);
    assert_eq!(t.pos().byte, 5);
}

#[test]
fn test_skip_comment() {
    let mut t = Tokens::new("text #comment!\r\nmore text");
    t.set_state(State::ReadValue);

    t.read_text();
    assert_eq!(t.buf(), "text ");

    t.skip_comment();
    assert_eq!(t.pos().row, 1);
    assert_eq!(t.pos().col, 0);

    t.read_text();
    assert_eq!(t.buf(), "more text");
}

#[test]
fn test_skip_whitespace() {
    let mut t = Tokens::new("\t\t     text\r\n   \t\t");
    t.set_state(State::ReadValue);

    t.skip_whitespace();
    assert_eq!(t.pos().row, 0);
    assert_eq!(t.pos().col, 7);

    t.read_text();
    assert_eq!(t.buf(), "text");

    t.advance_line();
    assert_eq!(t.pos().row, 1);
    assert_eq!(t.pos().col, 0);

    t.skip_whitespace();
    assert_eq!(t.pos().row, 1);
    assert_eq!(t.pos().col, 5);
}

#[test]
fn test_next_token() {
    let mut t = Tokens::new(
        r#"
        [header]
        key1[en]=Hello World! [text] = stuff #this is a comment
        key2=./hello %F lol
        Exec=/usr/bin/app %f --arg %%
        #comment on a line
        key3=list;of;stuff!
        "#,
    );

    assert_eq!(t.state(), State::ReadKey);
    assert!(t.next_token().unwrap().is_left_bracket());
    assert_eq!(t.state(), State::ReadHeader);

    let tok = t.next_token().unwrap();
    assert!(tok.is_text());
    assert_eq!(text_of(&tok), "header");

    assert!(t.next_token().unwrap().is_right_bracket());
    assert_eq!(t.state(), State::ReadKey);

    let tok = t.next_token().unwrap();
    assert!(tok.is_text());
    assert_eq!(text_of(&tok), "key1");

    assert_eq!(t.state(), State::ReadKey);
    assert!(t.next_token().unwrap().is_left_bracket());

    let tok = t.next_token().unwrap();
    assert!(tok.is_text());
    assert_eq!(text_of(&tok), "en");

    assert!(t.next_token().unwrap().is_right_bracket());
    assert!(t.next_token().unwrap().is_equal());
    assert_eq!(t.state(), State::ReadValue);

    let tok = t.next_token().unwrap();
    assert!(tok.is_text());
    assert_eq!(text_of(&tok), "Hello World! [text] = stuff ");

    let tok = t.next_token().unwrap();
    assert!(tok.is_text());
    assert_eq!(text_of(&tok), "key2");

    assert_eq!(t.state(), State::ReadKey);
    assert!(t.next_token().unwrap().is_equal());
    assert_eq!(t.state(), State::ReadValue);

    let tok = t.next_token().unwrap();
    assert!(tok.is_text());
    assert_eq!(text_of(&tok), "./hello %F lol");

    let tok = t.next_token().unwrap();
    assert!(tok.is_text());
    assert_eq!(text_of(&tok), "Exec");

    assert_eq!(t.state(), State::ReadKey);
    assert!(t.next_token().unwrap().is_equal());
    assert_eq!(t.state(), State::ReadExec);

    let tok = t.next_token().unwrap();
    assert!(tok.is_text());
    assert_eq!(text_of(&tok), "/usr/bin/app ");

    assert_eq!(t.state(), State::ReadExec);

    let tok = t.next_token().unwrap();
    assert!(tok.is_argument());
    assert_eq!(tok.kind, TokenKind::Argument('f'));

    assert_eq!(t.state(), State::ReadExec);

    let tok = t.next_token().unwrap();
    assert!(tok.is_text());
    assert_eq!(text_of(&tok), " --arg %%");

    let tok = t.next_token().unwrap();
    assert!(tok.is_text());
    assert_eq!(text_of(&tok), "key3");

    assert_eq!(t.state(), State::ReadKey);
    assert!(t.next_token().unwrap().is_equal());
    assert_eq!(t.state(), State::ReadValue);

    let tok = t.next_token().unwrap();
    assert!(tok.is_text());
    assert_eq!(text_of(&tok), "list");

    assert_eq!(t.state(), State::ReadValue);
    assert!(t.next_token().unwrap().is_semicolon());

    let tok = t.next_token().unwrap();
    assert!(tok.is_text());
    assert_eq!(text_of(&tok), "of");
    assert!(t.next_token().unwrap().is_semicolon());

    let tok = t.next_token().unwrap();
    assert!(tok.is_text());
    assert_eq!(text_of(&tok), "stuff!");

    let tok = t.next_token();
    assert!(tok.is_none());
}

#[test]
fn test_token_multiple_skips() {
    let mut t = Tokens::new(
        "key=value\r\t \t#a comment\n\n    #another comment\tyes\n\t    key2=\tvalue",
    );

    let tok = t.next_token().unwrap();
    assert!(tok.is_text());
    assert_eq!(text_of(&tok), "key");

    assert_eq!(tok.span.start.col, 0);
    assert_eq!(tok.span.end.col, 3);

    assert!(t.next_token().unwrap().is_equal());

    let tok = t.next_token().unwrap();
    assert!(tok.is_text());
    assert_eq!(text_of(&tok), "value");

    assert_eq!(tok.span.start.col, 4);
    assert_eq!(tok.span.end.col, 9);

    let tok = t.next_token().unwrap();
    assert!(tok.is_text());
    assert_eq!(text_of(&tok), "key2");

    assert_eq!(tok.span.start.row, 4);
    assert_eq!(tok.span.start.col, 5);
    assert_eq!(tok.span.end.col, 9);

    assert!(t.next_token().unwrap().is_equal());

    let tok = t.next_token().unwrap();
    assert!(tok.is_text());
    assert_eq!(text_of(&tok), "value");

    assert_eq!(tok.span.start.col, 11);
    assert_eq!(tok.span.end.col, 16);
}
