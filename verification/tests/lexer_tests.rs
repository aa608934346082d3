use minicomp::lexer::{LexErr, Token, TokenStream};

#[test]
fn tokenize() {
    let val = "1;";
    assert_eq!(
        TokenStream::from_str(val).unwrap().inner,
        vec![Token::Ident("1".to_string()), Token::Semi, Token::EOF]
    );
    let val = "foo;";
    assert_eq!(
        TokenStream::from_str(val).unwrap().inner,
        vec![Token::Ident("foo".to_string()), Token::Semi, Token::EOF]
    );

    let line = "foo = 5;";
    assert_eq!(
        TokenStream::from_str(line).unwrap().inner,
        vec![
            Token::Ident("foo".to_string()),
            Token::Eq,
            Token::Ident("5".to_string()),
            Token::Semi,
            Token::EOF
        ]
    );

    let line = "(foo  + 2) *5;";

    assert_eq!(
        TokenStream::from_str(line).unwrap().inner,
        vec![
            Token::OpenParen,
            Token::Ident("foo".to_string()),
            Token::Add,
            Token::Ident("2".to_string()),
            Token::CloseParen,
            Token::Mul,
            Token::Ident("5".to_string()),
            Token::Semi,
            Token::EOF
        ]
    );
}

#[test]
fn tokenize_two_char_operators() {
    assert_eq!(
        TokenStream::from_str("a == b != !c | d & e").unwrap().inner,
        vec![
            Token::Ident("a".to_string()),
            Token::EqEq,
            Token::Ident("b".to_string()),
            Token::NEq,
            Token::Not,
            Token::Ident("c".to_string()),
            Token::Or,
            Token::Ident("d".to_string()),
            Token::And,
            Token::Ident("e".to_string()),
            Token::EOF
        ]
    );
}

#[test]
fn tokenize_arithmetic() {
    assert_eq!(
        TokenStream::from_str("a - b / c % d").unwrap().inner,
        vec![
            Token::Ident("a".to_string()),
            Token::Sub,
            Token::Ident("b".to_string()),
            Token::Div,
            Token::Ident("c".to_string()),
            Token::Mod,
            Token::Ident("d".to_string()),
            Token::EOF
        ]
    );
}

#[test]
fn tokenize_rejects_stray_character() {
    assert_eq!(TokenStream::from_str("a @ b;"), Err(LexErr::General));
    assert_eq!(TokenStream::from_str("#"), Err(LexErr::General));
}

#[test]
fn tokenize_empty_input() {
    assert_eq!(TokenStream::from_str("").unwrap().inner, vec![Token::EOF]);
    assert_eq!(TokenStream::from_str("   \n\t ").unwrap().inner, vec![Token::EOF]);
}

#[test]
fn stream_cursor_operations() {
    let mut s = TokenStream::from_str("x + 2;").unwrap();
    assert_eq!(s.peek(), Token::Ident("x".to_string()));
    assert_eq!(s.peekn(1), Token::Add);
    assert_eq!(s.peekn(2), Token::Ident("2".to_string()));
    assert_eq!(s.peekn(100), Token::EOF);
    assert_eq!(s.next(), Token::Ident("x".to_string()));
    assert_eq!(s.next(), Token::Add);
    s.advance();
    assert_eq!(s.next(), Token::Semi);
    assert_eq!(s.next(), Token::EOF);
    assert_eq!(s.next(), Token::EOF);
}
