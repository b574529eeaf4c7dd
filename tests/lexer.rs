use pecan::{Lexer, Token};

fn first(src: &str) -> Option<Token<&str>> {
    Lexer::new(src).next_token()
}

fn expect_number(src: &str, n: i64) {
    assert_eq!(first(src), Some(Token::Int(n)));
}

fn expect_identifier(src: &str) {
    assert_eq!(first(src), Some(Token::Ident(src)));
}

#[test]
fn test_lex_numbers() {
    expect_number("0", 0);
    expect_number("42", 42);
    expect_number("123", 123);

    expect_number("0x0", 0x0);
    expect_number("0x1234567890ABCDEF", 0x1234567890ABCDEF);
    expect_number("0xDEADBEEF", 0xDEADBEEF);
    expect_number("0x8BadF00d", 0x8BadF00d);

    expect_number("0o0", 0o0);
    expect_number("0o12345670", 0o12345670);

    expect_number("0b0", 0b0);
    expect_number("0b10", 0b10);
    expect_number("0b00101110", 0b00101110);

    let expected = vec![Token::Int(0), Token::Int(42), Token::Int(123)];

    assert_eq!(Lexer::new("0 42 123").tokens(), expected);
    assert!(Lexer::new("00xDEADBEEF").next_token().is_none());
}

#[test]
fn test_lex_identifiers() {
    expect_identifier("_");
    expect_identifier("foo");
    expect_identifier("hunter2");
    expect_identifier("PascalCase");
    expect_identifier("camelCase");
    expect_identifier("snake_case");
    expect_identifier("YELLING_SNAKE_CASE");
    expect_identifier("This_Is_A_Bad");
    expect_identifier("empty?");
    expect_identifier("do_something!");
}

#[test]
fn test_large_lex() {
    let code = "fn fib(n: I64) -> I64 {
  let a: I64 = 0;
  let b: I64 = 1;
  for i: I64 in 0..n {
    let c: I64 = a;
    a += b;
    b = c;
  }
  return a;
}";
    let expected = vec![
        Token::Fn, Token::Ident("fib"), Token::OpenParen, Token::Ident("n"), Token::Colon, Token::Ident("I64"), Token::CloseParen, Token::Arrow, Token::Ident("I64"), Token::OpenCurly,
        Token::Let, Token::Ident("a"), Token::Colon, Token::Ident("I64"), Token::Equals, Token::Int(0), Token::Semicolon,
        Token::Let, Token::Ident("b"), Token::Colon, Token::Ident("I64"), Token::Equals, Token::Int(1), Token::Semicolon,
        Token::For, Token::Ident("i"), Token::Colon, Token::Ident("I64"), Token::In, Token::Int(0), Token::DotDot, Token::Ident("n"), Token::OpenCurly,
        Token::Let, Token::Ident("c"), Token::Colon, Token::Ident("I64"), Token::Equals, Token::Ident("a"), Token::Semicolon,
        Token::Ident("a"), Token::PlusEquals, Token::Ident("b"), Token::Semicolon,
        Token::Ident("b"), Token::Equals, Token::Ident("c"), Token::Semicolon,
        Token::CloseCurly,
        Token::Return, Token::Ident("a"), Token::Semicolon,
        Token::CloseCurly,
    ];
    assert_eq!(Lexer::new(code).tokens(), expected);
}
