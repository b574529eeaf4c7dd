use pecan::{
    parse, parse_expression, parse_statement, program, Ast, Case, Expr, Lexer, Operator, ParseError, Token, Type,
};

fn expr(src: &str) -> Expr<'_> {
    parse_expression(Lexer::new(src)).unwrap()
}

#[test]
fn literal_values_are_kept() {
    assert_eq!(expr("0xDEADBEEF"), Expr::Int(3735928559));
    assert_eq!(expr("0o12345670"), Expr::Int(2739128));
    assert_eq!(expr("0b00101110"), Expr::Int(46));
    assert_eq!(expr("007"), Expr::Int(7));
    assert_eq!(expr("9223372036854775807"), Expr::Int(i64::MAX));
    assert_eq!(expr(r#""a\"b""#), Expr::String(r#"a\"b"#));
    assert_eq!(expr(r"'\n'"), Expr::Char('\n'));
    assert_eq!(expr("'x'"), Expr::Char('x'));
    assert_eq!(expr("[]"), Expr::List(vec![]));
    assert_eq!(expr("()"), Expr::Tuple(vec![]));
    assert_eq!(expr("(1,)"), Expr::Tuple(vec![Expr::Int(1)]));
    assert_eq!(expr("P {}"), Expr::Struct { name: "P", items: vec![] });
}

#[test]
fn too_large_literal_is_no_token() {
    assert_eq!(Lexer::new("9223372036854775808").next_token(), None);
    assert_eq!(parse_expression(Lexer::new("9223372036854775808")), Err(ParseError::UnexpectedEof));
}

#[test]
fn identifiers_read_whole() {
    for s in ["_", "x", "hunter2", "empty?", "do_something!", "A_b_9?"] {
        assert_eq!(expr(s), Expr::Ident(s));
    }
    assert_eq!(Lexer::new("if").next_token(), Some(Token::If));
    assert!(parse_expression(Lexer::new("2asd")).is_err());
    assert!(parse_expression(Lexer::new("nu?ll")).is_err());
    assert_eq!(Lexer::new("nu?ll").tokens(), vec![Token::Ident("nu?"), Token::Ident("ll")]);
}

#[test]
fn unicode_classes_come_from_std() {
    assert_eq!(expr("ñandú"), Expr::Ident("ñandú"));
    assert_eq!(expr("\u{3000}x\u{2003}"), Expr::Ident("x"));
    assert_eq!(Lexer::new("\tlet\n").tokens(), vec![Token::Let]);
}

#[test]
fn literals_before_other_text() {
    assert_eq!(Lexer::new("007;").tokens(), vec![Token::Int(7), Token::Semicolon]);
    assert_eq!(Lexer::new("0x1F+1").tokens(), vec![Token::Int(31), Token::Plus, Token::Int(1)]);
    assert_eq!(Lexer::new("0b101)").tokens(), vec![Token::Int(5), Token::CloseParen]);
    assert_eq!(Lexer::new("0 x").tokens(), vec![Token::Int(0), Token::Ident("x")]);
}

#[test]
fn malformed_numbers_fail_anywhere() {
    assert_eq!(Lexer::new("a + 12é").tokens(), vec![Token::Ident("a"), Token::Plus]);
    assert_eq!(Lexer::new("x 0x1Fz").tokens(), vec![Token::Ident("x")]);
    assert_eq!(Lexer::new("0b1a").tokens(), vec![]);
    assert_eq!(Lexer::new("0b12").tokens(), vec![Token::Int(1), Token::Int(2)]);
    assert_eq!(program("let y: I64 = 0o7z;"), Err(ParseError::UnexpectedEof));
}

#[test]
fn malformed_numbers_fail() {
    assert!(Lexer::new("00xDEADBEEF").next_token().is_none());
    assert!(Lexer::new("123abc").next_token().is_none());
    assert!(Lexer::new("0abc").next_token().is_none());
    assert!(Lexer::new("0x").next_token().is_none());
    assert_eq!(program("00xDEADBEEF"), Err(ParseError::UnexpectedEof));
    assert_eq!(program("let x: I64 = 12ab;"), Err(ParseError::UnexpectedEof));
    assert_eq!(parse_expression(Lexer::new("1 12ab")), Err(ParseError::UnexpectedEof));
}

#[test]
fn precedence_pairs_agree() {
    let pairs = [
        ("True or False and True", "True or (False and True)"),
        ("a or b and c or d", "a or (b and c) or d"),
        ("1 | 0 and 2 | 0", "(1 | 0) and (2 | 0)"),
        ("1 | 2 & 3 ^ 4", "1 | ((2 & 3) ^ 4)"),
        ("hello & 2 != 0", "(hello & 2) != 0"),
    ];
    for (plain, grouped) in pairs {
        assert_eq!(expr(plain), expr(grouped));
    }
    assert_eq!(
        expr("1 - 2 - 3"),
        Expr::make_binop(
            Expr::make_binop(Expr::Int(1), Operator::Sub, Expr::Int(2)),
            Operator::Sub,
            Expr::Int(3)
        )
    );
    assert_eq!(
        expr("-~x << 2"),
        Expr::make_binop(
            Expr::make_unop(Operator::Sub, Expr::make_unop(Operator::BitNot, Expr::Ident("x"))),
            Operator::ShiftLeft,
            Expr::Int(2)
        )
    );
}

#[test]
fn statements_round_trip() {
    assert_eq!(
        parse_statement(Lexer::new("a = b;")),
        Ok(Ast::Assign { lhs: Expr::Ident("a"), op: Operator::Assign, rhs: Expr::Ident("b") })
    );
    assert_eq!(
        parse_statement(Lexer::new("a <<= b;")),
        Ok(Ast::Assign { lhs: Expr::Ident("a"), op: Operator::LShiftAssign, rhs: Expr::Ident("b") })
    );
    assert_eq!(
        parse_statement(Lexer::new("let foo: I64 = 42;")),
        Ok(Ast::Let { name: "foo", mutable: false, ty: Type::Ident("I64"), expr: Expr::Int(42) })
    );
    assert_eq!(
        parse_statement(Lexer::new("let mut i: I64 = 0;")),
        Ok(Ast::Let { name: "i", mutable: true, ty: Type::Ident("I64"), expr: Expr::Int(0) })
    );
    assert_eq!(
        parse_statement(Lexer::new("fn f() {}")),
        Ok(Ast::Function { name: "f", args: vec![], ret: Type::Unit, body: vec![] })
    );
}

#[test]
fn else_if_nests() {
    assert_eq!(
        parse_statement(Lexer::new("if (a) { } else if (b) { c; }")),
        Ok(Ast::IfElse {
            cond: Expr::Ident("a"),
            then_: vec![],
            else_: Some(vec![Ast::IfElse {
                cond: Expr::Ident("b"),
                then_: vec![Ast::Expr(Expr::Ident("c"))],
                else_: None,
            }]),
        })
    );
}

#[test]
fn switch_and_flags() {
    assert_eq!(
        parse_statement(Lexer::new("switch (x) { case A: a; b; default: return; }")),
        Ok(Ast::Switch {
            cond: Expr::Ident("x"),
            cases: vec![
                Case::Case { pattern: "A", body: vec![Ast::Expr(Expr::Ident("a")), Ast::Expr(Expr::Ident("b"))] },
                Case::Default(vec![Ast::Return(None)]),
            ],
        })
    );
    assert_eq!(
        parse_statement(Lexer::new("flag Mode { Read, Write, }")),
        Ok(Ast::Flag { name: "Mode", variants: vec!["Read", "Write"] })
    );
}

#[test]
fn for_loop_ranges() {
    assert_eq!(
        parse_statement(Lexer::new("for i: I64 in 0..n { }")),
        Ok(Ast::For {
            var: "i",
            ty: Type::Ident("I64"),
            over: Expr::make_binop(Expr::Int(0), Operator::Range, Expr::Ident("n")),
            block: vec![],
        })
    );
    assert_eq!(
        parse_statement(Lexer::new("for x: T in xs {}")),
        Ok(Ast::For { var: "x", ty: Type::Ident("T"), over: Expr::Ident("xs"), block: vec![] })
    );
}

#[test]
fn ranges_only_where_a_loop_iterates() {
    assert_eq!(
        parse_statement(Lexer::new("for i: I64 in (0..n) { }")),
        parse_statement(Lexer::new("for i: I64 in 0..n { }"))
    );
    assert_eq!(
        parse_statement(Lexer::new("for x: T in (a) + b {}")),
        Ok(Ast::For {
            var: "x",
            ty: Type::Ident("T"),
            over: Expr::make_binop(Expr::Ident("a"), Operator::Add, Expr::Ident("b")),
            block: vec![],
        })
    );
    assert_eq!(
        parse_statement(Lexer::new("for x: T in (a, b).c {}")),
        Ok(Ast::For {
            var: "x",
            ty: Type::Ident("T"),
            over: Expr::GetItem {
                obj: Box::new(Expr::Tuple(vec![Expr::Ident("a"), Expr::Ident("b")])),
                item: "c",
            },
            block: vec![],
        })
    );
    assert_eq!(
        parse_statement(Lexer::new("let x: I64 = (0..5);")),
        Err(ParseError::Expected { token: Token::CloseParen, got: Some(Token::DotDot) })
    );
    assert_eq!(
        parse_statement(Lexer::new("for i: I64 in (0..5) + 1 {}")),
        Err(ParseError::Expected { token: Token::OpenCurly, got: Some(Token::Plus) })
    );
    assert!(parse_expression(Lexer::new("0..5")).is_err());
}

#[test]
fn whitespace_and_trailing_commas_do_not_matter() {
    assert_eq!(expr("f(a,b)"), expr("  f ( a ,\n b , )\t"));
    assert_eq!(expr("[1,2]"), expr("[ 1 , 2 , ]"));
    assert_eq!(expr("V{.x=1}"), expr("V { .x = 1, }"));
    assert_eq!(
        parse_statement(Lexer::new("struct S{a:I64,b:&I64}")),
        parse_statement(Lexer::new("struct S {\n  a: I64,\n  b: & I64,\n}"))
    );
    assert_eq!(
        parse_statement(Lexer::new("fn g(a:()){}")),
        parse_statement(Lexer::new(" fn g ( a : ( ) , ) { } "))
    );
    assert_eq!(program("\n\n  let x: I64 = 1;"), program("let x: I64 = 1;"));
}

#[test]
fn truncated_input_fails() {
    assert_eq!(parse_statement(Lexer::new("let foo:")), Err(ParseError::UnexpectedEof));
    assert_eq!(program("let foo:"), Err(ParseError::UnexpectedEof));
    assert_eq!(
        program("fn f() {"),
        Err(ParseError::Expected { token: Token::CloseCurly, got: None })
    );
}

#[test]
fn each_error_kind() {
    assert_eq!(
        parse_statement(Lexer::new("let x I64 = 1;")),
        Err(ParseError::Expected { token: Token::Colon, got: Some(Token::Ident("I64")) })
    );
    assert_eq!(
        parse_statement(Lexer::new("let 5: I64 = 1;")),
        Err(ParseError::Expected { token: Token::Ident("identifier"), got: Some(Token::Int(5)) })
    );
    assert_eq!(
        parse_statement(Lexer::new("let x: I64 = ;")),
        Err(ParseError::Expected { token: Token::OpenParen, got: Some(Token::Semicolon) })
    );
    assert_eq!(
        parse_statement(Lexer::new("let x: 5 = 1;")),
        Err(ParseError::Expected { token: Token::OpenParen, got: Some(Token::Int(5)) })
    );
    assert_eq!(parse_expression(Lexer::new("1 2")), Err(ParseError::ExpectedEnd { got: Token::Int(2) }));
    assert_eq!(
        parse_statement(Lexer::new("let")),
        Err(ParseError::Expected { token: Token::Ident("identifier"), got: None })
    );
    assert_eq!(
        parse_statement(Lexer::new("let x =")),
        Err(ParseError::Expected { token: Token::Colon, got: Some(Token::Equals) })
    );
    assert_eq!(parse_expression(Lexer::new("@")), Err(ParseError::Expected { token: Token::OpenParen, got: Some(Token::Char('@')) }));
}

#[test]
fn empty_input() {
    assert_eq!(parse(Lexer::new("")), Ok(vec![]));
    assert_eq!(program(" \n\t "), Ok(vec![]));
    assert_eq!(parse_expression(Lexer::new("")), Err(ParseError::UnexpectedEof));
}

#[test]
fn operators_take_the_longest_match() {
    assert_eq!(
        Lexer::new("<<= >>= <= >= << >> < > -> -= - .. . ^ ^= | |= != ! == = &= & ~ $").tokens(),
        vec![
            Token::LessThanLessThanEquals,
            Token::GreaterThanGreaterThanEquals,
            Token::LessThanEquals,
            Token::GreaterThanEquals,
            Token::LessThanLessThan,
            Token::GreaterThanGreaterThan,
            Token::LessThan,
            Token::GreaterThan,
            Token::Arrow,
            Token::MinusEquals,
            Token::Minus,
            Token::DotDot,
            Token::Dot,
            Token::Carat,
            Token::CaratEquals,
            Token::Pipe,
            Token::PipeEquals,
            Token::BangEquals,
            Token::Char('!'),
            Token::EqualsEquals,
            Token::Equals,
            Token::AndEquals,
            Token::Ampersand,
            Token::Tilde,
            Token::Char('$'),
        ]
    );
    assert_eq!(
        Lexer::new(r#""hi" 'a' "#).tokens(),
        vec![Token::Str("hi"), Token::CharLit('a')]
    );
}
