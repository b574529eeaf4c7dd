use pecan::{parse, parse_expression, parse_primary, parse_statement, Ast, Expr, Lexer, Operator, Type};

fn binop<'a>(l: Expr<'a>, op: Operator, r: Expr<'a>) -> Expr<'a> {
    Expr::make_binop(l, op, r)
}

#[test]
fn test_parse_assignment() {
    assert_eq!(
        parse_statement(Lexer::new("a = b;")).unwrap(),
        Ast::Assign { lhs: Expr::Ident("a"), op: Operator::Assign, rhs: Expr::Ident("b") }
    );
    assert_eq!(
        parse_statement(Lexer::new("_ = 100;")).unwrap(),
        Ast::Assign { lhs: Expr::Ident("_"), op: Operator::Assign, rhs: Expr::Int(100) }
    );
    assert_eq!(
        parse_statement(Lexer::new("a += b;")).unwrap(),
        Ast::Assign { lhs: Expr::Ident("a"), op: Operator::AddAssign, rhs: Expr::Ident("b") }
    );
}

#[test]
fn test_parse_expressions() {
    assert_eq!(
        parse_expression(Lexer::new("1 + 1 * 2 == 3")).unwrap(),
        binop(
            binop(Expr::Int(1), Operator::Add, binop(Expr::Int(1), Operator::Mul, Expr::Int(2))),
            Operator::Equal,
            Expr::Int(3)
        )
    );
    assert_eq!(
        parse_expression(Lexer::new("hello(42)[1 + 1]->world.bar().baz + 2*5")).unwrap(),
        binop(
            Expr::GetItem {
                obj: Box::new(Expr::Call {
                    func: Box::new(Expr::GetItem {
                        obj: Box::new(Expr::GetItem {
                            obj: Box::new(Expr::make_unop(
                                Operator::Deref,
                                Expr::Subscript {
                                    obj: Box::new(Expr::Call {
                                        func: Box::new(Expr::Ident("hello")),
                                        args: vec![Expr::Int(42)],
                                    }),
                                    idx: Box::new(binop(Expr::Int(1), Operator::Add, Expr::Int(1))),
                                }
                            )),
                            item: "world",
                        }),
                        item: "bar",
                    }),
                    args: vec![],
                }),
                item: "baz",
            },
            Operator::Add,
            binop(Expr::Int(2), Operator::Mul, Expr::Int(5))
        )
    );
    assert_eq!(
        parse_expression(Lexer::new("2 < 3 == 5 >= 3 and (1 == 2 and 1 or a != b)")).unwrap(),
        binop(
            binop(
                binop(Expr::Int(2), Operator::LT, Expr::Int(3)),
                Operator::Equal,
                binop(Expr::Int(5), Operator::GTE, Expr::Int(3))
            ),
            Operator::And,
            binop(
                binop(binop(Expr::Int(1), Operator::Equal, Expr::Int(2)), Operator::And, Expr::Int(1)),
                Operator::Or,
                binop(Expr::Ident("a"), Operator::NotEqual, Expr::Ident("b"))
            )
        )
    );
}

#[test]
fn main_test_parse_let() {
    assert!(parse_statement(Lexer::new("let foo: I64 = 42;")).is_ok());
    assert!(parse_statement(Lexer::new("let bar: Bool = 123 > 124;")).is_ok());
    assert!(parse_statement(Lexer::new("let baz: () = qux();")).is_ok());
    assert!(parse_statement(Lexer::new("let mut i: I64 = 0;")).is_ok());
}

#[test]
fn main_test_parse_if_else() {
    assert!(parse_statement(Lexer::new("if (True) { a; }")).is_ok());
    assert!(parse_statement(Lexer::new("if (1 == 1) { a; } else { b; }")).is_ok());
    assert!(parse_statement(Lexer::new("if (1 < 2) { print(42); } else if (2 < 1) { print(1); }")).is_ok());
}

#[test]
fn test_parse_for() {
    assert!(parse_statement(Lexer::new("for i: I64 in (0..64) { }")).is_ok());
    assert!(parse_statement(Lexer::new("for x: I64 in (items(hi)) { print(x); }")).is_ok());
}

#[test]
fn test_parse_while() {
    assert!(parse_statement(Lexer::new("while (True) { }")).is_ok());
    assert!(parse(Lexer::new("let i: I64 = 0; while (i < 10) { i += 1; }")).is_ok());
}

#[test]
fn main_test_parse_return() {
    assert!(parse_statement(Lexer::new("return;")).is_ok());
    assert!(parse_statement(Lexer::new("return 1;")).is_ok());
    assert!(parse_statement(Lexer::new("return a + b;")).is_ok());
}

#[test]
fn main_test_parse_function() {
    assert!(parse_statement(Lexer::new("fn hello(n: I64) {}")).is_ok());
    assert!(parse_statement(Lexer::new(
        "fn fib(n: I64) -> I64 {
  let a: I64 = 0;
  let b: I64 = 1;
  for i: I64 in (0..n) {
    let c: I64 = a;
    a += b;
    b = c;
  }
  return a;
}"
    ))
    .is_ok());
    assert!(parse_statement(Lexer::new("fn foo() {}")).is_ok());
    assert!(parse_statement(Lexer::new("fn baz ( hi: (), what: (), ) -> Bool { return hi == what; }")).is_ok());
}

#[test]
fn test_parse_literals() {
    assert_eq!(parse_expression(Lexer::new(r#""Hello, World!""#)).unwrap(), Expr::String("Hello, World!"));
    assert_eq!(parse_expression(Lexer::new("'''")).unwrap(), Expr::Char('\''));
    assert_eq!(
        parse_expression(Lexer::new("Vec2 { .x = 0, .y = 1 }")).unwrap(),
        Expr::Struct { name: "Vec2", items: vec![("x", Expr::Int(0)), ("y", Expr::Int(1))] }
    );
    assert_eq!(
        parse_expression(Lexer::new("[1, 2, 3]")).unwrap(),
        Expr::List(vec![Expr::Int(1), Expr::Int(2), Expr::Int(3)])
    );
    assert_eq!(parse_expression(Lexer::new("(1, 2)")).unwrap(), Expr::Tuple(vec![Expr::Int(1), Expr::Int(2)]));
}

#[test]
fn test_parse_type() {
    assert_eq!(
        parse_statement(Lexer::new("let _: I32 = _;")).unwrap(),
        Ast::Let { name: "_", mutable: false, ty: Type::Ident("I32"), expr: Expr::Ident("_") }
    );
    assert_eq!(
        parse_statement(Lexer::new("let _: &I32 = _;")).unwrap(),
        Ast::Let {
            name: "_",
            mutable: false,
            ty: Type::Pointer(Box::new(Type::Ident("I32"))),
            expr: Expr::Ident("_"),
        }
    );
    assert_eq!(
        parse_statement(Lexer::new("let _: [&Ast] = _;")).unwrap(),
        Ast::Let {
            name: "_",
            mutable: false,
            ty: Type::Array(Box::new(Type::Pointer(Box::new(Type::Ident("Ast"))))),
            expr: Expr::Ident("_"),
        }
    );
    assert_eq!(
        parse_statement(Lexer::new("let _: (I64, I64) = (1, 2);")).unwrap(),
        Ast::Let {
            name: "_",
            mutable: false,
            ty: Type::Tuple(vec![Type::Ident("I64"), Type::Ident("I64")]),
            expr: Expr::Tuple(vec![Expr::Int(1), Expr::Int(2)]),
        }
    );
}

#[test]
fn test_parse_struct() {
    assert_eq!(parse_statement(Lexer::new("struct Foo {}")).unwrap(), Ast::Struct { name: "Foo", members: vec![] });
    assert_eq!(
        parse_statement(Lexer::new(
            "struct Vec2 {
    x: F64,
    y: F64,
}"
        ))
        .unwrap(),
        Ast::Struct { name: "Vec2", members: vec![("x", Type::Ident("F64")), ("y", Type::Ident("F64"))] }
    );
    assert_eq!(
        parse_statement(Lexer::new("struct Person { name: String, friend: &Person }")).unwrap(),
        Ast::Struct {
            name: "Person",
            members: vec![
                ("name", Type::Ident("String")),
                ("friend", Type::Pointer(Box::new(Type::Ident("Person")))),
            ],
        }
    );
}

#[test]
fn test_parse_enum() {
    assert_eq!(parse_statement(Lexer::new("enum Void {}")).unwrap(), Ast::Enum { name: "Void", variants: vec![] });
    assert_eq!(
        parse_statement(Lexer::new("enum Bool { False, True }")).unwrap(),
        Ast::Enum { name: "Bool", variants: vec!["False", "True"] }
    );
}

#[test]
fn parser_test_parse_let() {
    assert!(parse(Lexer::new("let mut x:")).is_err());
    assert!(parse(Lexer::new("let x =")).is_err());
    // A declaration needs its initializer and its `;`.
    assert!(parse(Lexer::new("let mut x: () =")).is_err());
}

#[test]
fn test_parse_primary() {
    assert!(parse_primary(Lexer::new("let")).is_err());
    assert_eq!(parse_primary(Lexer::new("foo")), Ok(Expr::Ident("foo")));
    assert_eq!(parse_primary(Lexer::new("1")), Ok(Expr::Int(1)));
    assert_eq!(parse_primary(Lexer::new("(foobar)")), Ok(Expr::Ident("foobar")));
}
