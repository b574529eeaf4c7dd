//! The grammar, stated as functions from a token sequence and a position
//! to the tree parsed there and the position after it.
//!
//! Parsing is deterministic: each alternative is chosen by the next token,
//! binary operators associate to the left, and the first mismatch is the
//! error. A few branches return `UnexpectedEof` when a sub-parse did not
//! move forward; sub-parses always move forward, so those branches are
//! never taken, but they let each definition be seen to terminate.
use vstd::prelude::*;
use crate::ast::{AstV, CaseV, ExprV, Operator, TypeV};
use crate::error::{Error, ParseError};
use crate::token::{Tok, Token};

verus! {

/// A tree (or list) and the position after it, or the error.
pub type Parsed<V> = Result<(V, int), Error>;

pub open spec fn peek(ts: Seq<Tok>, i: int) -> Option<Tok> {
    if 0 <= i < ts.len() {
        Some(ts[i])
    } else {
        None
    }
}

pub open spec fn next_is(ts: Seq<Tok>, i: int, t: Tok) -> bool {
    peek(ts, i) == Some(t)
}

pub open spec fn advanced(i: int, j: int, n: int) -> bool {
    i < j <= n
}

/// Consume the token `t`.
pub open spec fn expect(ts: Seq<Tok>, i: int, t: Tok) -> Result<int, Error> {
    if next_is(ts, i, t) {
        Ok(i + 1)
    } else {
        Err(ParseError::Expected { token: t, got: peek(ts, i) })
    }
}

/// The token that an error names where any name would do.
pub open spec fn some_name() -> Tok {
    Token::Ident("identifier"@)
}

/// Consume a name.
pub open spec fn ident(ts: Seq<Tok>, i: int) -> Parsed<Seq<char>> {
    match peek(ts, i) {
        Some(Token::Ident(n)) => Ok((n, i + 1)),
        got => Err(ParseError::Expected { token: some_name(), got }),
    }
}

/// The binary operators of each precedence level, from 1 (binds tightest)
/// to 10 (loosest).
pub open spec fn binary_op(level: nat, t: Tok) -> Option<Operator> {
    if level == 1 {
        match t {
            Token::Star => Some(Operator::Mul),
            Token::Slash => Some(Operator::Div),
            Token::Percent => Some(Operator::Mod),
            _ => None,
        }
    } else if level == 2 {
        match t {
            Token::Plus => Some(Operator::Add),
            Token::Minus => Some(Operator::Sub),
            _ => None,
        }
    } else if level == 3 {
        match t {
            Token::LessThanLessThan => Some(Operator::ShiftLeft),
            Token::GreaterThanGreaterThan => Some(Operator::ShiftRight),
            _ => None,
        }
    } else if level == 4 {
        match t {
            Token::Ampersand => Some(Operator::BitAnd),
            _ => None,
        }
    } else if level == 5 {
        match t {
            Token::Carat => Some(Operator::BitXor),
            _ => None,
        }
    } else if level == 6 {
        match t {
            Token::Pipe => Some(Operator::BitOr),
            _ => None,
        }
    } else if level == 7 {
        match t {
            Token::LessThan => Some(Operator::LT),
            Token::GreaterThan => Some(Operator::GT),
            Token::LessThanEquals => Some(Operator::LTE),
            Token::GreaterThanEquals => Some(Operator::GTE),
            _ => None,
        }
    } else if level == 8 {
        match t {
            Token::EqualsEquals => Some(Operator::Equal),
            Token::BangEquals => Some(Operator::NotEqual),
            _ => None,
        }
    } else if level == 9 {
        match t {
            Token::And => Some(Operator::And),
            _ => None,
        }
    } else if level == 10 {
        match t {
            Token::Or => Some(Operator::Or),
            _ => None,
        }
    } else {
        None
    }
}

/// The loosest precedence level.
pub open spec fn top_level() -> nat {
    10
}

pub open spec fn unary_op(t: Tok) -> Option<Operator> {
    match t {
        Token::Not => Some(Operator::Not),
        Token::Minus => Some(Operator::Sub),
        Token::Tilde => Some(Operator::BitNot),
        Token::Ampersand => Some(Operator::Address),
        Token::Star => Some(Operator::Deref),
        _ => None,
    }
}

pub open spec fn assign_op(t: Tok) -> Option<Operator> {
    match t {
        Token::Equals => Some(Operator::Assign),
        Token::PlusEquals => Some(Operator::AddAssign),
        Token::MinusEquals => Some(Operator::SubAssign),
        Token::StarEquals => Some(Operator::MulAssign),
        Token::SlashEquals => Some(Operator::DivAssign),
        Token::PercentEquals => Some(Operator::ModAssign),
        Token::LessThanLessThanEquals => Some(Operator::LShiftAssign),
        Token::GreaterThanGreaterThanEquals => Some(Operator::RShiftAssign),
        Token::AndEquals => Some(Operator::AndAssign),
        Token::CaratEquals => Some(Operator::XorAssign),
        Token::PipeEquals => Some(Operator::OrAssign),
        _ => None,
    }
}

pub open spec fn binop(l: ExprV, op: Operator, r: ExprV) -> ExprV {
    ExprV::Binop { lhs: Box::new(l), op, rhs: Box::new(r) }
}

// ---------------------------------------------------------------- types

/// `&T`, `[T]`, `()`, `(T, ...)` or a type name.
pub open spec fn p_type(ts: Seq<Tok>, i: int) -> Parsed<TypeV>
    decreases ts.len() - i, 4nat,
{
    match peek(ts, i) {
        Some(Token::Ampersand) => match p_type(ts, i + 1) {
            Ok((t, j)) => Ok((TypeV::Pointer(Box::new(t)), j)),
            Err(e) => Err(e),
        },
        Some(Token::OpenSquare) => match p_type(ts, i + 1) {
            Ok((t, j)) => match expect(ts, j, Token::CloseSquare) {
                Ok(k) => Ok((TypeV::Array(Box::new(t)), k)),
                Err(e) => Err(e),
            },
            Err(e) => Err(e),
        },
        Some(Token::OpenParen) => if next_is(ts, i + 1, Token::CloseParen) {
            Ok((TypeV::Unit, i + 2))
        } else {
            match p_types(ts, i + 1, Seq::empty()) {
                Ok((v, j)) => Ok((TypeV::Tuple(v), j)),
                Err(e) => Err(e),
            }
        },
        Some(Token::Ident(n)) => Ok((TypeV::Ident(n), i + 1)),
        Some(t) => Err(ParseError::Expected { token: Token::OpenParen, got: Some(t) }),
        None => Err(ParseError::UnexpectedEof),
    }
}

/// The rest of a parenthesized, comma-separated type list, after `acc`.
pub open spec fn p_types(ts: Seq<Tok>, i: int, acc: Seq<TypeV>) -> Parsed<Seq<TypeV>>
    decreases ts.len() - i, 5nat,
{
    if next_is(ts, i, Token::CloseParen) {
        Ok((acc, i + 1))
    } else {
        match p_type(ts, i) {
            Ok((t, j)) => if !advanced(i, j, ts.len() as int) {
                Err(ParseError::UnexpectedEof)
            } else if next_is(ts, j, Token::Comma) {
                p_types(ts, j + 1, acc.push(t))
            } else {
                match expect(ts, j, Token::CloseParen) {
                    Ok(k) => Ok((acc.push(t), k)),
                    Err(e) => Err(e),
                }
            },
            Err(e) => Err(e),
        }
    }
}

/// The rest of a comma-separated list of `name: Type` up to `closer`.
pub open spec fn p_typed_names(ts: Seq<Tok>, i: int, closer: Tok, acc: Seq<(Seq<char>, TypeV)>) -> Parsed<
    Seq<(Seq<char>, TypeV)>,
>
    decreases ts.len() - i,
{
    if next_is(ts, i, closer) {
        Ok((acc, i + 1))
    } else {
        match ident(ts, i) {
            Ok((n, j)) => match expect(ts, j, Token::Colon) {
                Ok(k) => match p_type(ts, k) {
                    Ok((t, m)) => if !advanced(i, m, ts.len() as int) {
                        Err(ParseError::UnexpectedEof)
                    } else if next_is(ts, m, Token::Comma) {
                        p_typed_names(ts, m + 1, closer, acc.push((n, t)))
                    } else {
                        match expect(ts, m, closer) {
                            Ok(q) => Ok((acc.push((n, t)), q)),
                            Err(e) => Err(e),
                        }
                    },
                    Err(e) => Err(e),
                },
                Err(e) => Err(e),
            },
            Err(e) => Err(e),
        }
    }
}

/// The rest of a comma-separated list of names up to `}`.
pub open spec fn p_names(ts: Seq<Tok>, i: int, acc: Seq<Seq<char>>) -> Parsed<Seq<Seq<char>>>
    decreases ts.len() - i,
{
    if next_is(ts, i, Token::CloseCurly) {
        Ok((acc, i + 1))
    } else {
        match ident(ts, i) {
            Ok((n, j)) => if next_is(ts, j, Token::Comma) {
                p_names(ts, j + 1, acc.push(n))
            } else {
                match expect(ts, j, Token::CloseCurly) {
                    Ok(k) => Ok((acc.push(n), k)),
                    Err(e) => Err(e),
                }
            },
            Err(e) => Err(e),
        }
    }
}

// ---------------------------------------------------------- expressions

/// An expression. With `ns` set, a name followed by `{` is not read as a
/// struct literal (the `{` opens a block instead).
pub open spec fn p_expr(ts: Seq<Tok>, i: int, ns: bool) -> Parsed<ExprV>
    decreases ts.len() - i, 23nat,
{
    p_binary(ts, i, top_level(), ns)
}

/// An expression whose binary operators are of `level` or tighter.
pub open spec fn p_binary(ts: Seq<Tok>, i: int, level: nat, ns: bool) -> Parsed<ExprV>
    decreases ts.len() - i, 12 + level,
{
    if level == 0 {
        p_unary(ts, i, ns)
    } else {
        match p_binary(ts, i, (level - 1) as nat, ns) {
            Ok((l, j)) => if advanced(i, j, ts.len() as int) {
                climb(ts, j, level, ns, l)
            } else {
                Err(ParseError::UnexpectedEof)
            },
            Err(e) => Err(e),
        }
    }
}

/// Operators of `level` and their right operands, folded to the left onto
/// `lhs`.
pub open spec fn climb(ts: Seq<Tok>, i: int, level: nat, ns: bool, lhs: ExprV) -> Parsed<ExprV>
    decreases ts.len() - i, 0nat,
{
    match peek(ts, i) {
        Some(t) => match binary_op(level, t) {
            Some(op) => match p_binary(ts, i + 1, (level - 1) as nat, ns) {
                Ok((r, j)) => if advanced(i, j, ts.len() as int) {
                    climb(ts, j, level, ns, binop(lhs, op, r))
                } else {
                    Err(ParseError::UnexpectedEof)
                },
                Err(e) => Err(e),
            },
            None => Ok((lhs, i)),
        },
        None => Ok((lhs, i)),
    }
}

/// Prefix operators, then a postfix expression.
pub open spec fn p_unary(ts: Seq<Tok>, i: int, ns: bool) -> Parsed<ExprV>
    decreases ts.len() - i, 11nat,
{
    match peek(ts, i) {
        Some(t) => match unary_op(t) {
            Some(op) => match p_unary(ts, i + 1, ns) {
                Ok((e, j)) => Ok((ExprV::Unop { op, expr: Box::new(e) }, j)),
                Err(e) => Err(e),
            },
            None => p_postfix(ts, i, ns),
        },
        None => p_postfix(ts, i, ns),
    }
}

/// A primary expression and its calls, subscripts and field accesses.
pub open spec fn p_postfix(ts: Seq<Tok>, i: int, ns: bool) -> Parsed<ExprV>
    decreases ts.len() - i, 10nat,
{
    match p_primary(ts, i, ns) {
        Ok((e, j)) => if advanced(i, j, ts.len() as int) {
            suffixes(ts, j, e)
        } else {
            Err(ParseError::UnexpectedEof)
        },
        Err(x) => Err(x),
    }
}

/// Calls, subscripts, `.name` and `->name` applied in turn to `e`.
pub open spec fn suffixes(ts: Seq<Tok>, i: int, e: ExprV) -> Parsed<ExprV>
    decreases ts.len() - i, 0nat,
{
    match peek(ts, i) {
        Some(Token::OpenParen) => match p_exprs(ts, i + 1, Token::CloseParen, Seq::empty()) {
            Ok((args, j)) => if advanced(i, j, ts.len() as int) {
                suffixes(ts, j, ExprV::Call { func: Box::new(e), args })
            } else {
                Err(ParseError::UnexpectedEof)
            },
            Err(x) => Err(x),
        },
        Some(Token::OpenSquare) => match p_expr(ts, i + 1, false) {
            Ok((x, j)) => if advanced(i, j, ts.len() as int) {
                match expect(ts, j, Token::CloseSquare) {
                    Ok(k) => suffixes(ts, k, ExprV::Subscript { obj: Box::new(e), idx: Box::new(x) }),
                    Err(x) => Err(x),
                }
            } else {
                Err(ParseError::UnexpectedEof)
            },
            Err(x) => Err(x),
        },
        Some(Token::Dot) => match ident(ts, i + 1) {
            Ok((n, j)) => suffixes(ts, j, ExprV::GetItem { obj: Box::new(e), item: n }),
            Err(x) => Err(x),
        },
        Some(Token::Arrow) => match ident(ts, i + 1) {
            Ok((n, j)) => suffixes(
                ts,
                j,
                ExprV::GetItem {
                    obj: Box::new(ExprV::Unop { op: Operator::Deref, expr: Box::new(e) }),
                    item: n,
                },
            ),
            Err(x) => Err(x),
        },
        _ => Ok((e, i)),
    }
}

/// A literal, a name, a struct literal, a list, a tuple or a
/// parenthesized expression.
pub open spec fn p_primary(ts: Seq<Tok>, i: int, ns: bool) -> Parsed<ExprV>
    decreases ts.len() - i, 9nat,
{
    match peek(ts, i) {
        Some(Token::Int(n)) => Ok((ExprV::Int(n), i + 1)),
        Some(Token::Str(s)) => Ok((ExprV::String(s), i + 1)),
        Some(Token::CharLit(c)) => Ok((ExprV::Char(c), i + 1)),
        Some(Token::Ident(n)) => if !ns && next_is(ts, i + 1, Token::OpenCurly) {
            match p_items(ts, i + 2, Seq::empty()) {
                Ok((items, j)) => Ok((ExprV::Struct { name: n, items }, j)),
                Err(e) => Err(e),
            }
        } else {
            Ok((ExprV::Ident(n), i + 1))
        },
        Some(Token::OpenSquare) => match p_exprs(ts, i + 1, Token::CloseSquare, Seq::empty()) {
            Ok((v, j)) => Ok((ExprV::List(v), j)),
            Err(e) => Err(e),
        },
        Some(Token::OpenParen) => p_paren(ts, i + 1),
        Some(t) => Err(ParseError::Expected { token: Token::OpenParen, got: Some(t) }),
        None => Err(ParseError::UnexpectedEof),
    }
}

/// What follows `(` in an expression: `)` for the empty tuple, a tuple (a
/// comma after the first element), or a parenthesized expression.
pub open spec fn p_paren(ts: Seq<Tok>, i: int) -> Parsed<ExprV>
    decreases ts.len() - i, 24nat,
{
    if next_is(ts, i, Token::CloseParen) {
        Ok((ExprV::Tuple(Seq::empty()), i + 1))
    } else {
        match p_expr(ts, i, false) {
            Ok((e, j)) => if !advanced(i, j, ts.len() as int) {
                Err(ParseError::UnexpectedEof)
            } else {
                p_paren_rest(ts, j, e)
            },
            Err(x) => Err(x),
        }
    }
}

/// What follows the first expression `e` inside parentheses: the rest of
/// a tuple, or the closing `)`.
pub open spec fn p_paren_rest(ts: Seq<Tok>, j: int, e: ExprV) -> Parsed<ExprV>
    decreases ts.len() - j, 0nat,
{
    if next_is(ts, j, Token::Comma) {
        match p_exprs(ts, j + 1, Token::CloseParen, seq![e]) {
            Ok((v, k)) => Ok((ExprV::Tuple(v), k)),
            Err(x) => Err(x),
        }
    } else {
        match expect(ts, j, Token::CloseParen) {
            Ok(k) => Ok((e, k)),
            Err(x) => Err(x),
        }
    }
}

/// The rest of a comma-separated expression list up to `closer`.
pub open spec fn p_exprs(ts: Seq<Tok>, i: int, closer: Tok, acc: Seq<ExprV>) -> Parsed<Seq<ExprV>>
    decreases ts.len() - i, 24nat,
{
    if next_is(ts, i, closer) {
        Ok((acc, i + 1))
    } else {
        match p_expr(ts, i, false) {
            Ok((e, j)) => if !advanced(i, j, ts.len() as int) {
                Err(ParseError::UnexpectedEof)
            } else if next_is(ts, j, Token::Comma) {
                p_exprs(ts, j + 1, closer, acc.push(e))
            } else {
                match expect(ts, j, closer) {
                    Ok(k) => Ok((acc.push(e), k)),
                    Err(x) => Err(x),
                }
            },
            Err(x) => Err(x),
        }
    }
}

/// The rest of a struct literal's `.field = value` list up to `}`.
pub open spec fn p_items(ts: Seq<Tok>, i: int, acc: Seq<(Seq<char>, ExprV)>) -> Parsed<
    Seq<(Seq<char>, ExprV)>,
>
    decreases ts.len() - i, 24nat,
{
    if next_is(ts, i, Token::CloseCurly) {
        Ok((acc, i + 1))
    } else {
        match expect(ts, i, Token::Dot) {
            Ok(j) => match ident(ts, j) {
                Ok((f, k)) => match expect(ts, k, Token::Equals) {
                    Ok(m) => match p_expr(ts, m, false) {
                        Ok((x, n)) => if !advanced(i, n, ts.len() as int) {
                            Err(ParseError::UnexpectedEof)
                        } else if next_is(ts, n, Token::Comma) {
                            p_items(ts, n + 1, acc.push((f, x)))
                        } else {
                            match expect(ts, n, Token::CloseCurly) {
                                Ok(q) => Ok((acc.push((f, x)), q)),
                                Err(e) => Err(e),
                            }
                        },
                        Err(e) => Err(e),
                    },
                    Err(e) => Err(e),
                },
                Err(e) => Err(e),
            },
            Err(e) => Err(e),
        }
    }
}

/// The binary operators of `level` and every looser level, folded in
/// turn onto `lhs`: how an expression continues after its first operand.
pub open spec fn climb_from(ts: Seq<Tok>, i: int, level: nat, ns: bool, lhs: ExprV) -> Parsed<ExprV>
    decreases top_level() + 1 - level,
{
    if level > top_level() {
        Ok((lhs, i))
    } else {
        match climb(ts, i, level, ns, lhs) {
            Ok((e, j)) => climb_from(ts, j, level + 1, ns, e),
            Err(x) => Err(x),
        }
    }
}

/// After the expression `e`, an optional `..` and the range's end.
pub open spec fn range_end(ts: Seq<Tok>, j: int, e: ExprV) -> Parsed<ExprV> {
    if next_is(ts, j, Token::DotDot) {
        match p_expr(ts, j + 1, true) {
            Ok((r, k)) => Ok((binop(e, Operator::Range, r), k)),
            Err(x) => Err(x),
        }
    } else {
        Ok((e, j))
    }
}

/// An over-expression whose first operand, the parenthesized `pe`, ends
/// at `k`: its suffixes, its binary operators, and an optional range end.
pub open spec fn range_tail(ts: Seq<Tok>, k: int, pe: ExprV) -> Parsed<ExprV> {
    match suffixes(ts, k, pe) {
        Ok((x, m)) => match climb_from(ts, m, 1, true, x) {
            Ok((y, n)) => range_end(ts, n, y),
            Err(e) => Err(e),
        },
        Err(e) => Err(e),
    }
}

/// What a for-loop iterates over: an expression, a range `a..b` of two,
/// or a parenthesized range `(a..b)`. A range is legal nowhere else.
pub open spec fn p_range(ts: Seq<Tok>, i: int) -> Parsed<ExprV> {
    if next_is(ts, i, Token::OpenParen) {
        if next_is(ts, i + 1, Token::CloseParen) {
            range_tail(ts, i + 2, ExprV::Tuple(Seq::empty()))
        } else {
            match p_expr(ts, i + 1, false) {
                Ok((e, j)) => if next_is(ts, j, Token::DotDot) {
                    match p_expr(ts, j + 1, false) {
                        Ok((r, k)) => match expect(ts, k, Token::CloseParen) {
                            Ok(m) => Ok((binop(e, Operator::Range, r), m)),
                            Err(x) => Err(x),
                        },
                        Err(x) => Err(x),
                    }
                } else {
                    match p_paren_rest(ts, j, e) {
                        Ok((pe, k)) => range_tail(ts, k, pe),
                        Err(x) => Err(x),
                    }
                },
                Err(x) => Err(x),
            }
        }
    } else {
        match p_expr(ts, i, true) {
            Ok((e, j)) => range_end(ts, j, e),
            Err(x) => Err(x),
        }
    }
}

// ----------------------------------------------------------- statements

/// `let [mut] name: Type = expr;`, after `let`.
pub open spec fn p_let(ts: Seq<Tok>, i: int) -> Parsed<AstV> {
    let m = next_is(ts, i, Token::Mut);
    let i1 = if m {
        i + 1
    } else {
        i
    };
    match ident(ts, i1) {
        Ok((n, j)) => match expect(ts, j, Token::Colon) {
            Ok(k) => match p_type(ts, k) {
                Ok((ty, l)) => match expect(ts, l, Token::Equals) {
                    Ok(q) => match p_expr(ts, q, false) {
                        Ok((e, r)) => match expect(ts, r, Token::Semicolon) {
                            Ok(z) => Ok((AstV::Let { name: n, mutable: m, ty, expr: e }, z)),
                            Err(x) => Err(x),
                        },
                        Err(x) => Err(x),
                    },
                    Err(x) => Err(x),
                },
                Err(x) => Err(x),
            },
            Err(x) => Err(x),
        },
        Err(x) => Err(x),
    }
}

/// `return;` or `return expr;`, after `return`.
pub open spec fn p_return(ts: Seq<Tok>, i: int) -> Parsed<AstV> {
    if next_is(ts, i, Token::Semicolon) {
        Ok((AstV::Return(None), i + 1))
    } else {
        match p_expr(ts, i, false) {
            Ok((e, j)) => match expect(ts, j, Token::Semicolon) {
                Ok(k) => Ok((AstV::Return(Some(e)), k)),
                Err(x) => Err(x),
            },
            Err(x) => Err(x),
        }
    }
}

/// `name { member: Type, ... }`, after `struct`.
pub open spec fn p_struct(ts: Seq<Tok>, i: int) -> Parsed<AstV> {
    match ident(ts, i) {
        Ok((n, j)) => match expect(ts, j, Token::OpenCurly) {
            Ok(k) => match p_typed_names(ts, k, Token::CloseCurly, Seq::empty()) {
                Ok((members, m)) => Ok((AstV::Struct { name: n, members }, m)),
                Err(x) => Err(x),
            },
            Err(x) => Err(x),
        },
        Err(x) => Err(x),
    }
}

/// `name { Variant, ... }`, after `enum` (or after `flag`, when `flag`).
pub open spec fn p_enum(ts: Seq<Tok>, i: int, flag: bool) -> Parsed<AstV> {
    match ident(ts, i) {
        Ok((n, j)) => match expect(ts, j, Token::OpenCurly) {
            Ok(k) => match p_names(ts, k, Seq::empty()) {
                Ok((variants, m)) => if flag {
                    Ok((AstV::Flag { name: n, variants }, m))
                } else {
                    Ok((AstV::Enum { name: n, variants }, m))
                },
                Err(x) => Err(x),
            },
            Err(x) => Err(x),
        },
        Err(x) => Err(x),
    }
}

/// An expression statement `expr;` or an assignment `lhs op= rhs;`.
pub open spec fn p_expr_stmt(ts: Seq<Tok>, i: int) -> Parsed<AstV> {
    match p_expr(ts, i, false) {
        Ok((e, j)) => {
            let op = match peek(ts, j) {
                Some(t) => assign_op(t),
                None => None,
            };
            match op {
                Some(op) => match p_expr(ts, j + 1, false) {
                    Ok((r, k)) => match expect(ts, k, Token::Semicolon) {
                        Ok(m) => Ok((AstV::Assign { lhs: e, op, rhs: r }, m)),
                        Err(x) => Err(x),
                    },
                    Err(x) => Err(x),
                },
                None => match expect(ts, j, Token::Semicolon) {
                    Ok(k) => Ok((AstV::Expr(e), k)),
                    Err(x) => Err(x),
                },
            }
        },
        Err(x) => Err(x),
    }
}

/// One statement, chosen by its first token.
pub open spec fn p_stmt(ts: Seq<Tok>, i: int) -> Parsed<AstV>
    decreases ts.len() - i, 29nat,
{
    match peek(ts, i) {
        Some(Token::Let) => p_let(ts, i + 1),
        Some(Token::If) => p_if(ts, i + 1),
        Some(Token::For) => p_for(ts, i + 1),
        Some(Token::While) => p_while(ts, i + 1),
        Some(Token::Switch) => p_switch(ts, i + 1),
        Some(Token::Return) => p_return(ts, i + 1),
        Some(Token::Fn) => p_fn(ts, i + 1),
        Some(Token::Struct) => p_struct(ts, i + 1),
        Some(Token::Enum) => p_enum(ts, i + 1, false),
        Some(Token::Flag) => p_enum(ts, i + 1, true),
        _ => p_expr_stmt(ts, i),
    }
}

/// `{ statement* }`.
pub open spec fn p_block(ts: Seq<Tok>, i: int) -> Parsed<Seq<AstV>>
    decreases ts.len() - i, 27nat,
{
    match expect(ts, i, Token::OpenCurly) {
        Ok(j) => p_stmts(ts, j, Seq::empty()),
        Err(x) => Err(x),
    }
}

/// The statements of a block after `acc`, through the closing `}`.
pub open spec fn p_stmts(ts: Seq<Tok>, i: int, acc: Seq<AstV>) -> Parsed<Seq<AstV>>
    decreases ts.len() - i, 30nat,
{
    match peek(ts, i) {
        Some(Token::CloseCurly) => Ok((acc, i + 1)),
        None => Err(ParseError::Expected { token: Token::CloseCurly, got: None }),
        _ => match p_stmt(ts, i) {
            Ok((s, j)) => if advanced(i, j, ts.len() as int) {
                p_stmts(ts, j, acc.push(s))
            } else {
                Err(ParseError::UnexpectedEof)
            },
            Err(x) => Err(x),
        },
    }
}

/// `(cond) { ... }` with an optional `else { ... }` or `else if ...`,
/// after `if`.
pub open spec fn p_if(ts: Seq<Tok>, i: int) -> Parsed<AstV>
    decreases ts.len() - i, 28nat,
{
    match expect(ts, i, Token::OpenParen) {
        Ok(j) => match p_expr(ts, j, false) {
            Ok((c, k)) => match expect(ts, k, Token::CloseParen) {
                Ok(l) => if !advanced(i, l, ts.len() as int) {
                    Err(ParseError::UnexpectedEof)
                } else {
                    match p_block(ts, l) {
                        Ok((then_, m)) => if !advanced(i, m, ts.len() as int) {
                            Err(ParseError::UnexpectedEof)
                        } else if !next_is(ts, m, Token::Else) {
                            Ok((AstV::IfElse { cond: c, then_, else_: None }, m))
                        } else if next_is(ts, m + 1, Token::If) {
                            match p_if(ts, m + 2) {
                                Ok((s, q)) => Ok(
                                    (AstV::IfElse { cond: c, then_, else_: Some(seq![s]) }, q),
                                ),
                                Err(x) => Err(x),
                            }
                        } else {
                            match p_block(ts, m + 1) {
                                Ok((b, q)) => Ok((AstV::IfElse { cond: c, then_, else_: Some(b) }, q)),
                                Err(x) => Err(x),
                            }
                        },
                        Err(x) => Err(x),
                    }
                },
                Err(x) => Err(x),
            },
            Err(x) => Err(x),
        },
        Err(x) => Err(x),
    }
}

/// `var: Type in over { ... }`, after `for`.
pub open spec fn p_for(ts: Seq<Tok>, i: int) -> Parsed<AstV>
    decreases ts.len() - i, 28nat,
{
    match ident(ts, i) {
        Ok((v, j)) => match expect(ts, j, Token::Colon) {
            Ok(k) => match p_type(ts, k) {
                Ok((ty, l)) => match expect(ts, l, Token::In) {
                    Ok(m) => match p_range(ts, m) {
                        Ok((over, q)) => if !advanced(i, q, ts.len() as int) {
                            Err(ParseError::UnexpectedEof)
                        } else {
                            match p_block(ts, q) {
                                Ok((block, z)) => Ok((AstV::For { var: v, ty, over, block }, z)),
                                Err(x) => Err(x),
                            }
                        },
                        Err(x) => Err(x),
                    },
                    Err(x) => Err(x),
                },
                Err(x) => Err(x),
            },
            Err(x) => Err(x),
        },
        Err(x) => Err(x),
    }
}

/// `(cond) { ... }`, after `while`.
pub open spec fn p_while(ts: Seq<Tok>, i: int) -> Parsed<AstV>
    decreases ts.len() - i, 28nat,
{
    match expect(ts, i, Token::OpenParen) {
        Ok(j) => match p_expr(ts, j, false) {
            Ok((c, k)) => match expect(ts, k, Token::CloseParen) {
                Ok(l) => if !advanced(i, l, ts.len() as int) {
                    Err(ParseError::UnexpectedEof)
                } else {
                    match p_block(ts, l) {
                        Ok((block, m)) => Ok((AstV::While { cond: c, block }, m)),
                        Err(x) => Err(x),
                    }
                },
                Err(x) => Err(x),
            },
            Err(x) => Err(x),
        },
        Err(x) => Err(x),
    }
}

/// `(subject) { case ... default ... }`, after `switch`.
pub open spec fn p_switch(ts: Seq<Tok>, i: int) -> Parsed<AstV>
    decreases ts.len() - i, 28nat,
{
    match expect(ts, i, Token::OpenParen) {
        Ok(j) => match p_expr(ts, j, false) {
            Ok((c, k)) => match expect(ts, k, Token::CloseParen) {
                Ok(l) => match expect(ts, l, Token::OpenCurly) {
                    Ok(m) => if !advanced(i, m, ts.len() as int) {
                        Err(ParseError::UnexpectedEof)
                    } else {
                        match p_cases(ts, m, Seq::empty()) {
                            Ok((cases, q)) => Ok((AstV::Switch { cond: c, cases }, q)),
                            Err(x) => Err(x),
                        }
                    },
                    Err(x) => Err(x),
                },
                Err(x) => Err(x),
            },
            Err(x) => Err(x),
        },
        Err(x) => Err(x),
    }
}

/// The arms of a switch after `acc`, through the closing `}`.
pub open spec fn p_cases(ts: Seq<Tok>, i: int, acc: Seq<CaseV>) -> Parsed<Seq<CaseV>>
    decreases ts.len() - i, 27nat,
{
    match peek(ts, i) {
        Some(Token::CloseCurly) => Ok((acc, i + 1)),
        Some(Token::Case) => match ident(ts, i + 1) {
            Ok((pattern, j)) => match expect(ts, j, Token::Colon) {
                Ok(k) => match p_arm(ts, k, Seq::empty()) {
                    Ok((body, m)) => if !advanced(i, m, ts.len() as int) {
                        Err(ParseError::UnexpectedEof)
                    } else {
                        p_cases(ts, m, acc.push(CaseV::Case { pattern, body }))
                    },
                    Err(x) => Err(x),
                },
                Err(x) => Err(x),
            },
            Err(x) => Err(x),
        },
        Some(Token::Default) => match expect(ts, i + 1, Token::Colon) {
            Ok(k) => match p_arm(ts, k, Seq::empty()) {
                Ok((body, m)) => if !advanced(i, m, ts.len() as int) {
                    Err(ParseError::UnexpectedEof)
                } else {
                    p_cases(ts, m, acc.push(CaseV::Default(body)))
                },
                Err(x) => Err(x),
            },
            Err(x) => Err(x),
        },
        got => Err(ParseError::Expected { token: Token::CloseCurly, got }),
    }
}

/// The statements of one switch arm after `acc`, up to (not through) the
/// next `case`, `default` or `}`.
pub open spec fn p_arm(ts: Seq<Tok>, i: int, acc: Seq<AstV>) -> Parsed<Seq<AstV>>
    decreases ts.len() - i, 30nat,
{
    match peek(ts, i) {
        Some(Token::Case) => Ok((acc, i)),
        Some(Token::Default) => Ok((acc, i)),
        Some(Token::CloseCurly) => Ok((acc, i)),
        None => Err(ParseError::Expected { token: Token::CloseCurly, got: None }),
        _ => match p_stmt(ts, i) {
            Ok((s, j)) => if advanced(i, j, ts.len() as int) {
                p_arm(ts, j, acc.push(s))
            } else {
                Err(ParseError::UnexpectedEof)
            },
            Err(x) => Err(x),
        },
    }
}

/// `name(param: Type, ...) [-> Type] { ... }`, after `fn`.
pub open spec fn p_fn(ts: Seq<Tok>, i: int) -> Parsed<AstV>
    decreases ts.len() - i, 28nat,
{
    match ident(ts, i) {
        Ok((name, j)) => match expect(ts, j, Token::OpenParen) {
            Ok(k) => match p_typed_names(ts, k, Token::CloseParen, Seq::empty()) {
                Ok((args, l)) => {
                    let ret = if next_is(ts, l, Token::Arrow) {
                        p_type(ts, l + 1)
                    } else {
                        Ok((TypeV::Unit, l))
                    };
                    match ret {
                        Ok((ret, m)) => if !advanced(i, m, ts.len() as int) {
                            Err(ParseError::UnexpectedEof)
                        } else {
                            match p_block(ts, m) {
                                Ok((body, q)) => Ok((AstV::Function { name, args, ret, body }, q)),
                                Err(x) => Err(x),
                            }
                        },
                        Err(x) => Err(x),
                    }
                },
                Err(x) => Err(x),
            },
            Err(x) => Err(x),
        },
        Err(x) => Err(x),
    }
}

/// The statements from `i` to the end of the input, after `acc`.
pub open spec fn p_file(ts: Seq<Tok>, i: int, acc: Seq<AstV>) -> Result<Seq<AstV>, Error>
    decreases ts.len() - i,
{
    if i < 0 || i >= ts.len() {
        Ok(acc)
    } else {
        match p_stmt(ts, i) {
            Ok((s, j)) => if advanced(i, j, ts.len() as int) {
                p_file(ts, j, acc.push(s))
            } else {
                Err(ParseError::UnexpectedEof)
            },
            Err(x) => Err(x),
        }
    }
}

/// A whole input read as one construct: `parsed` must use up every token,
/// and the tokens must run to the end of the text (`clean`).
pub open spec fn whole<V>(ts: Seq<Tok>, clean: bool, parsed: Parsed<V>) -> Result<V, Error> {
    match parsed {
        Ok((v, j)) => if 0 <= j < ts.len() {
            Err(ParseError::ExpectedEnd { got: ts[j] })
        } else if !clean {
            Err(ParseError::UnexpectedEof)
        } else {
            Ok(v)
        },
        Err(x) => Err(x),
    }
}

/// The statements of a whole source text, given its tokens.
pub open spec fn parse_file(ts: Seq<Tok>, clean: bool) -> Result<Seq<AstV>, Error> {
    match p_file(ts, 0, Seq::empty()) {
        Ok(v) => if clean {
            Ok(v)
        } else {
            Err(ParseError::UnexpectedEof)
        },
        Err(x) => Err(x),
    }
}

} // verus!
