//! The recursive-descent parser. Each parsing function is proved to
//! compute exactly what the matching function of `grammar` specifies.
use vstd::prelude::*;
use crate::ast::{
    Ast, AstV, Case, CaseV, Expr, ExprV, Operator, Type, TypeV, asts_view, cases_view, case_view,
    exprs_view, items_view, names_view, typed_names_view, types_view,
};
use crate::error::{Error, ParseError};
use crate::grammar::{
    Parsed, advanced, assign_op, binary_op, expect, ident, next_is, p_arm, p_binary, p_block,
    p_cases, p_enum, p_expr, p_expr_stmt, p_exprs, p_file, p_fn, p_for, p_if, p_items, p_let,
    p_names, p_paren, p_postfix, p_primary, p_range, p_return, p_stmt, p_stmts, p_struct,
    p_switch, p_type, p_typed_names, p_types, p_unary, p_while, parse_file, peek,
    unary_op, whole, climb, suffixes, climb_from, p_paren_rest, range_end, range_tail,
};
use crate::lexer::{Lexer, lexes_cleanly, tokens_of};
use crate::token::{Tok, Token, opt_view};

verus! {

/// A successful parse of `v` ending at `end`.
pub open spec fn ok_at<V>(v: V, end: int) -> Parsed<V> {
    Ok((v, end))
}

/// A parse that failed with `e`.
pub open spec fn failed<V>(e: Error) -> Parsed<V> {
    Err(e)
}

/// Whether an executable result agrees with a specified one: the same tree
/// ending at `end`, past `start`, or the same error.
pub open spec fn agrees<T: View>(
    s: Parsed<T::V>,
    r: Result<T, ParseError<&str>>,
    start: int,
    end: int,
    n: int,
) -> bool {
    match r {
        Ok(v) => s == ok_at(v@, end) && advanced(start, end, n),
        Err(x) => s == failed::<T::V>(x@),
    }
}

/// The binary operator that `t` denotes at precedence `level`.
fn binary_op_at<'a>(level: u64, t: &Token<&'a str>) -> (r: Option<Operator>)
    ensures
        r == binary_op(level as nat, t@),
{
    if level == 1 {
        match t {
            Token::Star => Some(Operator::Mul),
            Token::Slash => Some(Operator::Div),
            Token::Percent => Some(Operator::Mod),
            _ => None,
        }
    } else if level == 2 {
        match t {
            Token::Plus => Some(Operator::Add),
            Token::Minus => Some(Operator::Sub),
            _ => None,
        }
    } else if level == 3 {
        match t {
            Token::LessThanLessThan => Some(Operator::ShiftLeft),
            Token::GreaterThanGreaterThan => Some(Operator::ShiftRight),
            _ => None,
        }
    } else if level == 4 {
        match t {
            Token::Ampersand => Some(Operator::BitAnd),
            _ => None,
        }
    } else if level == 5 {
        match t {
            Token::Carat => Some(Operator::BitXor),
            _ => None,
        }
    } else if level == 6 {
        match t {
            Token::Pipe => Some(Operator::BitOr),
            _ => None,
        }
    } else if level == 7 {
        match t {
            Token::LessThan => Some(Operator::LT),
            Token::GreaterThan => Some(Operator::GT),
            Token::LessThanEquals => Some(Operator::LTE),
            Token::GreaterThanEquals => Some(Operator::GTE),
            _ => None,
        }
    } else if level == 8 {
        match t {
            Token::EqualsEquals => Some(Operator::Equal),
            Token::BangEquals => Some(Operator::NotEqual),
            _ => None,
        }
    } else if level == 9 {
        match t {
            Token::And => Some(Operator::And),
            _ => None,
        }
    } else if level == 10 {
        match t {
            Token::Or => Some(Operator::Or),
            _ => None,
        }
    } else {
        None
    }
}

fn unary_op_of<'a>(t: &Token<&'a str>) -> (r: Option<Operator>)
    ensures
        r == unary_op(t@),
{
    match t {
        Token::Not => Some(Operator::Not),
        Token::Minus => Some(Operator::Sub),
        Token::Tilde => Some(Operator::BitNot),
        Token::Ampersand => Some(Operator::Address),
        Token::Star => Some(Operator::Deref),
        _ => None,
    }
}

fn assign_op_of<'a>(t: &Token<&'a str>) -> (r: Option<Operator>)
    ensures
        r == assign_op(t@),
{
    match t {
        Token::Equals => Some(Operator::Assign),
        Token::PlusEquals => Some(Operator::AddAssign),
        Token::MinusEquals => Some(Operator::SubAssign),
        Token::StarEquals => Some(Operator::MulAssign),
        Token::SlashEquals => Some(Operator::DivAssign),
        Token::PercentEquals => Some(Operator::ModAssign),
        Token::LessThanLessThanEquals => Some(Operator::LShiftAssign),
        Token::GreaterThanGreaterThanEquals => Some(Operator::RShiftAssign),
        Token::AndEquals => Some(Operator::AndAssign),
        Token::CaratEquals => Some(Operator::XorAssign),
        Token::PipeEquals => Some(Operator::OrAssign),
        _ => None,
    }
}

/// A one-token-lookahead cursor over a lexer's tokens. `toks` is the whole
/// token sequence the lexer produces and `idx` the position of the
/// lookahead token in it.
struct Parser<'a> {
    lexer: Lexer<'a>,
    peeked: Option<Token<&'a str>>,
    toks: Ghost<Seq<Tok>>,
    idx: Ghost<int>,
    clean: Ghost<bool>,
}

impl<'a> Parser<'a> {
    spec fn ts(&self) -> Seq<Tok> {
        self.toks@
    }

    spec fn pos(&self) -> int {
        self.idx@
    }

    spec fn len(&self) -> int {
        self.toks@.len() as int
    }

    spec fn wf(&self) -> bool {
        &&& self.lexer.wf()
        &&& 0 <= self.idx@ <= self.toks@.len()
        &&& opt_view(self.peeked) == peek(self.toks@, self.idx@)
        &&& if self.idx@ < self.toks@.len() {
            self.lexer.rest() == self.toks@.subrange(self.idx@ + 1, self.toks@.len() as int)
        } else {
            self.lexer.rest().len() == 0
        }
        &&& self.lexer.clean() == self.clean@
    }

    /// Same token stream, still well formed.
    spec fn follows(&self, before: &Parser<'a>) -> bool {
        &&& self.wf()
        &&& self.toks@ == before.toks@
        &&& self.clean@ == before.clean@
    }

    fn new(lexer: Lexer<'a>) -> (p: Parser<'a>)
        requires
            lexer.wf(),
        ensures
            p.wf(),
            p.ts() == lexer.rest(),
            p.pos() == 0,
            p.clean@ == lexer.clean(),
    {
        let mut lexer = lexer;
        let ghost all = lexer.rest();
        let ghost clean = lexer.clean();
        let first = lexer.next_token();
        proof {
            if all.len() > 0 {
                assert(all.drop_first() =~= all.subrange(1, all.len() as int));
            }
        }
        Parser { lexer, peeked: first, toks: Ghost(all), idx: Ghost(0), clean: Ghost(clean) }
    }

    fn peek(&self) -> (r: Option<Token<&'a str>>)
        requires
            self.wf(),
        ensures
            opt_view(r) == peek(self.ts(), self.pos()),
    {
        self.peeked
    }

    fn advance(&mut self)
        requires
            old(self).wf(),
            old(self).pos() < old(self).len(),
        ensures
            final(self).follows(old(self)),
            final(self).pos() == old(self).pos() + 1,
    {
        let ghost ts = self.toks@;
        let ghost i = self.idx@;
        let next = self.lexer.next_token();
        self.peeked = next;
        self.idx = Ghost(i + 1);
        proof {
            if i + 1 < ts.len() {
                assert(ts.subrange(i + 1, ts.len() as int).drop_first() =~= ts.subrange(
                    i + 2,
                    ts.len() as int,
                ));
            }
        }
    }

    /// Whether the lookahead is the plain token `t`.
    fn at(&self, t: Token<&'a str>) -> (r: bool)
        requires
            self.wf(),
            t.is_plain(),
        ensures
            r == next_is(self.ts(), self.pos(), t@),
    {
        match self.peeked {
            Some(p) => p.same_as(&t),
            None => false,
        }
    }

    fn expect(&mut self, t: Token<&'a str>) -> (r: Result<(), ParseError<&'a str>>)
        requires
            old(self).wf(),
            t.is_plain(),
        ensures
            final(self).follows(old(self)),
            match expect(old(self).ts(), old(self).pos(), t@) {
                Ok(j) => r is Ok && final(self).pos() == j,
                Err(e) => r is Err && r->Err_0@ == e,
            },
    {
        if self.at(t) {
            self.advance();
            Ok(())
        } else {
            Err(ParseError::Expected { token: t, got: self.peeked })
        }
    }

    fn ident(&mut self) -> (r: Result<&'a str, ParseError<&'a str>>)
        requires
            old(self).wf(),
        ensures
            final(self).follows(old(self)),
            match ident(old(self).ts(), old(self).pos()) {
                Ok((n, j)) => r is Ok && r->Ok_0@ == n && final(self).pos() == j,
                Err(e) => r is Err && r->Err_0@ == e,
            },
    {
        match self.peeked {
            Some(Token::Ident(n)) => {
                self.advance();
                Ok(n)
            },
            got => Err(ParseError::Expected { token: Token::Ident("identifier"), got }),
        }
    }

    fn parse_type(&mut self) -> (r: Result<Type<'a>, ParseError<&'a str>>)
        requires
            old(self).wf(),
        ensures
            final(self).follows(old(self)),
            agrees(p_type(old(self).ts(), old(self).pos()), r, old(self).pos(), final(self).pos(), old(self).len()),
        decreases old(self).len() - old(self).pos(), 4nat,
    {
        match self.peeked {
            Some(Token::Ampersand) => {
                self.advance();
                let t = match self.parse_type() {
                Ok(x) => x,
                Err(e) => return Err(e),
            };
                Ok(Type::Pointer(Box::new(t)))
            },
            Some(Token::OpenSquare) => {
                self.advance();
                let t = match self.parse_type() {
                Ok(x) => x,
                Err(e) => return Err(e),
            };
                if let Err(e) = self.expect(Token::CloseSquare) {
                    return Err(e);
                }
                Ok(Type::Array(Box::new(t)))
            },
            Some(Token::OpenParen) => {
                self.advance();
                if self.at(Token::CloseParen) {
                    self.advance();
                    Ok(Type::Unit)
                } else {
                    let v = match self.parse_types() {
                Ok(x) => x,
                Err(e) => return Err(e),
            };
                    Ok(Type::Tuple(v))
                }
            },
            Some(Token::Ident(n)) => {
                self.advance();
                Ok(Type::Ident(n))
            },
            Some(t) => Err(ParseError::Expected { token: Token::OpenParen, got: Some(t) }),
            None => Err(ParseError::UnexpectedEof),
        }
    }

    /// The elements of a parenthesized type list, through the `)`.
    fn parse_types(&mut self) -> (r: Result<Vec<Type<'a>>, ParseError<&'a str>>)
        requires
            old(self).wf(),
        ensures
            final(self).follows(old(self)),
            match r {
                Ok(v) => p_types(old(self).ts(), old(self).pos(), Seq::empty()) == ok_at(
                    types_view(v@),
                    final(self).pos(),
                ) && advanced(old(self).pos(), final(self).pos(), old(self).len()),
                Err(x) => p_types(old(self).ts(), old(self).pos(), Seq::empty()) == failed::<Seq<TypeV>>(x@),
            },
        decreases old(self).len() - old(self).pos(), 5nat,
    {
        let ghost ts = self.toks@;
        let ghost start = self.idx@;
        let mut v: Vec<Type<'a>> = Vec::new();
        loop
            invariant
                self.follows(old(self)),
                ts == self.ts(),
                ts == old(self).ts(),
                start == old(self).pos(),
                start <= self.pos(),
                v@.len() > 0 ==> start < self.pos(),
                p_types(ts, start, Seq::empty()) == p_types(ts, self.pos(), types_view(v@)),
            decreases self.len() - self.pos(),
        {
            if self.at(Token::CloseParen) {
                self.advance();
                return Ok(v);
            }
            let t = match self.parse_type() {
                Ok(x) => x,
                Err(e) => return Err(e),
            };
            proof {
                assert(v@.push(t).drop_last() =~= v@);
            }
            v.push(t);
            if self.at(Token::Comma) {
                self.advance();
            } else {
                if let Err(e) = self.expect(Token::CloseParen) {
                    return Err(e);
                }
                return Ok(v);
            }
        }
    }

    /// A list of named, typed entries (`name: Type`) up to `closer`.
    fn parse_typed_names(&mut self, closer: Token<&'a str>) -> (r: Result<
        Vec<(&'a str, Type<'a>)>,
        ParseError<&'a str>,
    >)
        requires
            old(self).wf(),
            closer.is_plain(),
        ensures
            final(self).follows(old(self)),
            match r {
                Ok(v) => p_typed_names(old(self).ts(), old(self).pos(), closer@, Seq::empty()) == ok_at(
                    typed_names_view(v@),
                    final(self).pos(),
                ) && advanced(old(self).pos(), final(self).pos(), old(self).len()),
                Err(x) => p_typed_names(old(self).ts(), old(self).pos(), closer@, Seq::empty())
                    == failed::<Seq<(Seq<char>, TypeV)>>(x@),
            },
    {
        let ghost ts = self.toks@;
        let ghost start = self.idx@;
        let mut v: Vec<(&'a str, Type<'a>)> = Vec::new();
        loop
            invariant
                self.follows(old(self)),
                ts == self.ts(),
                ts == old(self).ts(),
                start == old(self).pos(),
                start <= self.pos(),
                closer.is_plain(),
                p_typed_names(ts, start, closer@, Seq::empty()) == p_typed_names(
                    ts,
                    self.pos(),
                    closer@,
                    typed_names_view(v@),
                ),
            decreases self.len() - self.pos(),
        {
            if self.at(closer) {
                self.advance();
                return Ok(v);
            }
            let n = match self.ident() {
                Ok(x) => x,
                Err(e) => return Err(e),
            };
            if let Err(e) = self.expect(Token::Colon) {
                return Err(e);
            }
            let t = match self.parse_type() {
                Ok(x) => x,
                Err(e) => return Err(e),
            };
            proof {
                assert(v@.push((n, t)).drop_last() =~= v@);
            }
            v.push((n, t));
            if self.at(Token::Comma) {
                self.advance();
            } else {
                if let Err(e) = self.expect(closer) {
                    return Err(e);
                }
                return Ok(v);
            }
        }
    }

    /// A list of names up to `}`.
    fn parse_names(&mut self) -> (r: Result<Vec<&'a str>, ParseError<&'a str>>)
        requires
            old(self).wf(),
        ensures
            final(self).follows(old(self)),
            match r {
                Ok(v) => p_names(old(self).ts(), old(self).pos(), Seq::empty()) == ok_at(
                    names_view(v@),
                    final(self).pos(),
                ) && advanced(old(self).pos(), final(self).pos(), old(self).len()),
                Err(x) => p_names(old(self).ts(), old(self).pos(), Seq::empty()) == failed::<
                    Seq<Seq<char>>,
                >(x@),
            },
    {
        let ghost ts = self.toks@;
        let ghost start = self.idx@;
        let mut v: Vec<&'a str> = Vec::new();
        assert(names_view(v@) =~= Seq::empty());
        loop
            invariant
                self.follows(old(self)),
                ts == self.ts(),
                ts == old(self).ts(),
                start == old(self).pos(),
                start <= self.pos(),
                p_names(ts, start, Seq::empty()) == p_names(ts, self.pos(), names_view(v@)),
            decreases self.len() - self.pos(),
        {
            if self.at(Token::CloseCurly) {
                self.advance();
                return Ok(v);
            }
            let n = match self.ident() {
                Ok(x) => x,
                Err(e) => return Err(e),
            };
            proof {
                assert(names_view(v@.push(n)) =~= names_view(v@).push(n@));
            }
            v.push(n);
            if self.at(Token::Comma) {
                self.advance();
            } else {
                if let Err(e) = self.expect(Token::CloseCurly) {
                    return Err(e);
                }
                return Ok(v);
            }
        }
    }

    fn parse_expr(&mut self, ns: bool) -> (r: Result<Expr<'a>, ParseError<&'a str>>)
        requires
            old(self).wf(),
        ensures
            final(self).follows(old(self)),
            agrees(p_expr(old(self).ts(), old(self).pos(), ns), r, old(self).pos(), final(self).pos(), old(self).len()),
        decreases old(self).len() - old(self).pos(), 23nat,
    {
        self.parse_binary(10, ns)
    }

    /// Precedence climbing at `level`: operands one level tighter, folded
    /// to the left.
    fn parse_binary(&mut self, level: u64, ns: bool) -> (r: Result<Expr<'a>, ParseError<&'a str>>)
        requires
            old(self).wf(),
            level <= 10,
        ensures
            final(self).follows(old(self)),
            agrees(p_binary(old(self).ts(), old(self).pos(), level as nat, ns), r, old(self).pos(), final(self).pos(), old(self).len()),
        decreases old(self).len() - old(self).pos(), 12 + level,
    {
        if level == 0 {
            return self.parse_unary(ns);
        }
        let lhs = match self.parse_binary(level - 1, ns) {
            Ok(x) => x,
            Err(e) => return Err(e),
        };
        self.parse_climb(level, ns, lhs)
    }

    /// The operators of `level` and their right operands, folded to the left
    /// onto `lhs`.
    fn parse_climb(&mut self, level: u64, ns: bool, operand: Expr<'a>) -> (r: Result<Expr<'a>, ParseError<&'a str>>)
        requires
            old(self).wf(),
            1 <= level <= 10,
        ensures
            final(self).follows(old(self)),
            match r {
                Ok(e) => climb(old(self).ts(), old(self).pos(), level as nat, ns, operand@) == ok_at(
                    e@,
                    final(self).pos(),
                ) && old(self).pos() <= final(self).pos(),
                Err(x) => climb(old(self).ts(), old(self).pos(), level as nat, ns, operand@) == failed::<
                    ExprV,
                >(x@),
            },
        decreases old(self).len() - old(self).pos(), 0nat,
    {
        let ghost ts = self.toks@;
        let ghost start = self.idx@;
        let mut lhs = operand;
        loop
            invariant
                self.follows(old(self)),
                ts == self.ts(),
                ts == old(self).ts(),
                start == old(self).pos(),
                start <= self.pos(),
                1 <= level <= 10,
                climb(ts, start, level as nat, ns, operand@) == climb(ts, self.pos(), level as nat, ns, lhs@),
            decreases self.len() - self.pos(),
        {
            let op = match self.peeked {
                Some(t) => binary_op_at(level, &t),
                None => None,
            };
            match op {
                Some(op) => {
                    self.advance();
                    let rhs = match self.parse_binary(level - 1, ns) {
                        Ok(x) => x,
                        Err(e) => return Err(e),
                    };
                    lhs = Expr::Binop { lhs: Box::new(lhs), op, rhs: Box::new(rhs) };
                },
                None => {
                    return Ok(lhs);
                },
            }
        }
    }

    fn parse_unary(&mut self, ns: bool) -> (r: Result<Expr<'a>, ParseError<&'a str>>)
        requires
            old(self).wf(),
        ensures
            final(self).follows(old(self)),
            agrees(p_unary(old(self).ts(), old(self).pos(), ns), r, old(self).pos(), final(self).pos(), old(self).len()),
        decreases old(self).len() - old(self).pos(), 11nat,
    {
        let op = match self.peeked {
            Some(t) => unary_op_of(&t),
            None => None,
        };
        match op {
            Some(op) => {
                self.advance();
                let e = match self.parse_unary(ns) {
                    Ok(x) => x,
                    Err(e) => return Err(e),
                };
                Ok(Expr::Unop { op, expr: Box::new(e) })
            },
            None => self.parse_postfix(ns),
        }
    }

    fn parse_postfix(&mut self, ns: bool) -> (r: Result<Expr<'a>, ParseError<&'a str>>)
        requires
            old(self).wf(),
        ensures
            final(self).follows(old(self)),
            agrees(p_postfix(old(self).ts(), old(self).pos(), ns), r, old(self).pos(), final(self).pos(), old(self).len()),
        decreases old(self).len() - old(self).pos(), 10nat,
    {
        let e = match self.parse_primary(ns) {
            Ok(x) => x,
            Err(e) => return Err(e),
        };
        self.parse_suffixes(e)
    }

    /// Calls, subscripts and field accesses applied in turn to `operand`.
    fn parse_suffixes(&mut self, operand: Expr<'a>) -> (r: Result<Expr<'a>, ParseError<&'a str>>)
        requires
            old(self).wf(),
        ensures
            final(self).follows(old(self)),
            match r {
                Ok(e) => suffixes(old(self).ts(), old(self).pos(), operand@) == ok_at(e@, final(self).pos())
                    && old(self).pos() <= final(self).pos(),
                Err(x) => suffixes(old(self).ts(), old(self).pos(), operand@) == failed::<ExprV>(x@),
            },
        decreases old(self).len() - old(self).pos(), 1nat,
    {
        let ghost ts = self.toks@;
        let ghost start = self.idx@;
        let mut e = operand;
        loop
            invariant
                self.follows(old(self)),
                ts == self.ts(),
                ts == old(self).ts(),
                start == old(self).pos(),
                start <= self.pos(),
                suffixes(ts, start, operand@) == suffixes(ts, self.pos(), e@),
            decreases self.len() - self.pos(),
        {
            match self.parse_suffix(e) {
                Ok((next, applied)) => {
                    if applied {
                        e = next;
                    } else {
                        return Ok(next);
                    }
                },
                Err(x) => {
                    return Err(x);
                },
            }
        }
    }

    /// One call, subscript or field access applied to `e`, if one follows;
    /// the flag says whether one did.
    fn parse_suffix(&mut self, e: Expr<'a>) -> (r: Result<(Expr<'a>, bool), ParseError<&'a str>>)
        requires
            old(self).wf(),
        ensures
            final(self).follows(old(self)),
            match r {
                Ok((f, applied)) => if applied {
                    suffixes(old(self).ts(), old(self).pos(), e@) == suffixes(
                        old(self).ts(),
                        final(self).pos(),
                        f@,
                    ) && advanced(old(self).pos(), final(self).pos(), old(self).len())
                } else {
                    suffixes(old(self).ts(), old(self).pos(), e@) == ok_at(e@, old(self).pos())
                        && f@ == e@ && final(self).pos() == old(self).pos()
                },
                Err(x) => suffixes(old(self).ts(), old(self).pos(), e@) == failed::<ExprV>(x@),
            },
        decreases old(self).len() - old(self).pos(), 0nat,
    {
        let ghost ev = e@;
        if self.at(Token::OpenParen) {
            self.advance();
            let none: Vec<Expr<'a>> = Vec::new();
            assert(exprs_view(none@) =~= Seq::<ExprV>::empty());
            let args = match self.parse_exprs(Token::CloseParen, none) {
                Ok(x) => x,
                Err(x) => return Err(x),
            };
            Ok((Expr::Call { func: Box::new(e), args }, true))
        } else if self.at(Token::OpenSquare) {
            self.advance();
            let idx = match self.parse_expr(false) {
                Ok(x) => x,
                Err(x) => return Err(x),
            };
            if let Err(x) = self.expect(Token::CloseSquare) {
                return Err(x);
            }
            Ok((Expr::Subscript { obj: Box::new(e), idx: Box::new(idx) }, true))
        } else if self.at(Token::Dot) {
            self.advance();
            let item = match self.ident() {
                Ok(x) => x,
                Err(x) => return Err(x),
            };
            Ok((Expr::GetItem { obj: Box::new(e), item }, true))
        } else if self.at(Token::Arrow) {
            self.advance();
            let item = match self.ident() {
                Ok(x) => x,
                Err(x) => return Err(x),
            };
            let deref = Expr::Unop { op: Operator::Deref, expr: Box::new(e) };
            assert(deref@ == ExprV::Unop { op: Operator::Deref, expr: Box::new(ev) });
            Ok((Expr::GetItem { obj: Box::new(deref), item }, true))
        } else {
            Ok((e, false))
        }
    }

    fn parse_primary(&mut self, ns: bool) -> (r: Result<Expr<'a>, ParseError<&'a str>>)
        requires
            old(self).wf(),
        ensures
            final(self).follows(old(self)),
            agrees(p_primary(old(self).ts(), old(self).pos(), ns), r, old(self).pos(), final(self).pos(), old(self).len()),
        decreases old(self).len() - old(self).pos(), 9nat,
    {
        match self.peeked {
            Some(Token::Int(n)) => {
                self.advance();
                Ok(Expr::Int(n))
            },
            Some(Token::Str(s)) => {
                self.advance();
                Ok(Expr::String(s))
            },
            Some(Token::CharLit(c)) => {
                self.advance();
                Ok(Expr::Char(c))
            },
            Some(Token::Ident(n)) => {
                self.advance();
                if !ns && self.at(Token::OpenCurly) {
                    self.advance();
                    let items = match self.parse_items() {
                        Ok(x) => x,
                        Err(e) => return Err(e),
                    };
                    Ok(Expr::Struct { name: n, items })
                } else {
                    Ok(Expr::Ident(n))
                }
            },
            Some(Token::OpenSquare) => {
                self.advance();
                let none: Vec<Expr<'a>> = Vec::new();
                assert(exprs_view(none@) =~= Seq::<ExprV>::empty());
                let v = match self.parse_exprs(Token::CloseSquare, none) {
                    Ok(x) => x,
                    Err(e) => return Err(e),
                };
                Ok(Expr::List(v))
            },
            Some(Token::OpenParen) => {
                self.advance();
                self.parse_paren()
            },
            Some(t) => Err(ParseError::Expected { token: Token::OpenParen, got: Some(t) }),
            None => Err(ParseError::UnexpectedEof),
        }
    }

    /// What follows `(` in an expression.
    fn parse_paren(&mut self) -> (r: Result<Expr<'a>, ParseError<&'a str>>)
        requires
            old(self).wf(),
        ensures
            final(self).follows(old(self)),
            agrees(p_paren(old(self).ts(), old(self).pos()), r, old(self).pos(), final(self).pos(), old(self).len()),
        decreases old(self).len() - old(self).pos(), 24nat,
    {
        if self.at(Token::CloseParen) {
            self.advance();
            let v: Vec<Expr<'a>> = Vec::new();
            assert(exprs_view(v@) =~= Seq::<ExprV>::empty());
            return Ok(Expr::Tuple(v));
        }
        let e = match self.parse_expr(false) {
            Ok(x) => x,
            Err(e) => return Err(e),
        };
        self.parse_paren_rest(e)
    }

    /// After the first expression `e` inside parentheses: the rest of a
    /// tuple, or the closing `)`.
    fn parse_paren_rest(&mut self, e: Expr<'a>) -> (r: Result<Expr<'a>, ParseError<&'a str>>)
        requires
            old(self).wf(),
        ensures
            final(self).follows(old(self)),
            agrees(p_paren_rest(old(self).ts(), old(self).pos(), e@), r, old(self).pos(), final(self).pos(), old(self).len()),
        decreases old(self).len() - old(self).pos(), 0nat,
    {
        if self.at(Token::Comma) {
            self.advance();
            let mut first: Vec<Expr<'a>> = Vec::new();
            first.push(e);
            proof {
                assert(first@.drop_last() =~= Seq::<Expr<'a>>::empty());
                assert(exprs_view(Seq::<Expr<'a>>::empty()) =~= Seq::<ExprV>::empty());
                assert(exprs_view(first@) =~= seq![e@]);
            }
            let v = match self.parse_exprs(Token::CloseParen, first) {
                Ok(x) => x,
                Err(e) => return Err(e),
            };
            Ok(Expr::Tuple(v))
        } else {
            if let Err(e) = self.expect(Token::CloseParen) {
                return Err(e);
            }
            Ok(e)
        }
    }

    /// The rest of an expression list after `acc`, through `closer`.
    fn parse_exprs(&mut self, closer: Token<&'a str>, acc: Vec<Expr<'a>>) -> (r: Result<
        Vec<Expr<'a>>,
        ParseError<&'a str>,
    >)
        requires
            old(self).wf(),
            closer.is_plain(),
        ensures
            final(self).follows(old(self)),
            match r {
                Ok(v) => p_exprs(old(self).ts(), old(self).pos(), closer@, exprs_view(acc@)) == ok_at(
                    exprs_view(v@),
                    final(self).pos(),
                ) && advanced(old(self).pos(), final(self).pos(), old(self).len()),
                Err(x) => p_exprs(old(self).ts(), old(self).pos(), closer@, exprs_view(acc@))
                    == failed::<Seq<ExprV>>(x@),
            },
        decreases old(self).len() - old(self).pos(), 24nat,
    {
        let ghost ts = self.toks@;
        let ghost start = self.idx@;
        let mut v = acc;
        loop
            invariant
                self.follows(old(self)),
                ts == self.ts(),
                ts == old(self).ts(),
                start == old(self).pos(),
                start <= self.pos(),
                closer.is_plain(),
                p_exprs(ts, start, closer@, exprs_view(acc@)) == p_exprs(
                    ts,
                    self.pos(),
                    closer@,
                    exprs_view(v@),
                ),
            decreases self.len() - self.pos(),
        {
            if self.at(closer) {
                self.advance();
                return Ok(v);
            }
            let e = match self.parse_expr(false) {
                Ok(x) => x,
                Err(e) => return Err(e),
            };
            proof {
                assert(v@.push(e).drop_last() =~= v@);
            }
            v.push(e);
            if self.at(Token::Comma) {
                self.advance();
            } else {
                if let Err(e) = self.expect(closer) {
                    return Err(e);
                }
                return Ok(v);
            }
        }
    }

    /// The `.field = value` entries of a struct literal, through `}`.
    fn parse_items(&mut self) -> (r: Result<Vec<(&'a str, Expr<'a>)>, ParseError<&'a str>>)
        requires
            old(self).wf(),
        ensures
            final(self).follows(old(self)),
            match r {
                Ok(v) => p_items(old(self).ts(), old(self).pos(), Seq::empty()) == ok_at(
                    items_view(v@),
                    final(self).pos(),
                ) && advanced(old(self).pos(), final(self).pos(), old(self).len()),
                Err(x) => p_items(old(self).ts(), old(self).pos(), Seq::empty()) == failed::<
                    Seq<(Seq<char>, ExprV)>,
                >(x@),
            },
        decreases old(self).len() - old(self).pos(), 24nat,
    {
        let ghost ts = self.toks@;
        let ghost start = self.idx@;
        let mut v: Vec<(&'a str, Expr<'a>)> = Vec::new();
        loop
            invariant
                self.follows(old(self)),
                ts == self.ts(),
                ts == old(self).ts(),
                start == old(self).pos(),
                start <= self.pos(),
                p_items(ts, start, Seq::empty()) == p_items(ts, self.pos(), items_view(v@)),
            decreases self.len() - self.pos(),
        {
            if self.at(Token::CloseCurly) {
                self.advance();
                return Ok(v);
            }
            if let Err(e) = self.expect(Token::Dot) {
                return Err(e);
            }
            let f = match self.ident() {
                Ok(x) => x,
                Err(e) => return Err(e),
            };
            if let Err(e) = self.expect(Token::Equals) {
                return Err(e);
            }
            let x = match self.parse_expr(false) {
                Ok(x) => x,
                Err(e) => return Err(e),
            };
            proof {
                assert(v@.push((f, x)).drop_last() =~= v@);
            }
            v.push((f, x));
            if self.at(Token::Comma) {
                self.advance();
            } else {
                if let Err(e) = self.expect(Token::CloseCurly) {
                    return Err(e);
                }
                return Ok(v);
            }
        }
    }

    /// The operators of every level from 1 to the loosest, folded in turn
    /// onto `operand`.
    fn parse_climb_from(&mut self, ns: bool, operand: Expr<'a>) -> (r: Result<Expr<'a>, ParseError<&'a str>>)
        requires
            old(self).wf(),
        ensures
            final(self).follows(old(self)),
            match r {
                Ok(e) => climb_from(old(self).ts(), old(self).pos(), 1, ns, operand@) == ok_at(
                    e@,
                    final(self).pos(),
                ) && old(self).pos() <= final(self).pos(),
                Err(x) => climb_from(old(self).ts(), old(self).pos(), 1, ns, operand@) == failed::<
                    ExprV,
                >(x@),
            },
    {
        let ghost ts = self.toks@;
        let ghost start = self.idx@;
        let mut e = operand;
        let mut level: u64 = 1;
        while level <= 10
            invariant
                self.follows(old(self)),
                ts == self.ts(),
                ts == old(self).ts(),
                start == old(self).pos(),
                start <= self.pos(),
                1 <= level <= 11,
                climb_from(ts, start, 1, ns, operand@) == climb_from(ts, self.pos(), level as nat, ns, e@),
            decreases 11 - level,
        {
            e = match self.parse_climb(level, ns, e) {
                Ok(x) => x,
                Err(x) => return Err(x),
            };
            level = level + 1;
        }
        Ok(e)
    }

    /// After `e`, an optional `..` and the range's end.
    fn parse_range_end(&mut self, e: Expr<'a>) -> (r: Result<Expr<'a>, ParseError<&'a str>>)
        requires
            old(self).wf(),
        ensures
            final(self).follows(old(self)),
            match r {
                Ok(v) => range_end(old(self).ts(), old(self).pos(), e@) == ok_at(v@, final(self).pos())
                    && old(self).pos() <= final(self).pos(),
                Err(x) => range_end(old(self).ts(), old(self).pos(), e@) == failed::<ExprV>(x@),
            },
    {
        if self.at(Token::DotDot) {
            self.advance();
            let r = match self.parse_expr(true) {
                Ok(x) => x,
                Err(x) => return Err(x),
            };
            Ok(Expr::Binop { lhs: Box::new(e), op: Operator::Range, rhs: Box::new(r) })
        } else {
            Ok(e)
        }
    }

    /// An over-expression whose parenthesized first operand `pe` has been
    /// read.
    fn parse_range_tail(&mut self, pe: Expr<'a>) -> (r: Result<Expr<'a>, ParseError<&'a str>>)
        requires
            old(self).wf(),
        ensures
            final(self).follows(old(self)),
            match r {
                Ok(v) => range_tail(old(self).ts(), old(self).pos(), pe@) == ok_at(v@, final(self).pos())
                    && old(self).pos() <= final(self).pos(),
                Err(x) => range_tail(old(self).ts(), old(self).pos(), pe@) == failed::<ExprV>(x@),
            },
    {
        let x = match self.parse_suffixes(pe) {
            Ok(x) => x,
            Err(e) => return Err(e),
        };
        let y = match self.parse_climb_from(true, x) {
            Ok(y) => y,
            Err(e) => return Err(e),
        };
        self.parse_range_end(y)
    }

    /// What a for-loop iterates over.
    fn parse_range(&mut self) -> (r: Result<Expr<'a>, ParseError<&'a str>>)
        requires
            old(self).wf(),
        ensures
            final(self).follows(old(self)),
            agrees(p_range(old(self).ts(), old(self).pos()), r, old(self).pos(), final(self).pos(), old(self).len()),
    {
        if !self.at(Token::OpenParen) {
            let e = match self.parse_expr(true) {
                Ok(x) => x,
                Err(x) => return Err(x),
            };
            return self.parse_range_end(e);
        }
        self.advance();
        if self.at(Token::CloseParen) {
            self.advance();
            let v: Vec<Expr<'a>> = Vec::new();
            assert(exprs_view(v@) =~= Seq::<ExprV>::empty());
            return self.parse_range_tail(Expr::Tuple(v));
        }
        let e = match self.parse_expr(false) {
            Ok(x) => x,
            Err(x) => return Err(x),
        };
        if self.at(Token::DotDot) {
            self.advance();
            let r = match self.parse_expr(false) {
                Ok(x) => x,
                Err(x) => return Err(x),
            };
            if let Err(x) = self.expect(Token::CloseParen) {
                return Err(x);
            }
            return Ok(Expr::Binop { lhs: Box::new(e), op: Operator::Range, rhs: Box::new(r) });
        }
        let pe = match self.parse_paren_rest(e) {
            Ok(x) => x,
            Err(x) => return Err(x),
        };
        self.parse_range_tail(pe)
    }

    /// A `let` statement, after the keyword.
    fn parse_let(&mut self) -> (r: Result<Ast<'a>, ParseError<&'a str>>)
        requires
            old(self).wf(),
        ensures
            final(self).follows(old(self)),
            agrees(p_let(old(self).ts(), old(self).pos()), r, old(self).pos(), final(self).pos(), old(self).len()),
    {
        let mutable = self.at(Token::Mut);
        if mutable {
            self.advance();
        }
        let name = match self.ident() {
            Ok(x) => x,
            Err(x) => return Err(x),
        };
        if let Err(x) = self.expect(Token::Colon) {
            return Err(x);
        }
        let ty = match self.parse_type() {
            Ok(x) => x,
            Err(x) => return Err(x),
        };
        if let Err(x) = self.expect(Token::Equals) {
            return Err(x);
        }
        let expr = match self.parse_expr(false) {
            Ok(x) => x,
            Err(x) => return Err(x),
        };
        if let Err(x) = self.expect(Token::Semicolon) {
            return Err(x);
        }
        Ok(Ast::Let { name, mutable, ty, expr })
    }

    /// A `return` statement, after the keyword.
    fn parse_return(&mut self) -> (r: Result<Ast<'a>, ParseError<&'a str>>)
        requires
            old(self).wf(),
        ensures
            final(self).follows(old(self)),
            agrees(p_return(old(self).ts(), old(self).pos()), r, old(self).pos(), final(self).pos(), old(self).len()),
    {
        if self.at(Token::Semicolon) {
            self.advance();
            return Ok(Ast::Return(None));
        }
        let e = match self.parse_expr(false) {
            Ok(x) => x,
            Err(x) => return Err(x),
        };
        if let Err(x) = self.expect(Token::Semicolon) {
            return Err(x);
        }
        Ok(Ast::Return(Some(e)))
    }

    /// A struct declaration, after `struct`.
    fn parse_struct(&mut self) -> (r: Result<Ast<'a>, ParseError<&'a str>>)
        requires
            old(self).wf(),
        ensures
            final(self).follows(old(self)),
            agrees(p_struct(old(self).ts(), old(self).pos()), r, old(self).pos(), final(self).pos(), old(self).len()),
    {
        let name = match self.ident() {
            Ok(x) => x,
            Err(x) => return Err(x),
        };
        if let Err(x) = self.expect(Token::OpenCurly) {
            return Err(x);
        }
        let members = match self.parse_typed_names(Token::CloseCurly) {
            Ok(x) => x,
            Err(x) => return Err(x),
        };
        Ok(Ast::Struct { name, members })
    }

    /// An enum declaration after `enum`, or a flag declaration after `flag`.
    fn parse_enum(&mut self, flag: bool) -> (r: Result<Ast<'a>, ParseError<&'a str>>)
        requires
            old(self).wf(),
        ensures
            final(self).follows(old(self)),
            agrees(p_enum(old(self).ts(), old(self).pos(), flag), r, old(self).pos(), final(self).pos(), old(self).len()),
    {
        let name = match self.ident() {
            Ok(x) => x,
            Err(x) => return Err(x),
        };
        if let Err(x) = self.expect(Token::OpenCurly) {
            return Err(x);
        }
        let variants = match self.parse_names() {
            Ok(x) => x,
            Err(x) => return Err(x),
        };
        if flag {
            Ok(Ast::Flag { name, variants })
        } else {
            Ok(Ast::Enum { name, variants })
        }
    }

    /// An expression statement or an assignment.
    fn parse_expr_stmt(&mut self) -> (r: Result<Ast<'a>, ParseError<&'a str>>)
        requires
            old(self).wf(),
        ensures
            final(self).follows(old(self)),
            agrees(p_expr_stmt(old(self).ts(), old(self).pos()), r, old(self).pos(), final(self).pos(), old(self).len()),
    {
        let lhs = match self.parse_expr(false) {
            Ok(x) => x,
            Err(x) => return Err(x),
        };
        let op = match self.peeked {
            Some(t) => assign_op_of(&t),
            None => None,
        };
        match op {
            Some(op) => {
                self.advance();
                let rhs = match self.parse_expr(false) {
                    Ok(x) => x,
                    Err(x) => return Err(x),
                };
                if let Err(x) = self.expect(Token::Semicolon) {
                    return Err(x);
                }
                Ok(Ast::Assign { lhs, op, rhs })
            },
            None => {
                if let Err(x) = self.expect(Token::Semicolon) {
                    return Err(x);
                }
                Ok(Ast::Expr(lhs))
            },
        }
    }

    /// One statement, chosen by its first token.
    fn parse_stmt(&mut self) -> (r: Result<Ast<'a>, ParseError<&'a str>>)
        requires
            old(self).wf(),
        ensures
            final(self).follows(old(self)),
            agrees(p_stmt(old(self).ts(), old(self).pos()), r, old(self).pos(), final(self).pos(), old(self).len()),
        decreases old(self).len() - old(self).pos(), 29nat,
    {
        match self.peeked {
            Some(Token::Let) => {
                self.advance();
                self.parse_let()
            },
            Some(Token::If) => {
                self.advance();
                self.parse_if()
            },
            Some(Token::For) => {
                self.advance();
                self.parse_for()
            },
            Some(Token::While) => {
                self.advance();
                self.parse_while()
            },
            Some(Token::Switch) => {
                self.advance();
                self.parse_switch()
            },
            Some(Token::Return) => {
                self.advance();
                self.parse_return()
            },
            Some(Token::Fn) => {
                self.advance();
                self.parse_fn()
            },
            Some(Token::Struct) => {
                self.advance();
                self.parse_struct()
            },
            Some(Token::Enum) => {
                self.advance();
                self.parse_enum(false)
            },
            Some(Token::Flag) => {
                self.advance();
                self.parse_enum(true)
            },
            _ => self.parse_expr_stmt(),
        }
    }

    /// `{ statement* }`.
    fn parse_block(&mut self) -> (r: Result<Vec<Ast<'a>>, ParseError<&'a str>>)
        requires
            old(self).wf(),
        ensures
            final(self).follows(old(self)),
            match r {
                Ok(v) => p_block(old(self).ts(), old(self).pos()) == ok_at(
                    asts_view(v@),
                    final(self).pos(),
                ) && advanced(old(self).pos(), final(self).pos(), old(self).len()),
                Err(x) => p_block(old(self).ts(), old(self).pos()) == failed::<Seq<AstV>>(x@),
            },
        decreases old(self).len() - old(self).pos(), 27nat,
    {
        let ghost ts = self.toks@;
        let ghost start = self.idx@;
        if let Err(x) = self.expect(Token::OpenCurly) {
            return Err(x);
        }
        let mut v: Vec<Ast<'a>> = Vec::new();
        assert(asts_view(v@) =~= Seq::<AstV>::empty());
        loop
            invariant
                self.follows(old(self)),
                ts == self.ts(),
                ts == old(self).ts(),
                start == old(self).pos(),
                start < self.pos(),
                p_block(ts, start) == p_stmts(ts, self.pos(), asts_view(v@)),
            decreases self.len() - self.pos(),
        {
            match self.peeked {
                Some(Token::CloseCurly) => {
                    self.advance();
                    return Ok(v);
                },
                None => {
                    return Err(ParseError::Expected { token: Token::CloseCurly, got: None });
                },
                _ => {
                    let s = match self.parse_stmt() {
                        Ok(x) => x,
                        Err(x) => return Err(x),
                    };
                    proof {
                        assert(v@.push(s).drop_last() =~= v@);
                    }
                    v.push(s);
                },
            }
        }
    }

    /// An if/else statement, after `if`.
    fn parse_if(&mut self) -> (r: Result<Ast<'a>, ParseError<&'a str>>)
        requires
            old(self).wf(),
        ensures
            final(self).follows(old(self)),
            agrees(p_if(old(self).ts(), old(self).pos()), r, old(self).pos(), final(self).pos(), old(self).len()),
        decreases old(self).len() - old(self).pos(), 28nat,
    {
        if let Err(x) = self.expect(Token::OpenParen) {
            return Err(x);
        }
        let cond = match self.parse_expr(false) {
            Ok(x) => x,
            Err(x) => return Err(x),
        };
        if let Err(x) = self.expect(Token::CloseParen) {
            return Err(x);
        }
        let then_ = match self.parse_block() {
            Ok(x) => x,
            Err(x) => return Err(x),
        };
        if !self.at(Token::Else) {
            return Ok(Ast::IfElse { cond, then_, else_: None });
        }
        self.advance();
        if self.at(Token::If) {
            self.advance();
            let nested = match self.parse_if() {
                Ok(x) => x,
                Err(x) => return Err(x),
            };
            let mut b: Vec<Ast<'a>> = Vec::new();
            b.push(nested);
            proof {
                assert(b@.drop_last() =~= Seq::<Ast<'a>>::empty());
                assert(asts_view(Seq::<Ast<'a>>::empty()) =~= Seq::<AstV>::empty());
                assert(asts_view(b@) =~= seq![b@[0]@]);
            }
            Ok(Ast::IfElse { cond, then_, else_: Some(b) })
        } else {
            let b = match self.parse_block() {
                Ok(x) => x,
                Err(x) => return Err(x),
            };
            Ok(Ast::IfElse { cond, then_, else_: Some(b) })
        }
    }

    /// A for-loop, after `for`.
    fn parse_for(&mut self) -> (r: Result<Ast<'a>, ParseError<&'a str>>)
        requires
            old(self).wf(),
        ensures
            final(self).follows(old(self)),
            agrees(p_for(old(self).ts(), old(self).pos()), r, old(self).pos(), final(self).pos(), old(self).len()),
        decreases old(self).len() - old(self).pos(), 28nat,
    {
        let var = match self.ident() {
            Ok(x) => x,
            Err(x) => return Err(x),
        };
        if let Err(x) = self.expect(Token::Colon) {
            return Err(x);
        }
        let ty = match self.parse_type() {
            Ok(x) => x,
            Err(x) => return Err(x),
        };
        if let Err(x) = self.expect(Token::In) {
            return Err(x);
        }
        let over = match self.parse_range() {
            Ok(x) => x,
            Err(x) => return Err(x),
        };
        let block = match self.parse_block() {
            Ok(x) => x,
            Err(x) => return Err(x),
        };
        Ok(Ast::For { var, ty, over, block })
    }

    /// A while-loop, after `while`.
    fn parse_while(&mut self) -> (r: Result<Ast<'a>, ParseError<&'a str>>)
        requires
            old(self).wf(),
        ensures
            final(self).follows(old(self)),
            agrees(p_while(old(self).ts(), old(self).pos()), r, old(self).pos(), final(self).pos(), old(self).len()),
        decreases old(self).len() - old(self).pos(), 28nat,
    {
        if let Err(x) = self.expect(Token::OpenParen) {
            return Err(x);
        }
        let cond = match self.parse_expr(false) {
            Ok(x) => x,
            Err(x) => return Err(x),
        };
        if let Err(x) = self.expect(Token::CloseParen) {
            return Err(x);
        }
        let block = match self.parse_block() {
            Ok(x) => x,
            Err(x) => return Err(x),
        };
        Ok(Ast::While { cond, block })
    }

    /// A switch statement, after `switch`.
    fn parse_switch(&mut self) -> (r: Result<Ast<'a>, ParseError<&'a str>>)
        requires
            old(self).wf(),
        ensures
            final(self).follows(old(self)),
            agrees(p_switch(old(self).ts(), old(self).pos()), r, old(self).pos(), final(self).pos(), old(self).len()),
        decreases old(self).len() - old(self).pos(), 28nat,
    {
        if let Err(x) = self.expect(Token::OpenParen) {
            return Err(x);
        }
        let cond = match self.parse_expr(false) {
            Ok(x) => x,
            Err(x) => return Err(x),
        };
        if let Err(x) = self.expect(Token::CloseParen) {
            return Err(x);
        }
        if let Err(x) = self.expect(Token::OpenCurly) {
            return Err(x);
        }
        let cases = match self.parse_cases() {
            Ok(x) => x,
            Err(x) => return Err(x),
        };
        Ok(Ast::Switch { cond, cases })
    }

    /// The arms of a switch, through its `}`.
    fn parse_cases(&mut self) -> (r: Result<Vec<Case<'a>>, ParseError<&'a str>>)
        requires
            old(self).wf(),
        ensures
            final(self).follows(old(self)),
            match r {
                Ok(v) => p_cases(old(self).ts(), old(self).pos(), Seq::empty()) == ok_at(
                    cases_view(v@),
                    final(self).pos(),
                ) && advanced(old(self).pos(), final(self).pos(), old(self).len()),
                Err(x) => p_cases(old(self).ts(), old(self).pos(), Seq::empty()) == failed::<
                    Seq<CaseV>,
                >(x@),
            },
        decreases old(self).len() - old(self).pos(), 27nat,
    {
        let ghost ts = self.toks@;
        let ghost start = self.idx@;
        let mut v: Vec<Case<'a>> = Vec::new();
        assert(cases_view(v@) =~= Seq::<CaseV>::empty());
        loop
            invariant
                self.follows(old(self)),
                ts == self.ts(),
                ts == old(self).ts(),
                start == old(self).pos(),
                start <= self.pos(),
                p_cases(ts, start, Seq::empty()) == p_cases(ts, self.pos(), cases_view(v@)),
            decreases self.len() - self.pos(),
        {
            match self.peeked {
                Some(Token::CloseCurly) => {
                    self.advance();
                    return Ok(v);
                },
                Some(Token::Case) => {
                    self.advance();
                    let pattern = match self.ident() {
                        Ok(x) => x,
                        Err(x) => return Err(x),
                    };
                    if let Err(x) = self.expect(Token::Colon) {
                        return Err(x);
                    }
                    let body = match self.parse_arm() {
                        Ok(x) => x,
                        Err(x) => return Err(x),
                    };
                    let c = Case::Case { pattern, body };
                    proof {
                        assert(v@.push(c).drop_last() =~= v@);
                        assert(case_view(c) == CaseV::Case { pattern: pattern@, body: asts_view(body@) });
                    }
                    v.push(c);
                },
                Some(Token::Default) => {
                    self.advance();
                    if let Err(x) = self.expect(Token::Colon) {
                        return Err(x);
                    }
                    let body = match self.parse_arm() {
                        Ok(x) => x,
                        Err(x) => return Err(x),
                    };
                    let c = Case::Default(body);
                    proof {
                        assert(v@.push(c).drop_last() =~= v@);
                        assert(case_view(c) == CaseV::Default(asts_view(body@)));
                    }
                    v.push(c);
                },
                got => {
                    return Err(ParseError::Expected { token: Token::CloseCurly, got });
                },
            }
        }
    }

    /// The statements of one switch arm, up to the next `case`, `default`
    /// or `}`.
    fn parse_arm(&mut self) -> (r: Result<Vec<Ast<'a>>, ParseError<&'a str>>)
        requires
            old(self).wf(),
        ensures
            final(self).follows(old(self)),
            match r {
                Ok(v) => p_arm(old(self).ts(), old(self).pos(), Seq::empty()) == ok_at(
                    asts_view(v@),
                    final(self).pos(),
                ) && old(self).pos() <= final(self).pos(),
                Err(x) => p_arm(old(self).ts(), old(self).pos(), Seq::empty()) == failed::<
                    Seq<AstV>,
                >(x@),
            },
        decreases old(self).len() - old(self).pos(), 30nat,
    {
        let ghost ts = self.toks@;
        let ghost start = self.idx@;
        let mut v: Vec<Ast<'a>> = Vec::new();
        assert(asts_view(v@) =~= Seq::<AstV>::empty());
        loop
            invariant
                self.follows(old(self)),
                ts == self.ts(),
                ts == old(self).ts(),
                start == old(self).pos(),
                start <= self.pos(),
                p_arm(ts, start, Seq::empty()) == p_arm(ts, self.pos(), asts_view(v@)),
            decreases self.len() - self.pos(),
        {
            match self.peeked {
                Some(Token::Case) | Some(Token::Default) | Some(Token::CloseCurly) => {
                    return Ok(v);
                },
                None => {
                    return Err(ParseError::Expected { token: Token::CloseCurly, got: None });
                },
                _ => {
                    let s = match self.parse_stmt() {
                        Ok(x) => x,
                        Err(x) => return Err(x),
                    };
                    proof {
                        assert(v@.push(s).drop_last() =~= v@);
                    }
                    v.push(s);
                },
            }
        }
    }

    /// A function declaration, after `fn`.
    fn parse_fn(&mut self) -> (r: Result<Ast<'a>, ParseError<&'a str>>)
        requires
            old(self).wf(),
        ensures
            final(self).follows(old(self)),
            agrees(p_fn(old(self).ts(), old(self).pos()), r, old(self).pos(), final(self).pos(), old(self).len()),
        decreases old(self).len() - old(self).pos(), 28nat,
    {
        let name = match self.ident() {
            Ok(x) => x,
            Err(x) => return Err(x),
        };
        if let Err(x) = self.expect(Token::OpenParen) {
            return Err(x);
        }
        let args = match self.parse_typed_names(Token::CloseParen) {
            Ok(x) => x,
            Err(x) => return Err(x),
        };
        let ret = if self.at(Token::Arrow) {
            self.advance();
            let t = match self.parse_type() {
                Ok(x) => x,
                Err(x) => return Err(x),
            };
            t
        } else {
            Type::Unit
        };
        let body = match self.parse_block() {
            Ok(x) => x,
            Err(x) => return Err(x),
        };
        Ok(Ast::Function { name, args, ret, body })
    }

    /// Statements up to the end of the input.
    fn parse_statements(&mut self) -> (r: Result<Vec<Ast<'a>>, ParseError<&'a str>>)
        requires
            old(self).wf(),
        ensures
            final(self).follows(old(self)),
            match r {
                Ok(v) => p_file(old(self).ts(), old(self).pos(), Seq::empty()) == done(asts_view(v@))
                    && final(self).pos() >= final(self).len(),
                Err(x) => p_file(old(self).ts(), old(self).pos(), Seq::empty()) == stopped::<
                    Seq<AstV>,
                >(x@),
            },
    {
        let ghost ts = self.toks@;
        let ghost start = self.idx@;
        let mut v: Vec<Ast<'a>> = Vec::new();
        assert(asts_view(v@) =~= Seq::<AstV>::empty());
        loop
            invariant
                self.follows(old(self)),
                ts == self.ts(),
                ts == old(self).ts(),
                start == old(self).pos(),
                p_file(ts, start, Seq::empty()) == p_file(ts, self.pos(), asts_view(v@)),
            decreases self.len() - self.pos(),
        {
            if self.peeked.is_none() {
                return Ok(v);
            }
            let s = match self.parse_stmt() {
                Ok(x) => x,
                Err(x) => return Err(x),
            };
            proof {
                assert(v@.push(s).drop_last() =~= v@);
            }
            v.push(s);
        }
    }

    /// Whether the token stream ran to the end of the text; asked at its end.
    fn stream_clean(&self) -> (r: bool)
        requires
            self.wf(),
            self.pos() >= self.len(),
        ensures
            r == self.clean@,
    {
        self.lexer.finished_cleanly()
    }
}

/// A whole input read as `v`.
pub open spec fn done<V>(v: V) -> Result<V, Error> {
    Ok(v)
}

/// A whole input that failed to parse with `e`.
pub open spec fn stopped<V>(e: Error) -> Result<V, Error> {
    Err(e)
}

/// Parses a whole source file: every statement up to the end of the input.
/// An input whose tokens stop at a malformed literal is an error.
pub fn parse<'a>(lexer: Lexer<'a>) -> (r: Result<Vec<Ast<'a>>, ParseError<&'a str>>)
    requires
        lexer.wf(),
    ensures
        match r {
            Ok(v) => parse_file(lexer.rest(), lexer.clean()) == done(asts_view(v@)),
            Err(x) => parse_file(lexer.rest(), lexer.clean()) == stopped::<Seq<AstV>>(x@),
        },
{
    let mut p = Parser::new(lexer);
    let v = match p.parse_statements() {
        Ok(x) => x,
        Err(x) => return Err(x),
    };
    if !p.stream_clean() {
        return Err(ParseError::UnexpectedEof);
    }
    Ok(v)
}

/// Parses a whole source text.
pub fn program<'a>(input: &'a str) -> (r: Result<Vec<Ast<'a>>, ParseError<&'a str>>)
    ensures
        match r {
            Ok(v) => parse_file(tokens_of(input@), lexes_cleanly(input@)) == done(asts_view(v@)),
            Err(x) => parse_file(tokens_of(input@), lexes_cleanly(input@)) == stopped::<Seq<AstV>>(x@),
        },
{
    parse(Lexer::new(input))
}

/// Parses an input that holds exactly one statement.
pub fn parse_statement<'a>(lexer: Lexer<'a>) -> (r: Result<Ast<'a>, ParseError<&'a str>>)
    requires
        lexer.wf(),
    ensures
        match r {
            Ok(s) => whole(lexer.rest(), lexer.clean(), p_stmt(lexer.rest(), 0)) == done(s@),
            Err(x) => whole(lexer.rest(), lexer.clean(), p_stmt(lexer.rest(), 0)) == stopped::<AstV>(x@),
        },
{
    let mut p = Parser::new(lexer);
    let s = match p.parse_stmt() {
        Ok(x) => x,
        Err(x) => return Err(x),
    };
    if let Some(t) = p.peeked {
        return Err(ParseError::ExpectedEnd { got: t });
    }
    if !p.stream_clean() {
        return Err(ParseError::UnexpectedEof);
    }
    Ok(s)
}

/// Parses an input that holds exactly one expression.
pub fn parse_expression<'a>(lexer: Lexer<'a>) -> (r: Result<Expr<'a>, ParseError<&'a str>>)
    requires
        lexer.wf(),
    ensures
        match r {
            Ok(e) => whole(lexer.rest(), lexer.clean(), p_expr(lexer.rest(), 0, false)) == done(e@),
            Err(x) => whole(lexer.rest(), lexer.clean(), p_expr(lexer.rest(), 0, false))
                == stopped::<ExprV>(x@),
        },
{
    let mut p = Parser::new(lexer);
    let e = match p.parse_expr(false) {
        Ok(x) => x,
        Err(x) => return Err(x),
    };
    if let Some(t) = p.peeked {
        return Err(ParseError::ExpectedEnd { got: t });
    }
    if !p.stream_clean() {
        return Err(ParseError::UnexpectedEof);
    }
    Ok(e)
}

/// Parses the primary expression at the front of the input, ignoring what
/// follows it.
pub fn parse_primary<'a>(lexer: Lexer<'a>) -> (r: Result<Expr<'a>, ParseError<&'a str>>)
    requires
        lexer.wf(),
    ensures
        match r {
            Ok(e) => p_primary(lexer.rest(), 0, false) is Ok && p_primary(lexer.rest(), 0, false)->Ok_0.0
                == e@,
            Err(x) => p_primary(lexer.rest(), 0, false) == failed::<ExprV>(x@),
        },
{
    let mut p = Parser::new(lexer);
    p.parse_primary(false)
}

} // verus!
