//! The abstract syntax tree, and its mathematical model.
//!
//! Every node owns its children. Names and string contents are slices of
//! the source text. Each type has a model of the same shape in which
//! slices become character sequences and vectors become sequences; the
//! parser's contracts are stated over the models.
use vstd::prelude::*;

verus! {

#[derive(PartialEq, Eq, Structural, Debug, Clone, Copy)]
pub enum Operator {
    Assign,
    AddAssign,
    SubAssign,
    MulAssign,
    DivAssign,
    ModAssign,
    LShiftAssign,
    RShiftAssign,
    AndAssign,
    XorAssign,
    OrAssign,
    Or,
    And,
    Equal,
    NotEqual,
    Not,
    BitNot,
    BitOr,
    BitXor,
    BitAnd,
    Deref,
    Address,
    LT,
    GT,
    LTE,
    GTE,
    ShiftLeft,
    ShiftRight,
    Add,
    Sub,
    Mul,
    Div,
    Mod,
    Range,
}

#[derive(PartialEq, Debug)]
pub enum Expr<'a> {
    Int(i64),
    Ident(&'a str),
    String(&'a str),
    Char(char),
    List(Vec<Expr<'a>>),
    Tuple(Vec<Expr<'a>>),
    Binop { lhs: Box<Expr<'a>>, op: Operator, rhs: Box<Expr<'a>> },
    Unop { op: Operator, expr: Box<Expr<'a>> },
    GetItem { obj: Box<Expr<'a>>, item: &'a str },
    Subscript { obj: Box<Expr<'a>>, idx: Box<Expr<'a>> },
    Call { func: Box<Expr<'a>>, args: Vec<Expr<'a>> },
    Struct { name: &'a str, items: Vec<(&'a str, Expr<'a>)> },
}

#[derive(PartialEq, Eq, Debug)]
pub enum Type<'a> {
    Pointer(Box<Type<'a>>),
    Array(Box<Type<'a>>),
    Ident(&'a str),
    Tuple(Vec<Type<'a>>),
    Unit,
}

#[derive(PartialEq, Debug)]
pub enum Ast<'a> {
    Expr(Expr<'a>),
    Assign { lhs: Expr<'a>, op: Operator, rhs: Expr<'a> },
    Let { name: &'a str, mutable: bool, ty: Type<'a>, expr: Expr<'a> },
    IfElse { cond: Expr<'a>, then_: Vec<Ast<'a>>, else_: Option<Vec<Ast<'a>>> },
    For { var: &'a str, ty: Type<'a>, over: Expr<'a>, block: Vec<Ast<'a>> },
    While { cond: Expr<'a>, block: Vec<Ast<'a>> },
    Switch { cond: Expr<'a>, cases: Vec<Case<'a>> },
    Return(Option<Expr<'a>>),
    Function {
        name: &'a str,
        args: Vec<(&'a str, Type<'a>)>,
        ret: Type<'a>,
        body: Vec<Ast<'a>>,
    },
    Struct { name: &'a str, members: Vec<(&'a str, Type<'a>)> },
    Enum { name: &'a str, variants: Vec<&'a str> },
    Flag { name: &'a str, variants: Vec<&'a str> },
}

#[derive(PartialEq, Debug)]
pub enum Case<'a> {
    Case { pattern: &'a str, body: Vec<Ast<'a>> },
    Default(Vec<Ast<'a>>),
}

/// Model of an expression.
pub enum ExprV {
    Int(i64),
    Ident(Seq<char>),
    String(Seq<char>),
    Char(char),
    List(Seq<ExprV>),
    Tuple(Seq<ExprV>),
    Binop { lhs: Box<ExprV>, op: Operator, rhs: Box<ExprV> },
    Unop { op: Operator, expr: Box<ExprV> },
    GetItem { obj: Box<ExprV>, item: Seq<char> },
    Subscript { obj: Box<ExprV>, idx: Box<ExprV> },
    Call { func: Box<ExprV>, args: Seq<ExprV> },
    Struct { name: Seq<char>, items: Seq<(Seq<char>, ExprV)> },
}

/// Model of a type.
pub enum TypeV {
    Pointer(Box<TypeV>),
    Array(Box<TypeV>),
    Ident(Seq<char>),
    Tuple(Seq<TypeV>),
    Unit,
}

/// Model of a statement.
pub enum AstV {
    Expr(ExprV),
    Assign { lhs: ExprV, op: Operator, rhs: ExprV },
    Let { name: Seq<char>, mutable: bool, ty: TypeV, expr: ExprV },
    IfElse { cond: ExprV, then_: Seq<AstV>, else_: Option<Seq<AstV>> },
    For { var: Seq<char>, ty: TypeV, over: ExprV, block: Seq<AstV> },
    While { cond: ExprV, block: Seq<AstV> },
    Switch { cond: ExprV, cases: Seq<CaseV> },
    Return(Option<ExprV>),
    Function { name: Seq<char>, args: Seq<(Seq<char>, TypeV)>, ret: TypeV, body: Seq<AstV> },
    Struct { name: Seq<char>, members: Seq<(Seq<char>, TypeV)> },
    Enum { name: Seq<char>, variants: Seq<Seq<char>> },
    Flag { name: Seq<char>, variants: Seq<Seq<char>> },
}

/// Model of a switch arm.
pub enum CaseV {
    Case { pattern: Seq<char>, body: Seq<AstV> },
    Default(Seq<AstV>),
}

pub open spec fn expr_view<'a>(e: Expr<'a>) -> ExprV
    decreases e,
{
    match e {
        Expr::Int(n) => ExprV::Int(n),
        Expr::Ident(s) => ExprV::Ident(s@),
        Expr::String(s) => ExprV::String(s@),
        Expr::Char(c) => ExprV::Char(c),
        Expr::List(v) => ExprV::List(exprs_view(v@)),
        Expr::Tuple(v) => ExprV::Tuple(exprs_view(v@)),
        Expr::Binop { lhs, op, rhs } => ExprV::Binop {
            lhs: Box::new(expr_view(*lhs)),
            op,
            rhs: Box::new(expr_view(*rhs)),
        },
        Expr::Unop { op, expr } => ExprV::Unop { op, expr: Box::new(expr_view(*expr)) },
        Expr::GetItem { obj, item } => ExprV::GetItem { obj: Box::new(expr_view(*obj)), item: item@ },
        Expr::Subscript { obj, idx } => ExprV::Subscript {
            obj: Box::new(expr_view(*obj)),
            idx: Box::new(expr_view(*idx)),
        },
        Expr::Call { func, args } => ExprV::Call {
            func: Box::new(expr_view(*func)),
            args: exprs_view(args@),
        },
        Expr::Struct { name, items } => ExprV::Struct { name: name@, items: items_view(items@) },
    }
}

pub open spec fn exprs_view<'a>(s: Seq<Expr<'a>>) -> Seq<ExprV>
    decreases s,
{
    if s.len() == 0 {
        Seq::empty()
    } else {
        exprs_view(s.drop_last()).push(expr_view(s.last()))
    }
}

pub open spec fn items_view<'a>(s: Seq<(&'a str, Expr<'a>)>) -> Seq<(Seq<char>, ExprV)>
    decreases s,
{
    if s.len() == 0 {
        Seq::empty()
    } else {
        items_view(s.drop_last()).push((s.last().0@, expr_view(s.last().1)))
    }
}

pub open spec fn type_view<'a>(t: Type<'a>) -> TypeV
    decreases t,
{
    match t {
        Type::Pointer(b) => TypeV::Pointer(Box::new(type_view(*b))),
        Type::Array(b) => TypeV::Array(Box::new(type_view(*b))),
        Type::Ident(s) => TypeV::Ident(s@),
        Type::Tuple(v) => TypeV::Tuple(types_view(v@)),
        Type::Unit => TypeV::Unit,
    }
}

pub open spec fn types_view<'a>(s: Seq<Type<'a>>) -> Seq<TypeV>
    decreases s,
{
    if s.len() == 0 {
        Seq::empty()
    } else {
        types_view(s.drop_last()).push(type_view(s.last()))
    }
}

pub open spec fn typed_names_view<'a>(s: Seq<(&'a str, Type<'a>)>) -> Seq<(Seq<char>, TypeV)>
    decreases s,
{
    if s.len() == 0 {
        Seq::empty()
    } else {
        typed_names_view(s.drop_last()).push((s.last().0@, type_view(s.last().1)))
    }
}

pub open spec fn names_view<'a>(s: Seq<&'a str>) -> Seq<Seq<char>> {
    s.map_values(|n: &'a str| n@)
}

pub open spec fn ast_view<'a>(a: Ast<'a>) -> AstV
    decreases a,
{
    match a {
        Ast::Expr(e) => AstV::Expr(expr_view(e)),
        Ast::Assign { lhs, op, rhs } => AstV::Assign { lhs: expr_view(lhs), op, rhs: expr_view(rhs) },
        Ast::Let { name, mutable, ty, expr } => AstV::Let {
            name: name@,
            mutable,
            ty: type_view(ty),
            expr: expr_view(expr),
        },
        Ast::IfElse { cond, then_, else_ } => AstV::IfElse {
            cond: expr_view(cond),
            then_: asts_view(then_@),
            else_: match else_ {
                Some(b) => Some(asts_view(b@)),
                None => None,
            },
        },
        Ast::For { var, ty, over, block } => AstV::For {
            var: var@,
            ty: type_view(ty),
            over: expr_view(over),
            block: asts_view(block@),
        },
        Ast::While { cond, block } => AstV::While { cond: expr_view(cond), block: asts_view(block@) },
        Ast::Switch { cond, cases } => AstV::Switch { cond: expr_view(cond), cases: cases_view(cases@) },
        Ast::Return(e) => AstV::Return(
            match e {
                Some(e) => Some(expr_view(e)),
                None => None,
            },
        ),
        Ast::Function { name, args, ret, body } => AstV::Function {
            name: name@,
            args: typed_names_view(args@),
            ret: type_view(ret),
            body: asts_view(body@),
        },
        Ast::Struct { name, members } => AstV::Struct {
            name: name@,
            members: typed_names_view(members@),
        },
        Ast::Enum { name, variants } => AstV::Enum { name: name@, variants: names_view(variants@) },
        Ast::Flag { name, variants } => AstV::Flag { name: name@, variants: names_view(variants@) },
    }
}

pub open spec fn asts_view<'a>(s: Seq<Ast<'a>>) -> Seq<AstV>
    decreases s,
{
    if s.len() == 0 {
        Seq::empty()
    } else {
        asts_view(s.drop_last()).push(ast_view(s.last()))
    }
}

pub open spec fn case_view<'a>(c: Case<'a>) -> CaseV
    decreases c,
{
    match c {
        Case::Case { pattern, body } => CaseV::Case { pattern: pattern@, body: asts_view(body@) },
        Case::Default(body) => CaseV::Default(asts_view(body@)),
    }
}

pub open spec fn cases_view<'a>(s: Seq<Case<'a>>) -> Seq<CaseV>
    decreases s,
{
    if s.len() == 0 {
        Seq::empty()
    } else {
        cases_view(s.drop_last()).push(case_view(s.last()))
    }
}

impl<'a> View for Expr<'a> {
    type V = ExprV;

    open spec fn view(&self) -> ExprV {
        expr_view(*self)
    }
}

impl<'a> View for Type<'a> {
    type V = TypeV;

    open spec fn view(&self) -> TypeV {
        type_view(*self)
    }
}

impl<'a> View for Ast<'a> {
    type V = AstV;

    open spec fn view(&self) -> AstV {
        ast_view(*self)
    }
}

impl<'a> View for Case<'a> {
    type V = CaseV;

    open spec fn view(&self) -> CaseV {
        case_view(*self)
    }
}

impl<'a> Expr<'a> {
    pub fn make_binop(l: Expr<'a>, op: Operator, r: Expr<'a>) -> (e: Expr<'a>)
        ensures
            e@ == (ExprV::Binop { lhs: Box::new(l@), op, rhs: Box::new(r@) }),
    {
        Expr::Binop { lhs: Box::new(l), op: op, rhs: Box::new(r) }
    }

    pub fn make_unop(op: Operator, expr: Expr<'a>) -> (e: Expr<'a>)
        ensures
            e@ == (ExprV::Unop { op, expr: Box::new(expr@) }),
    {
        Expr::Unop { op: op, expr: Box::new(expr) }
    }
}

} // verus!
