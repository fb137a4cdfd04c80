//! The parser: tokens in, a syntax tree out (recursive descent for
//! statements, precedence climbing for expressions), and the constant folder.
use vstd::prelude::*;

use crate::lexer::{SKind, SToken, Token, TokenKind, kind_debug, kind_eq, push_kind_debug, tokens_view};
use crate::text::{chars_of, push_str, string_of};

verus! {

// ---------------------------------------------------------------------------
// The syntax tree
// ---------------------------------------------------------------------------

pub struct Parser {
    tokens: Vec<Token>,
    pos: usize,
}

#[derive(Debug)]
#[allow(dead_code)]
pub enum ParserError {
    UnexpectedToken(TokenKind, TokenKind),
    UnexpectedEOF,
    Generic(String),
}

#[derive(Debug, Clone)]
pub enum Value {
    Integer(i32),
    String(String),
    Char(char),
    Boolean(bool),
    Variable(String),
}

#[derive(Debug, Clone, Copy, PartialEq, Eq, Structural)]
pub enum Ops {
    Add,
    Sub,
    Mul,
    Div,
    Rem,
    Eq,
    NotEq,
    GreaterEq,
    LessEq,
    Greater,
    Less,
    And,
    Or,
    BitAnd,
    BitOr,
    Xor,
    Assign,
    Inc,
    Dec,
    Neg,
    Not,
}

#[derive(Debug)]
#[allow(inconsistent_fields)]
pub enum Expression {
    Atom(Value),
    Operation(Ops, Vec<Expression>),
    Block(Vec<Expression>),
    VarDecl {
        typ: String,
        name: String,
        init: Option<Box<Expression>>,
        size: Option<Box<Expression>>,
    },
    FuncDecl {
        name: String,
        args: Vec<(String, String)>,
        ret_type: Option<String>,
        body: Box<Expression>,
    },
    FuncCall { caller: Box<Expression>, args: Vec<Expression> },
    If { cond: Box<Expression>, then_br: Box<Expression>, else_br: Option<Box<Expression>> },
    While { cond: Box<Expression>, body: Box<Expression> },
    For {
        init: Box<Expression>,
        cond: Box<Expression>,
        step: Box<Expression>,
        body: Box<Expression>,
    },
    Return(Option<Box<Expression>>),
    ArrayInit(Vec<Expression>),
    ArrayIndex { arr: Box<Expression>, index: Box<Expression> },
    Cout(Vec<Expression>),
    Cin(Vec<Expression>),
    Absolute(Box<Expression>),
}

/// A value as a mathematical object.
pub enum SValue {
    Integer(i32),
    String(Seq<char>),
    Char(char),
    Boolean(bool),
    Variable(Seq<char>),
}

/// A syntax tree as a mathematical object.
#[allow(inconsistent_fields)]
pub enum SExpr {
    Atom(SValue),
    Operation(Ops, Seq<SExpr>),
    Block(Seq<SExpr>),
    VarDecl {
        typ: Seq<char>,
        name: Seq<char>,
        init: Option<Box<SExpr>>,
        size: Option<Box<SExpr>>,
    },
    FuncDecl {
        name: Seq<char>,
        args: Seq<(Seq<char>, Seq<char>)>,
        ret_type: Option<Seq<char>>,
        body: Box<SExpr>,
    },
    FuncCall { caller: Box<SExpr>, args: Seq<SExpr> },
    If { cond: Box<SExpr>, then_br: Box<SExpr>, else_br: Option<Box<SExpr>> },
    While { cond: Box<SExpr>, body: Box<SExpr> },
    For { init: Box<SExpr>, cond: Box<SExpr>, step: Box<SExpr>, body: Box<SExpr> },
    Return(Option<Box<SExpr>>),
    ArrayInit(Seq<SExpr>),
    ArrayIndex { arr: Box<SExpr>, index: Box<SExpr> },
    Cout(Seq<SExpr>),
    Cin(Seq<SExpr>),
    Absolute(Box<SExpr>),
}

/// A parser error as a mathematical object.
pub enum SError {
    UnexpectedToken(SKind, SKind),
    UnexpectedEOF,
    Generic(Seq<char>),
}

impl View for Value {
    type V = SValue;

    open spec fn view(&self) -> SValue {
        match self {
            Value::Integer(n) => SValue::Integer(*n),
            Value::String(s) => SValue::String(s@),
            Value::Char(c) => SValue::Char(*c),
            Value::Boolean(b) => SValue::Boolean(*b),
            Value::Variable(s) => SValue::Variable(s@),
        }
    }
}

impl View for ParserError {
    type V = SError;

    open spec fn view(&self) -> SError {
        match self {
            ParserError::UnexpectedToken(a, b) => SError::UnexpectedToken(a@, b@),
            ParserError::UnexpectedEOF => SError::UnexpectedEOF,
            ParserError::Generic(s) => SError::Generic(s@),
        }
    }
}

pub open spec fn opt_view(o: Option<Box<Expression>>) -> Option<Box<SExpr>>
    decreases o,
{
    match o {
        Some(b) => Some(Box::new(expr_view(*b))),
        None => None,
    }
}

/// The mathematical value of a syntax tree.
pub open spec fn expr_view(e: Expression) -> SExpr
    decreases e,
{
    match e {
        Expression::Atom(v) => SExpr::Atom(v@),
        Expression::Operation(op, args) => SExpr::Operation(
            op,
            Seq::new(
                args@.len(),
                |i: int|
                    if 0 <= i < args@.len() {
                        expr_view(args@[i])
                    } else {
                        SExpr::Block(Seq::empty())
                    },
            ),
        ),
        Expression::Block(items) => SExpr::Block(
            Seq::new(
                items@.len(),
                |i: int|
                    if 0 <= i < items@.len() {
                        expr_view(items@[i])
                    } else {
                        SExpr::Block(Seq::empty())
                    },
            ),
        ),
        Expression::VarDecl { typ, name, init, size } => SExpr::VarDecl {
            typ: typ@,
            name: name@,
            init: match init {
                Some(b) => Some(Box::new(expr_view(*b))),
                None => None,
            },
            size: match size {
                Some(b) => Some(Box::new(expr_view(*b))),
                None => None,
            },
        },
        Expression::FuncDecl { name, args, ret_type, body } => SExpr::FuncDecl {
            name: name@,
            args: args@.map_values(|a: (String, String)| (a.0@, a.1@)),
            ret_type: match ret_type {
                Some(t) => Some(t@),
                None => None,
            },
            body: Box::new(expr_view(*body)),
        },
        Expression::FuncCall { caller, args } => SExpr::FuncCall {
            caller: Box::new(expr_view(*caller)),
            args: Seq::new(
                args@.len(),
                |i: int|
                    if 0 <= i < args@.len() {
                        expr_view(args@[i])
                    } else {
                        SExpr::Block(Seq::empty())
                    },
            ),
        },
        Expression::If { cond, then_br, else_br } => SExpr::If {
            cond: Box::new(expr_view(*cond)),
            then_br: Box::new(expr_view(*then_br)),
            else_br: match else_br {
                Some(b) => Some(Box::new(expr_view(*b))),
                None => None,
            },
        },
        Expression::While { cond, body } => SExpr::While {
            cond: Box::new(expr_view(*cond)),
            body: Box::new(expr_view(*body)),
        },
        Expression::For { init, cond, step, body } => SExpr::For {
            init: Box::new(expr_view(*init)),
            cond: Box::new(expr_view(*cond)),
            step: Box::new(expr_view(*step)),
            body: Box::new(expr_view(*body)),
        },
        Expression::Return(r) => SExpr::Return(
            match r {
                Some(b) => Some(Box::new(expr_view(*b))),
                None => None,
            },
        ),
        Expression::ArrayInit(items) => SExpr::ArrayInit(
            Seq::new(
                items@.len(),
                |i: int|
                    if 0 <= i < items@.len() {
                        expr_view(items@[i])
                    } else {
                        SExpr::Block(Seq::empty())
                    },
            ),
        ),
        Expression::ArrayIndex { arr, index } => SExpr::ArrayIndex {
            arr: Box::new(expr_view(*arr)),
            index: Box::new(expr_view(*index)),
        },
        Expression::Cout(items) => SExpr::Cout(
            Seq::new(
                items@.len(),
                |i: int|
                    if 0 <= i < items@.len() {
                        expr_view(items@[i])
                    } else {
                        SExpr::Block(Seq::empty())
                    },
            ),
        ),
        Expression::Cin(items) => SExpr::Cin(
            Seq::new(
                items@.len(),
                |i: int|
                    if 0 <= i < items@.len() {
                        expr_view(items@[i])
                    } else {
                        SExpr::Block(Seq::empty())
                    },
            ),
        ),
        Expression::Absolute(b) => SExpr::Absolute(Box::new(expr_view(*b))),
    }
}

impl View for Expression {
    type V = SExpr;

    open spec fn view(&self) -> SExpr {
        expr_view(*self)
    }
}

/// The mathematical values of a list of syntax trees.
pub open spec fn exprs_view(es: Seq<Expression>) -> Seq<SExpr> {
    Seq::new(es.len(), |i: int| expr_view(es[i]))
}

pub open spec fn arg_pairs_view(args: Seq<(String, String)>) -> Seq<(Seq<char>, Seq<char>)> {
    args.map_values(|a: (String, String)| (a.0@, a.1@))
}

proof fn lemma_exprs_view_push(es: Seq<Expression>, e: Expression)
    ensures
        exprs_view(es.push(e)) == exprs_view(es).push(e@),
{
    assert(exprs_view(es.push(e)) =~= exprs_view(es).push(e@));
}

proof fn lemma_exprs_view_empty()
    ensures
        exprs_view(Seq::<Expression>::empty()) == Seq::<SExpr>::empty(),
{
    assert(exprs_view(Seq::<Expression>::empty()) =~= Seq::<SExpr>::empty());
}

fn mk_op(op: Ops, args: Vec<Expression>) -> (r: Expression)
    ensures
        r@ == SExpr::Operation(op, exprs_view(args@)),
{
    let ghost a = args@;
    let r = Expression::Operation(op, args);
    assert(r@->Operation_1 =~= exprs_view(a));
    r
}

fn mk_block(items: Vec<Expression>) -> (r: Expression)
    ensures
        r@ == SExpr::Block(exprs_view(items@)),
{
    let ghost a = items@;
    let r = Expression::Block(items);
    assert(r@->Block_0 =~= exprs_view(a));
    r
}

fn mk_call(caller: Expression, args: Vec<Expression>) -> (r: Expression)
    ensures
        r@ == (SExpr::FuncCall { caller: Box::new(caller@), args: exprs_view(args@) }),
{
    let ghost a = args@;
    let r = Expression::FuncCall { caller: Box::new(caller), args };
    assert(r@->FuncCall_args =~= exprs_view(a));
    r
}

fn mk_array_init(items: Vec<Expression>) -> (r: Expression)
    ensures
        r@ == SExpr::ArrayInit(exprs_view(items@)),
{
    let ghost a = items@;
    let r = Expression::ArrayInit(items);
    assert(r@->ArrayInit_0 =~= exprs_view(a));
    r
}

fn mk_cout(items: Vec<Expression>) -> (r: Expression)
    ensures
        r@ == SExpr::Cout(exprs_view(items@)),
{
    let ghost a = items@;
    let r = Expression::Cout(items);
    assert(r@->Cout_0 =~= exprs_view(a));
    r
}

fn mk_cin(items: Vec<Expression>) -> (r: Expression)
    ensures
        r@ == SExpr::Cin(exprs_view(items@)),
{
    let ghost a = items@;
    let r = Expression::Cin(items);
    assert(r@->Cin_0 =~= exprs_view(a));
    r
}

fn one_expr(e: Expression) -> (r: Vec<Expression>)
    ensures
        exprs_view(r@) == seq![e@],
{
    let mut v: Vec<Expression> = Vec::new();
    v.push(e);
    assert(exprs_view(v@) =~= seq![v@[0]@]);
    v
}

fn two_exprs(a: Expression, b: Expression) -> (r: Vec<Expression>)
    ensures
        exprs_view(r@) == seq![a@, b@],
{
    let mut v: Vec<Expression> = Vec::new();
    v.push(a);
    v.push(b);
    assert(exprs_view(v@) =~= seq![v@[0]@, v@[1]@]);
    v
}

// ---------------------------------------------------------------------------
// The grammar, as a function from tokens and a position to a tree and the
// position after it (or an error and the position where it was found)
// ---------------------------------------------------------------------------

/// The result of parsing from a position.
pub type PRes<T> = Result<(T, int), (SError, int)>;

/// The kind of the token at `p`; `EOF` past the end.
pub open spec fn kind_at(ts: Seq<SToken>, p: int) -> SKind {
    if 0 <= p < ts.len() {
        ts[p].kind
    } else {
        SKind::EOF
    }
}

/// The position after reading a token at `p` (reading past the end stays).
pub open spec fn adv(ts: Seq<SToken>, p: int) -> int {
    if p < ts.len() {
        p + 1
    } else {
        p
    }
}

/// Reads a token that must be of kind `k`.
pub open spec fn expect_s(ts: Seq<SToken>, p: int, k: SKind) -> Result<int, (SError, int)> {
    let t = kind_at(ts, p);
    if t == k {
        Ok(adv(ts, p))
    } else {
        Err((SError::UnexpectedToken(k, t), adv(ts, p)))
    }
}

/// Reads a name.
pub open spec fn ident_s(ts: Seq<SToken>, p: int) -> PRes<Seq<char>> {
    match kind_at(ts, p) {
        SKind::Variable(s) => Ok((s, adv(ts, p))),
        t => Err((SError::Generic("Expected identifier, found "@ + kind_debug(t)), adv(ts, p))),
    }
}

/// Reads a type name.
pub open spec fn type_s(ts: Seq<SToken>, p: int) -> PRes<Seq<char>> {
    match kind_at(ts, p) {
        SKind::I32Type => Ok(("i32"@, adv(ts, p))),
        SKind::Ptr => Ok(("ptr"@, adv(ts, p))),
        SKind::Variable(s) => Ok((s, adv(ts, p))),
        t => Err((SError::Generic("Expected type, got "@ + kind_debug(t)), adv(ts, p))),
    }
}

/// `p < q <= len`: a parse that succeeded from `p` and ended at `q` read
/// something.  Every parse below reads at least one token when it succeeds
/// (the parse functions' `ensures` show it), so these checks, which keep the
/// recursion well founded, never fail.
pub open spec fn forward(ts: Seq<SToken>, p: int, q: int) -> bool {
    p < q <= ts.len()
}

/// The arguments of a function declaration: `type name (, type name)*`.
pub open spec fn fn_args_s(ts: Seq<SToken>, p: int, acc: Seq<(Seq<char>, Seq<char>)>) -> PRes<
    Seq<(Seq<char>, Seq<char>)>,
>
    decreases ts.len() - p,
{
    match type_s(ts, p) {
        Err(e) => Err(e),
        Ok((typ, q1)) => match ident_s(ts, q1) {
            Err(e) => Err(e),
            Ok((name, q2)) => {
                let acc2 = acc.push((typ, name));
                if kind_at(ts, q2) == SKind::Comma {
                    if forward(ts, p, q2) {
                        fn_args_s(ts, q2 + 1, acc2)
                    } else {
                        Err((SError::UnexpectedEOF, q2))
                    }
                } else {
                    Ok((acc2, q2))
                }
            },
        },
    }
}

/// Left and right binding power of an infix operator token.
pub open spec fn infix_bp(k: SKind) -> Option<(int, int)> {
    match k {
        SKind::Assign => Some((2, 1)),
        SKind::OpOr => Some((3, 4)),
        SKind::OpAnd => Some((5, 6)),
        SKind::OpBitOr => Some((7, 8)),
        SKind::OpXor => Some((9, 10)),
        SKind::OpBitAnd => Some((11, 12)),
        SKind::OpEq | SKind::OpNotEq => Some((13, 14)),
        SKind::OpLessThan | SKind::OpLessOrEq | SKind::OpGreaterThan | SKind::OpGreaterOrEq => Some(
            (15, 16),
        ),
        SKind::OpAdd | SKind::OpSub => Some((19, 20)),
        SKind::OpMul | SKind::OpDiv | SKind::OpRem => Some((21, 22)),
        _ => None,
    }
}

/// The operation of an infix operator token.
pub open spec fn token_op(k: SKind) -> Ops {
    match k {
        SKind::Assign => Ops::Assign,
        SKind::OpAdd => Ops::Add,
        SKind::OpSub => Ops::Sub,
        SKind::OpMul => Ops::Mul,
        SKind::OpDiv => Ops::Div,
        SKind::OpRem => Ops::Rem,
        SKind::OpEq => Ops::Eq,
        SKind::OpNotEq => Ops::NotEq,
        SKind::OpLessThan => Ops::Less,
        SKind::OpLessOrEq => Ops::LessEq,
        SKind::OpGreaterThan => Ops::Greater,
        SKind::OpGreaterOrEq => Ops::GreaterEq,
        SKind::OpShiftLeft => Ops::Add,
        SKind::OpShiftRight => Ops::Add,
        SKind::OpAnd => Ops::And,
        SKind::OpOr => Ops::Or,
        SKind::OpBitAnd => Ops::BitAnd,
        SKind::OpBitOr => Ops::BitOr,
        _ => Ops::Xor,
    }
}

/// An expression whose operators bind at least as tightly as `bp`.
pub open spec fn expr_s(ts: Seq<SToken>, p: int, bp: int) -> PRes<SExpr>
    decreases ts.len() - p, 2int,
{
    match prefix_s(ts, p) {
        Err(e) => Err(e),
        Ok((lhs, q)) => if forward(ts, p, q) {
            expr_loop_s(ts, q, bp, lhs)
        } else {
            Err((SError::UnexpectedEOF, q))
        },
    }
}

/// The postfix and infix operators that follow `lhs` at `q`.
pub open spec fn expr_loop_s(ts: Seq<SToken>, q: int, bp: int, lhs: SExpr) -> PRes<SExpr>
    decreases ts.len() - q, 0int,
{
    let k = kind_at(ts, q);
    if k == SKind::SquareBracketOpen {
        match expr_s(ts, q + 1, 0) {
            Err(e) => Err(e),
            Ok((index, r)) => if forward(ts, q, r) {
                match expect_s(ts, r, SKind::SquareBracketClose) {
                    Err(e) => Err(e),
                    Ok(r2) => expr_loop_s(
                        ts,
                        r2,
                        bp,
                        SExpr::ArrayIndex { arr: Box::new(lhs), index: Box::new(index) },
                    ),
                }
            } else {
                Err((SError::UnexpectedEOF, r))
            },
        }
    } else if k == SKind::RoundBracketOpen {
        let q1 = q + 1;
        let args: PRes<Seq<SExpr>> = if kind_at(ts, q1) != SKind::RoundBracketClose {
            expr_list_s(ts, q1, Seq::empty())
        } else {
            Ok((Seq::empty(), q1))
        };
        match args {
            Err(e) => Err(e),
            Ok((args, r)) => if q < r <= ts.len() {
                match expect_s(ts, r, SKind::RoundBracketClose) {
                    Err(e) => Err(e),
                    Ok(r2) => expr_loop_s(
                        ts,
                        r2,
                        bp,
                        SExpr::FuncCall { caller: Box::new(lhs), args },
                    ),
                }
            } else {
                Err((SError::UnexpectedEOF, r))
            },
        }
    } else if k == SKind::OpInc {
        expr_loop_s(ts, q + 1, bp, SExpr::Operation(Ops::Inc, seq![lhs]))
    } else if k == SKind::OpDec {
        expr_loop_s(ts, q + 1, bp, SExpr::Operation(Ops::Dec, seq![lhs]))
    } else {
        match infix_bp(k) {
            Some((l, r)) => if l < bp {
                Ok((lhs, q))
            } else {
                match expr_s(ts, adv(ts, q), r) {
                    Err(e) => Err(e),
                    Ok((rhs, r2)) => if forward(ts, q, r2) {
                        expr_loop_s(ts, r2, bp, SExpr::Operation(token_op(k), seq![lhs, rhs]))
                    } else {
                        Err((SError::UnexpectedEOF, r2))
                    },
                }
            },
            None => Ok((lhs, q)),
        }
    }
}

/// A comma-separated list of one or more expressions.
pub open spec fn expr_list_s(ts: Seq<SToken>, p: int, acc: Seq<SExpr>) -> PRes<Seq<SExpr>>
    decreases ts.len() - p, 3int,
{
    match expr_s(ts, p, 0) {
        Err(e) => Err(e),
        Ok((a, q)) => if forward(ts, p, q) {
            if kind_at(ts, q) == SKind::Comma {
                expr_list_s(ts, q + 1, acc.push(a))
            } else {
                Ok((acc.push(a), q))
            }
        } else {
            Err((SError::UnexpectedEOF, q))
        },
    }
}

/// An expression's first operand (a literal, name, bracketed expression,
/// prefix operation, `|...|` or array literal).
pub open spec fn prefix_s(ts: Seq<SToken>, p: int) -> PRes<SExpr>
    decreases ts.len() - p, 1int,
{
    let t = kind_at(ts, p);
    let q = adv(ts, p);
    match t {
        SKind::NumberInteger(n) => Ok((SExpr::Atom(SValue::Integer(n)), q)),
        SKind::StringLiteral(s) => Ok((SExpr::Atom(SValue::String(s)), q)),
        SKind::CharLiteral(c) => Ok((SExpr::Atom(SValue::Char(c)), q)),
        SKind::True => Ok((SExpr::Atom(SValue::Boolean(true)), q)),
        SKind::False => Ok((SExpr::Atom(SValue::Boolean(false)), q)),
        SKind::Variable(s) => Ok((SExpr::Atom(SValue::Variable(s)), q)),
        SKind::RoundBracketOpen => match expr_s(ts, q, 0) {
            Err(e) => Err(e),
            Ok((e, r)) => match expect_s(ts, r, SKind::RoundBracketClose) {
                Err(err) => Err(err),
                Ok(r2) => Ok((e, r2)),
            },
        },
        SKind::OpSub => match expr_s(ts, q, 23) {
            Err(e) => Err(e),
            Ok((e, r)) => Ok((SExpr::Operation(Ops::Neg, seq![e]), r)),
        },
        SKind::OpNot => match expr_s(ts, q, 23) {
            Err(e) => Err(e),
            Ok((e, r)) => Ok((SExpr::Operation(Ops::Not, seq![e]), r)),
        },
        SKind::OpBitOr => match expr_s(ts, q, 8) {
            Err(e) => Err(e),
            Ok((e, r)) => match expect_s(ts, r, SKind::OpBitOr) {
                Err(err) => Err(err),
                Ok(r2) => Ok((SExpr::Absolute(Box::new(e)), r2)),
            },
        },
        SKind::SquareBracketOpen => {
            let items: PRes<Seq<SExpr>> = if kind_at(ts, q) != SKind::SquareBracketClose {
                expr_list_s(ts, q, Seq::empty())
            } else {
                Ok((Seq::empty(), q))
            };
            match items {
                Err(e) => Err(e),
                Ok((items, r)) => match expect_s(ts, r, SKind::SquareBracketClose) {
                    Err(err) => Err(err),
                    Ok(r2) => Ok((SExpr::ArrayInit(items), r2)),
                },
            }
        },
        t => Err((SError::Generic("Unexpected prefix token: "@ + kind_debug(t)), q)),
    }
}

/// Whether the statement at `p` is a declaration: a type followed by a name.
pub open spec fn is_decl_s(ts: Seq<SToken>, p: int) -> bool {
    let a = kind_at(ts, p);
    &&& 0 <= p + 1 < ts.len()
    &&& ts[p + 1].kind is Variable
    &&& (a is I32Type || a is Ptr || a is Variable)
}

/// A statement.
pub open spec fn stmt_s(ts: Seq<SToken>, p: int) -> PRes<SExpr>
    decreases ts.len() - p, 4int,
{
    match kind_at(ts, p) {
        SKind::Function => fn_s(ts, p),
        SKind::If => if_s(ts, p),
        SKind::While => while_s(ts, p),
        SKind::For => for_s(ts, p),
        SKind::Return => {
            let q = adv(ts, p);
            if kind_at(ts, q) != SKind::Semicolon {
                match expr_s(ts, q, 0) {
                    Err(e) => Err(e),
                    Ok((e, r)) => match expect_s(ts, r, SKind::Semicolon) {
                        Err(err) => Err(err),
                        Ok(r2) => Ok((SExpr::Return(Some(Box::new(e))), r2)),
                    },
                }
            } else {
                match expect_s(ts, q, SKind::Semicolon) {
                    Err(err) => Err(err),
                    Ok(r2) => Ok((SExpr::Return(None), r2)),
                }
            }
        },
        SKind::Cout => stream_s(ts, p, SKind::Cout, SKind::OpShiftLeft),
        SKind::Cin => stream_s(ts, p, SKind::Cin, SKind::OpShiftRight),
        SKind::CurlyBracketOpen => block_s(ts, p),
        _ => if is_decl_s(ts, p) {
            var_decl_s(ts, p)
        } else {
            match expr_s(ts, p, 0) {
                Err(e) => Err(e),
                Ok((e, q)) => match expect_s(ts, q, SKind::Semicolon) {
                    Err(err) => Err(err),
                    Ok(r) => Ok((e, r)),
                },
            }
        },
    }
}

/// A declaration `type name;`, `type name[size];` or `type name = init;`.
pub open spec fn var_decl_s(ts: Seq<SToken>, p: int) -> PRes<SExpr>
    decreases ts.len() - p, 3int,
{
    match type_s(ts, p) {
        Err(e) => Err(e),
        Ok((typ, q1)) => match ident_s(ts, q1) {
            Err(e) => Err(e),
            Ok((name, q2)) => if p <= q2 <= ts.len() {
                let k = kind_at(ts, q2);
                let sub: PRes<(Option<Box<SExpr>>, Option<Box<SExpr>>)> = if k
                    == SKind::SquareBracketOpen {
                    match expr_s(ts, q2 + 1, 0) {
                        Err(e) => Err(e),
                        Ok((sz, r)) => match expect_s(ts, r, SKind::SquareBracketClose) {
                            Err(err) => Err(err),
                            Ok(r2) => Ok(((None, Some(Box::new(sz))), r2)),
                        },
                    }
                } else if k == SKind::Assign {
                    match expr_s(ts, q2 + 1, 0) {
                        Err(e) => Err(e),
                        Ok((init, r)) => Ok(((Some(Box::new(init)), None), r)),
                    }
                } else {
                    Ok(((None, None), q2))
                };
                match sub {
                    Err(e) => Err(e),
                    Ok(((init, size), r)) => match expect_s(ts, r, SKind::Semicolon) {
                        Err(err) => Err(err),
                        Ok(r2) => Ok((SExpr::VarDecl { typ, name, init, size }, r2)),
                    },
                }
            } else {
                Err((SError::UnexpectedEOF, q2))
            },
        },
    }
}

/// A block `{ statements }`.
pub open spec fn block_s(ts: Seq<SToken>, p: int) -> PRes<SExpr>
    decreases ts.len() - p, 3int,
{
    match expect_s(ts, p, SKind::CurlyBracketOpen) {
        Err(e) => Err(e),
        Ok(q) => if forward(ts, p, q) {
            match block_items_s(ts, q, Seq::empty()) {
                Err(e) => Err(e),
                Ok((stmts, r)) => match expect_s(ts, r, SKind::CurlyBracketClose) {
                    Err(err) => Err(err),
                    Ok(r2) => Ok((SExpr::Block(stmts), r2)),
                },
            }
        } else {
            Err((SError::UnexpectedEOF, q))
        },
    }
}

/// The statements of a block, up to `}` or the end.
pub open spec fn block_items_s(ts: Seq<SToken>, p: int, acc: Seq<SExpr>) -> PRes<Seq<SExpr>>
    decreases ts.len() - p, 5int,
{
    let k = kind_at(ts, p);
    if k != SKind::CurlyBracketClose && k != SKind::EOF {
        match stmt_s(ts, p) {
            Err(e) => Err(e),
            Ok((s, q)) => if forward(ts, p, q) {
                block_items_s(ts, q, acc.push(s))
            } else {
                Err((SError::UnexpectedEOF, q))
            },
        }
    } else {
        Ok((acc, p))
    }
}

/// A function declaration `fn name(args) [-> type] { ... }`.
pub open spec fn fn_s(ts: Seq<SToken>, p: int) -> PRes<SExpr>
    decreases ts.len() - p, 3int,
{
    match expect_s(ts, p, SKind::Function) {
        Err(e) => Err(e),
        Ok(q1) => match ident_s(ts, q1) {
            Err(e) => Err(e),
            Ok((name, q2)) => match expect_s(ts, q2, SKind::RoundBracketOpen) {
                Err(e) => Err(e),
                Ok(q3) => {
                    let args: PRes<Seq<(Seq<char>, Seq<char>)>> = if kind_at(ts, q3)
                        != SKind::RoundBracketClose {
                        fn_args_s(ts, q3, Seq::empty())
                    } else {
                        Ok((Seq::empty(), q3))
                    };
                    match args {
                        Err(e) => Err(e),
                        Ok((args, q4)) => match expect_s(ts, q4, SKind::RoundBracketClose) {
                            Err(e) => Err(e),
                            Ok(q5) => {
                                let ret: PRes<Option<Seq<char>>> = if kind_at(ts, q5)
                                    == SKind::Arrow {
                                    match type_s(ts, q5 + 1) {
                                        Err(e) => Err(e),
                                        Ok((t, q6)) => Ok((Some(t), q6)),
                                    }
                                } else {
                                    Ok((None, q5))
                                };
                                match ret {
                                    Err(e) => Err(e),
                                    Ok((ret_type, q6)) => if forward(ts, p, q6) {
                                        match block_s(ts, q6) {
                                            Err(e) => Err(e),
                                            Ok((body, q7)) => Ok(
                                                (
                                                    SExpr::FuncDecl {
                                                        name,
                                                        args,
                                                        ret_type,
                                                        body: Box::new(body),
                                                    },
                                                    q7,
                                                ),
                                            ),
                                        }
                                    } else {
                                        Err((SError::UnexpectedEOF, q6))
                                    },
                                }
                            },
                        },
                    }
                },
            },
        },
    }
}

/// `if cond { ... } [else if ... | else { ... }]`.
pub open spec fn if_s(ts: Seq<SToken>, p: int) -> PRes<SExpr>
    decreases ts.len() - p, 3int,
{
    match expect_s(ts, p, SKind::If) {
        Err(e) => Err(e),
        Ok(q1) => if forward(ts, p, q1) {
            match expr_s(ts, q1, 0) {
                Err(e) => Err(e),
                Ok((cond, q2)) => if forward(ts, p, q2) {
                    match block_s(ts, q2) {
                        Err(e) => Err(e),
                        Ok((then_br, q3)) => if kind_at(ts, q3) == SKind::Else && forward(
                            ts,
                            p,
                            q3,
                        ) {
                            let q4 = q3 + 1;
                            let else_res = if kind_at(ts, q4) == SKind::If {
                                if_s(ts, q4)
                            } else {
                                block_s(ts, q4)
                            };
                            match else_res {
                                Err(e) => Err(e),
                                Ok((else_br, q5)) => Ok(
                                    (
                                        SExpr::If {
                                            cond: Box::new(cond),
                                            then_br: Box::new(then_br),
                                            else_br: Some(Box::new(else_br)),
                                        },
                                        q5,
                                    ),
                                ),
                            }
                        } else {
                            Ok(
                                (
                                    SExpr::If {
                                        cond: Box::new(cond),
                                        then_br: Box::new(then_br),
                                        else_br: None,
                                    },
                                    q3,
                                ),
                            )
                        },
                    }
                } else {
                    Err((SError::UnexpectedEOF, q2))
                },
            }
        } else {
            Err((SError::UnexpectedEOF, q1))
        },
    }
}

/// `while cond { ... }`.
pub open spec fn while_s(ts: Seq<SToken>, p: int) -> PRes<SExpr>
    decreases ts.len() - p, 3int,
{
    match expect_s(ts, p, SKind::While) {
        Err(e) => Err(e),
        Ok(q1) => if forward(ts, p, q1) {
            match expr_s(ts, q1, 0) {
                Err(e) => Err(e),
                Ok((cond, q2)) => if forward(ts, p, q2) {
                    match block_s(ts, q2) {
                        Err(e) => Err(e),
                        Ok((body, q3)) => Ok(
                            (SExpr::While { cond: Box::new(cond), body: Box::new(body) }, q3),
                        ),
                    }
                } else {
                    Err((SError::UnexpectedEOF, q2))
                },
            }
        } else {
            Err((SError::UnexpectedEOF, q1))
        },
    }
}

/// `for (init-statement cond; step) { ... }`.
pub open spec fn for_s(ts: Seq<SToken>, p: int) -> PRes<SExpr>
    decreases ts.len() - p, 3int,
{
    match expect_s(ts, p, SKind::For) {
        Err(e) => Err(e),
        Ok(q1) => match expect_s(ts, q1, SKind::RoundBracketOpen) {
            Err(e) => Err(e),
            Ok(q2) => if forward(ts, p, q2) {
                match stmt_s(ts, q2) {
                    Err(e) => Err(e),
                    Ok((init, q3)) => if forward(ts, p, q3) {
                        match expr_s(ts, q3, 0) {
                            Err(e) => Err(e),
                            Ok((cond, q4)) => match expect_s(ts, q4, SKind::Semicolon) {
                                Err(e) => Err(e),
                                Ok(q5) => if forward(ts, p, q5) {
                                    match expr_s(ts, q5, 0) {
                                        Err(e) => Err(e),
                                        Ok((step, q6)) => match expect_s(
                                            ts,
                                            q6,
                                            SKind::RoundBracketClose,
                                        ) {
                                            Err(e) => Err(e),
                                            Ok(q7) => if forward(ts, p, q7) {
                                                match block_s(ts, q7) {
                                                    Err(e) => Err(e),
                                                    Ok((body, q8)) => Ok(
                                                        (
                                                            SExpr::For {
                                                                init: Box::new(init),
                                                                cond: Box::new(cond),
                                                                step: Box::new(step),
                                                                body: Box::new(body),
                                                            },
                                                            q8,
                                                        ),
                                                    ),
                                                }
                                            } else {
                                                Err((SError::UnexpectedEOF, q7))
                                            },
                                        },
                                    }
                                } else {
                                    Err((SError::UnexpectedEOF, q5))
                                },
                            },
                        }
                    } else {
                        Err((SError::UnexpectedEOF, q3))
                    },
                }
            } else {
                Err((SError::UnexpectedEOF, q2))
            },
        },
    }
}

/// `cout << e << e ...;` or `cin >> e >> e ...;`.
pub open spec fn stream_s(ts: Seq<SToken>, p: int, kw: SKind, sep: SKind) -> PRes<SExpr>
    decreases ts.len() - p, 3int,
{
    match expect_s(ts, p, kw) {
        Err(e) => Err(e),
        Ok(q1) => if forward(ts, p, q1) {
            match stream_items_s(ts, q1, sep, Seq::empty()) {
                Err(e) => Err(e),
                Ok((items, q2)) => match expect_s(ts, q2, SKind::Semicolon) {
                    Err(e) => Err(e),
                    Ok(q3) => Ok(
                        (
                            if kw == SKind::Cout {
                                SExpr::Cout(items)
                            } else {
                                SExpr::Cin(items)
                            },
                            q3,
                        ),
                    ),
                },
            }
        } else {
            Err((SError::UnexpectedEOF, q1))
        },
    }
}

/// The operands of a `cout`/`cin`, each after a `sep` token.
pub open spec fn stream_items_s(ts: Seq<SToken>, p: int, sep: SKind, acc: Seq<SExpr>) -> PRes<
    Seq<SExpr>,
>
    decreases ts.len() - p, 0int,
{
    if kind_at(ts, p) == sep && p < ts.len() {
        match expr_s(ts, p + 1, 0) {
            Err(e) => Err(e),
            Ok((e, q)) => if forward(ts, p, q) {
                stream_items_s(ts, q, sep, acc.push(e))
            } else {
                Err((SError::UnexpectedEOF, q))
            },
        }
    } else {
        Ok((acc, p))
    }
}

/// The statements of a program, up to `EOF`.
pub open spec fn program_items_s(ts: Seq<SToken>, p: int, acc: Seq<SExpr>) -> PRes<SExpr>
    decreases ts.len() - p,
{
    if kind_at(ts, p) != SKind::EOF {
        match stmt_s(ts, p) {
            Err(e) => Err(e),
            Ok((s, q)) => if forward(ts, p, q) {
                program_items_s(ts, q, acc.push(s))
            } else {
                Err((SError::UnexpectedEOF, q))
            },
        }
    } else {
        Ok((SExpr::Block(acc), p))
    }
}

/// A whole program from position `p`: a block of its statements.
pub open spec fn program_s(ts: Seq<SToken>, p: int) -> PRes<SExpr> {
    program_items_s(ts, p, Seq::empty())
}



/// A parsed program is a block, and the parser stopped at the end of the
/// input.
pub proof fn lemma_program_reaches_eof(ts: Seq<SToken>, p: int, acc: Seq<SExpr>)
    ensures
        program_items_s(ts, p, acc) matches Ok((e, q)) ==> e is Block && kind_at(ts, q)
            == SKind::EOF,
    decreases ts.len() - p,
{
    if kind_at(ts, p) != SKind::EOF {
        if let Ok((s, q)) = stmt_s(ts, p) {
            if forward(ts, p, q) {
                lemma_program_reaches_eof(ts, q, acc.push(s));
            }
        }
    }
}

/// Every statement of a program takes at least one token: a parsed
/// program has at most one more statement than those before it per token
/// read, and parsing stops at an `EOF` (a token, or the end).
pub proof fn lemma_statements_take_tokens(ts: Seq<SToken>, p: int, acc: Seq<SExpr>)
    requires
        0 <= p <= ts.len(),
    ensures
        program_items_s(ts, p, acc) matches Ok((SExpr::Block(s), q)) ==> s.len() <= acc.len()
            + q - p && q <= ts.len() && kind_at(ts, q) == SKind::EOF,
    decreases ts.len() - p,
{
    if kind_at(ts, p) != SKind::EOF {
        if let Ok((st, q)) = stmt_s(ts, p) {
            if forward(ts, p, q) {
                lemma_statements_take_tokens(ts, q, acc.push(st));
            }
        }
    }
}

// ---------------------------------------------------------------------------
// The parser
// ---------------------------------------------------------------------------

/// `r` is what the spec result `s` describes, and the parser stopped at
/// `pos`.
pub open spec fn expr_res(r: Result<Expression, ParserError>, s: PRes<SExpr>, pos: int) -> bool {
    match s {
        Ok((e, q)) => r matches Ok(x) && x@ == e && pos == q,
        Err((err, q)) => r matches Err(x) && x@ == err && pos == q,
    }
}

pub open spec fn list_res(r: Result<Vec<Expression>, ParserError>, s: PRes<Seq<SExpr>>, pos: int) -> bool {
    match s {
        Ok((e, q)) => r matches Ok(x) && exprs_view(x@) == e && pos == q,
        Err((err, q)) => r matches Err(x) && x@ == err && pos == q,
    }
}

pub open spec fn text_res(r: Result<String, ParserError>, s: PRes<Seq<char>>, pos: int) -> bool {
    match s {
        Ok((e, q)) => r matches Ok(x) && x@ == e && pos == q,
        Err((err, q)) => r matches Err(x) && x@ == err && pos == q,
    }
}

impl Parser {
    /// The tokens being parsed.
    pub closed spec fn toks(&self) -> Seq<SToken> {
        tokens_view(self.tokens@)
    }

    /// The position of the next token.
    pub closed spec fn position(&self) -> int {
        self.pos as int
    }

    pub closed spec fn wf(&self) -> bool {
        self.pos <= self.tokens@.len()
    }

    /// A parser at the first of `tokens`.
    pub fn new(tokens: Vec<Token>) -> (r: Parser)
        ensures
            r.wf(),
            r.toks() == tokens_view(tokens@),
            r.position() == 0,
    {
        Parser { tokens, pos: 0 }
    }

    fn peek(&self) -> (k: TokenKind)
        requires
            self.wf(),
        ensures
            k@ == kind_at(self.toks(), self.pos as int),
    {
        if self.pos < self.tokens.len() {
            self.tokens[self.pos].kind.dup()
        } else {
            TokenKind::EOF
        }
    }

    fn peek_is(&self, k: &TokenKind) -> (r: bool)
        requires
            self.wf(),
        ensures
            r == (kind_at(self.toks(), self.pos as int) == k@),
    {
        if self.pos < self.tokens.len() {
            kind_eq(&self.tokens[self.pos].kind, k)
        } else {
            kind_eq(&TokenKind::EOF, k)
        }
    }

    fn next_token(&mut self) -> (k: TokenKind)
        requires
            old(self).wf(),
        ensures
            final(self).wf(),
            final(self).tokens == old(self).tokens,
            old(self).pos <= final(self).pos,
            k@ == kind_at(old(self).toks(), old(self).pos as int),
            final(self).pos == adv(old(self).toks(), old(self).pos as int),
    {
        let kind = self.peek();
        if self.pos < self.tokens.len() {
            self.pos = self.pos + 1;
        }
        kind
    }

    fn expect(&mut self, expected: TokenKind) -> (r: Result<(), ParserError>)
        requires
            old(self).wf(),
        ensures
            final(self).wf(),
            final(self).tokens == old(self).tokens,
            old(self).pos <= final(self).pos,
            match expect_s(old(self).toks(), old(self).pos as int, expected@) {
                Ok(q) => r is Ok && final(self).pos == q,
                Err((e, q)) => r matches Err(x) && x@ == e && final(self).pos == q,
            },
    {
        let current = self.next_token();
        if kind_eq(&current, &expected) {
            Ok(())
        } else {
            Err(ParserError::UnexpectedToken(expected, current))
        }
    }

    fn expect_ident(&mut self) -> (r: Result<String, ParserError>)
        requires
            old(self).wf(),
        ensures
            final(self).wf(),
            final(self).tokens == old(self).tokens,
            old(self).pos <= final(self).pos,
            text_res(r, ident_s(old(self).toks(), old(self).pos as int), final(self).pos as int),
    {
        match self.next_token() {
            TokenKind::Variable(s) => Ok(s),
            t => {
                let mut m: Vec<char> = Vec::new();
                push_str(&mut m, "Expected identifier, found ");
                push_kind_debug(&mut m, &t);
                Err(ParserError::Generic(string_of(&m)))
            },
        }
    }

    /// Parses a whole program: statements up to `EOF`, as one block.
    pub fn parse_program(&mut self) -> (r: Result<Expression, ParserError>)
        requires
            old(self).wf(),
        ensures
            final(self).wf(),
            final(self).toks() == old(self).toks(),
            expr_res(r, program_s(old(self).toks(), old(self).position()), final(self).position()),
    {
        let ghost ts = self.toks();
        let ghost p0 = self.pos as int;
        let mut statements: Vec<Expression> = Vec::new();
        proof {
            lemma_exprs_view_empty();
        }
        while !self.peek_is(&TokenKind::EOF)
            invariant
                self.wf(),
                self.tokens == old(self).tokens,
                ts == self.toks(),
                p0 == old(self).pos,
                program_s(ts, p0) == program_items_s(ts, self.pos as int, exprs_view(statements@)),
            decreases self.tokens@.len() - self.pos,
        {
            let ghost p = self.pos as int;
            match self.parse_statement() {
                Ok(st) => {
                    proof {
                        lemma_exprs_view_push(statements@, st);
                    }
                    statements.push(st);
                },
                Err(e) => {
                    return Err(e);
                },
            }
        }
        Ok(mk_block(statements))
    }

    #[verifier::rlimit(60)]
    fn parse_statement(&mut self) -> (r: Result<Expression, ParserError>)
        requires
            old(self).wf(),
        ensures
            final(self).wf(),
            final(self).tokens == old(self).tokens,
            expr_res(r, stmt_s(old(self).toks(), old(self).pos as int), final(self).pos as int),
            r is Ok ==> old(self).pos < final(self).pos,
        decreases old(self).tokens@.len() - old(self).pos, 4int,
    {
        let ghost ts = self.toks();
        let ghost p = self.pos as int;
        match self.peek() {
            TokenKind::Function => self.parse_fn(),
            TokenKind::If => self.parse_if(),
            TokenKind::While => self.parse_while(),
            TokenKind::For => self.parse_for(),
            TokenKind::Return => {
                self.next_token();
                let expr = if !self.peek_is(&TokenKind::Semicolon) {
                    match self.parse_expr(0) {
                        Ok(e) => Some(Box::new(e)),
                        Err(e) => {
                            return Err(e);
                        },
                    }
                } else {
                    None
                };
                match self.expect(TokenKind::Semicolon) {
                    Ok(()) => {},
                    Err(e) => {
                        return Err(e);
                    },
                }
                Ok(Expression::Return(expr))
            },
            TokenKind::Cout => self.parse_cout(),
            TokenKind::Cin => self.parse_cin(),
            TokenKind::CurlyBracketOpen => self.parse_block(),
            first => {
                let is_decl = match first {
                    TokenKind::I32Type | TokenKind::Ptr | TokenKind::Variable(_) => {
                        self.pos < self.tokens.len() - 1 && match &self.tokens[self.pos + 1].kind {
                            TokenKind::Variable(_) => true,
                            _ => false,
                        }
                    },
                    _ => false,
                };
                if is_decl {
                    self.parse_var_decl()
                } else {
                    let expr = match self.parse_expr(0) {
                        Ok(e) => e,
                        Err(e) => {
                            return Err(e);
                        },
                    };
                    match self.expect(TokenKind::Semicolon) {
                        Ok(()) => {},
                        Err(e) => {
                            return Err(e);
                        },
                    }
                    Ok(expr)
                }
            },
        }
    }

    fn parse_var_decl(&mut self) -> (r: Result<Expression, ParserError>)
        requires
            old(self).wf(),
        ensures
            final(self).wf(),
            final(self).tokens == old(self).tokens,
            expr_res(r, var_decl_s(old(self).toks(), old(self).pos as int), final(self).pos as int),
            r is Ok ==> old(self).pos < final(self).pos,
        decreases old(self).tokens@.len() - old(self).pos, 3int,
    {
        let typ = match self.parse_type() {
            Ok(t) => t,
            Err(e) => {
                return Err(e);
            },
        };
        let name = match self.expect_ident() {
            Ok(n) => n,
            Err(e) => {
                return Err(e);
            },
        };
        let mut init = None;
        let mut size = None;
        if self.peek_is(&TokenKind::SquareBracketOpen) {
            self.next_token();
            match self.parse_expr(0) {
                Ok(e) => {
                    size = Some(Box::new(e));
                },
                Err(e) => {
                    return Err(e);
                },
            }
            match self.expect(TokenKind::SquareBracketClose) {
                Ok(()) => {},
                Err(e) => {
                    return Err(e);
                },
            }
        } else if self.peek_is(&TokenKind::Assign) {
            self.next_token();
            match self.parse_expr(0) {
                Ok(e) => {
                    init = Some(Box::new(e));
                },
                Err(e) => {
                    return Err(e);
                },
            }
        }
        match self.expect(TokenKind::Semicolon) {
            Ok(()) => {},
            Err(e) => {
                return Err(e);
            },
        }
        Ok(Expression::VarDecl { typ, name, init, size })
    }

    fn parse_type(&mut self) -> (r: Result<String, ParserError>)
        requires
            old(self).wf(),
        ensures
            final(self).wf(),
            final(self).tokens == old(self).tokens,
            old(self).pos <= final(self).pos,
            text_res(r, type_s(old(self).toks(), old(self).pos as int), final(self).pos as int),
    {
        match self.next_token() {
            TokenKind::I32Type => Ok(string_of(&chars_of("i32"))),
            TokenKind::Ptr => Ok(string_of(&chars_of("ptr"))),
            TokenKind::Variable(s) => Ok(s),
            t => {
                let mut m: Vec<char> = Vec::new();
                push_str(&mut m, "Expected type, got ");
                push_kind_debug(&mut m, &t);
                Err(ParserError::Generic(string_of(&m)))
            },
        }
    }

    #[verifier::rlimit(60)]
    fn parse_block(&mut self) -> (r: Result<Expression, ParserError>)
        requires
            old(self).wf(),
        ensures
            final(self).wf(),
            final(self).tokens == old(self).tokens,
            expr_res(r, block_s(old(self).toks(), old(self).pos as int), final(self).pos as int),
            r is Ok ==> old(self).pos < final(self).pos,
        decreases old(self).tokens@.len() - old(self).pos, 3int,
    {
        let ghost ts = self.toks();
        let ghost p0 = self.pos as int;
        match self.expect(TokenKind::CurlyBracketOpen) {
            Ok(()) => {},
            Err(e) => {
                return Err(e);
            },
        }
        let ghost q = self.pos as int;
        let mut stmts: Vec<Expression> = Vec::new();
        proof {
            lemma_exprs_view_empty();
        }
        while !self.peek_is(&TokenKind::CurlyBracketClose) && !self.peek_is(&TokenKind::EOF)
            invariant
                self.wf(),
                self.tokens == old(self).tokens,
                ts == self.toks(),
                p0 == old(self).pos,
                p0 < q <= self.pos,
                expect_s(ts, p0, SKind::CurlyBracketOpen) == Ok::<int, (SError, int)>(q),
                block_items_s(ts, q, Seq::empty()) == block_items_s(
                    ts,
                    self.pos as int,
                    exprs_view(stmts@),
                ),
            decreases self.tokens@.len() - self.pos,
        {
            match self.parse_statement() {
                Ok(st) => {
                    proof {
                        lemma_exprs_view_push(stmts@, st);
                    }
                    stmts.push(st);
                },
                Err(e) => {
                    return Err(e);
                },
            }
        }
        match self.expect(TokenKind::CurlyBracketClose) {
            Ok(()) => {},
            Err(e) => {
                return Err(e);
            },
        }
        Ok(mk_block(stmts))
    }

    #[verifier::rlimit(100)]
    fn parse_fn(&mut self) -> (r: Result<Expression, ParserError>)
        requires
            old(self).wf(),
        ensures
            final(self).wf(),
            final(self).tokens == old(self).tokens,
            expr_res(r, fn_s(old(self).toks(), old(self).pos as int), final(self).pos as int),
            r is Ok ==> old(self).pos < final(self).pos,
        decreases old(self).tokens@.len() - old(self).pos, 3int,
    {
        let ghost ts = self.toks();
        let ghost p0 = self.pos as int;
        match self.expect(TokenKind::Function) {
            Ok(()) => {},
            Err(e) => {
                return Err(e);
            },
        }
        assert(p0 < self.pos);
        let name = match self.expect_ident() {
            Ok(n) => n,
            Err(e) => {
                return Err(e);
            },
        };
        match self.expect(TokenKind::RoundBracketOpen) {
            Ok(()) => {},
            Err(e) => {
                return Err(e);
            },
        }
        let args = if !self.peek_is(&TokenKind::RoundBracketClose) {
            match self.parse_fn_args() {
                Ok(a) => a,
                Err(e) => {
                    return Err(e);
                },
            }
        } else {
            let a: Vec<(String, String)> = Vec::new();
            assert(arg_pairs_view(a@) =~= Seq::empty());
            a
        };
        match self.expect(TokenKind::RoundBracketClose) {
            Ok(()) => {},
            Err(e) => {
                return Err(e);
            },
        }
        let mut ret_type = None;
        if self.peek_is(&TokenKind::Arrow) {
            self.next_token();
            match self.parse_type() {
                Ok(t) => {
                    ret_type = Some(t);
                },
                Err(e) => {
                    return Err(e);
                },
            }
        }
        let body = match self.parse_block() {
            Ok(b) => Box::new(b),
            Err(e) => {
                return Err(e);
            },
        };
        let r = Expression::FuncDecl { name, args, ret_type, body };
        Ok(r)
    }


    /// The arguments of a function declaration: `type name (, type name)*`.
    fn parse_fn_args(&mut self) -> (r: Result<Vec<(String, String)>, ParserError>)
        requires
            old(self).wf(),
        ensures
            final(self).wf(),
            final(self).tokens == old(self).tokens,
            old(self).pos <= final(self).pos,
            match fn_args_s(old(self).toks(), old(self).pos as int, Seq::empty()) {
                Ok((a, q)) => r matches Ok(x) && arg_pairs_view(x@) == a && final(self).pos == q,
                Err((err, q)) => r matches Err(x) && x@ == err && final(self).pos == q,
            },
    {
        let ghost ts = self.toks();
        let ghost p0 = self.pos as int;
        let mut args: Vec<(String, String)> = Vec::new();
        assert(arg_pairs_view(args@) =~= Seq::empty());
        loop
            invariant
                self.wf(),
                self.tokens == old(self).tokens,
                ts == self.toks(),
                p0 == old(self).pos,
                p0 <= self.pos,
                fn_args_s(ts, p0, Seq::empty()) == fn_args_s(
                    ts,
                    self.pos as int,
                    arg_pairs_view(args@),
                ),
            decreases self.tokens@.len() - self.pos,
        {
            let ghost p = self.pos as int;
            let typ = match self.parse_type() {
                Ok(t) => t,
                Err(e) => {
                    return Err(e);
                },
            };
            let arg_name = match self.expect_ident() {
                Ok(n) => n,
                Err(e) => {
                    return Err(e);
                },
            };
            let ghost before = args@;
            args.push((typ, arg_name));
            assert(arg_pairs_view(args@) =~= arg_pairs_view(before).push(
                (args@.last().0@, args@.last().1@),
            ));
            if self.peek_is(&TokenKind::Comma) {
                self.next_token();
            } else {
                return Ok(args);
            }
        }
    }

    fn parse_if(&mut self) -> (r: Result<Expression, ParserError>)
        requires
            old(self).wf(),
        ensures
            final(self).wf(),
            final(self).tokens == old(self).tokens,
            expr_res(r, if_s(old(self).toks(), old(self).pos as int), final(self).pos as int),
            r is Ok ==> old(self).pos < final(self).pos,
        decreases old(self).tokens@.len() - old(self).pos, 3int,
    {
        match self.expect(TokenKind::If) {
            Ok(()) => {},
            Err(e) => {
                return Err(e);
            },
        }
        let cond = match self.parse_expr(0) {
            Ok(c) => Box::new(c),
            Err(e) => {
                return Err(e);
            },
        };
        let then_br = match self.parse_block() {
            Ok(b) => Box::new(b),
            Err(e) => {
                return Err(e);
            },
        };
        let mut else_br = None;
        if self.peek_is(&TokenKind::Else) {
            self.next_token();
            let e = if self.peek_is(&TokenKind::If) {
                self.parse_if()
            } else {
                self.parse_block()
            };
            match e {
                Ok(b) => {
                    else_br = Some(Box::new(b));
                },
                Err(e) => {
                    return Err(e);
                },
            }
        }
        Ok(Expression::If { cond, then_br, else_br })
    }

    fn parse_while(&mut self) -> (r: Result<Expression, ParserError>)
        requires
            old(self).wf(),
        ensures
            final(self).wf(),
            final(self).tokens == old(self).tokens,
            expr_res(r, while_s(old(self).toks(), old(self).pos as int), final(self).pos as int),
            r is Ok ==> old(self).pos < final(self).pos,
        decreases old(self).tokens@.len() - old(self).pos, 3int,
    {
        match self.expect(TokenKind::While) {
            Ok(()) => {},
            Err(e) => {
                return Err(e);
            },
        }
        let cond = match self.parse_expr(0) {
            Ok(c) => Box::new(c),
            Err(e) => {
                return Err(e);
            },
        };
        let body = match self.parse_block() {
            Ok(b) => Box::new(b),
            Err(e) => {
                return Err(e);
            },
        };
        Ok(Expression::While { cond, body })
    }

    fn parse_for(&mut self) -> (r: Result<Expression, ParserError>)
        requires
            old(self).wf(),
        ensures
            final(self).wf(),
            final(self).tokens == old(self).tokens,
            expr_res(r, for_s(old(self).toks(), old(self).pos as int), final(self).pos as int),
            r is Ok ==> old(self).pos < final(self).pos,
        decreases old(self).tokens@.len() - old(self).pos, 3int,
    {
        match self.expect(TokenKind::For) {
            Ok(()) => {},
            Err(e) => {
                return Err(e);
            },
        }
        match self.expect(TokenKind::RoundBracketOpen) {
            Ok(()) => {},
            Err(e) => {
                return Err(e);
            },
        }
        let init = match self.parse_statement() {
            Ok(s) => Box::new(s),
            Err(e) => {
                return Err(e);
            },
        };
        let cond = match self.parse_expr(0) {
            Ok(c) => Box::new(c),
            Err(e) => {
                return Err(e);
            },
        };
        match self.expect(TokenKind::Semicolon) {
            Ok(()) => {},
            Err(e) => {
                return Err(e);
            },
        }
        let step = match self.parse_expr(0) {
            Ok(c) => Box::new(c),
            Err(e) => {
                return Err(e);
            },
        };
        match self.expect(TokenKind::RoundBracketClose) {
            Ok(()) => {},
            Err(e) => {
                return Err(e);
            },
        }
        let body = match self.parse_block() {
            Ok(b) => Box::new(b),
            Err(e) => {
                return Err(e);
            },
        };
        Ok(Expression::For { init, cond, step, body })
    }

    /// The operands of `cout`/`cin`, each after a `sep` token.
    fn parse_stream_items(&mut self, sep: TokenKind) -> (r: Result<Vec<Expression>, ParserError>)
        requires
            old(self).wf(),
        ensures
            final(self).wf(),
            final(self).tokens == old(self).tokens,
            list_res(
                r,
                stream_items_s(old(self).toks(), old(self).pos as int, sep@, Seq::empty()),
                final(self).pos as int,
            ),
            r is Ok ==> old(self).pos <= final(self).pos,
        decreases old(self).tokens@.len() - old(self).pos, 0int,
    {
        let ghost ts = self.toks();
        let ghost p0 = self.pos as int;
        let mut exprs: Vec<Expression> = Vec::new();
        proof {
            lemma_exprs_view_empty();
        }
        while self.peek_is(&sep)
            invariant
                self.wf(),
                self.tokens == old(self).tokens,
                ts == self.toks(),
                p0 == old(self).pos,
                p0 <= self.pos,
                stream_items_s(ts, p0, sep@, Seq::empty()) == stream_items_s(
                    ts,
                    self.pos as int,
                    sep@,
                    exprs_view(exprs@),
                ),
            decreases self.tokens@.len() - self.pos,
        {
            if self.pos >= self.tokens.len() {
                // past the end only `EOF` is seen, and `sep` is never `EOF`
                // here: the loop ends as the spec does
                assert(stream_items_s(ts, self.pos as int, sep@, exprs_view(exprs@)) == Ok::<
                    (Seq<SExpr>, int),
                    (SError, int),
                >((exprs_view(exprs@), self.pos as int)));
                return Ok(exprs);
            }
            self.next_token();
            match self.parse_expr(0) {
                Ok(e) => {
                    proof {
                        lemma_exprs_view_push(exprs@, e);
                    }
                    exprs.push(e);
                },
                Err(e) => {
                    return Err(e);
                },
            }
        }
        Ok(exprs)
    }

    fn parse_cout(&mut self) -> (r: Result<Expression, ParserError>)
        requires
            old(self).wf(),
        ensures
            final(self).wf(),
            final(self).tokens == old(self).tokens,
            expr_res(
                r,
                stream_s(old(self).toks(), old(self).pos as int, SKind::Cout, SKind::OpShiftLeft),
                final(self).pos as int,
            ),
            r is Ok ==> old(self).pos < final(self).pos,
        decreases old(self).tokens@.len() - old(self).pos, 3int,
    {
        match self.expect(TokenKind::Cout) {
            Ok(()) => {},
            Err(e) => {
                return Err(e);
            },
        }
        let exprs = match self.parse_stream_items(TokenKind::OpShiftLeft) {
            Ok(v) => v,
            Err(e) => {
                return Err(e);
            },
        };
        match self.expect(TokenKind::Semicolon) {
            Ok(()) => {},
            Err(e) => {
                return Err(e);
            },
        }
        Ok(mk_cout(exprs))
    }

    fn parse_cin(&mut self) -> (r: Result<Expression, ParserError>)
        requires
            old(self).wf(),
        ensures
            final(self).wf(),
            final(self).tokens == old(self).tokens,
            expr_res(
                r,
                stream_s(old(self).toks(), old(self).pos as int, SKind::Cin, SKind::OpShiftRight),
                final(self).pos as int,
            ),
            r is Ok ==> old(self).pos < final(self).pos,
        decreases old(self).tokens@.len() - old(self).pos, 3int,
    {
        match self.expect(TokenKind::Cin) {
            Ok(()) => {},
            Err(e) => {
                return Err(e);
            },
        }
        let exprs = match self.parse_stream_items(TokenKind::OpShiftRight) {
            Ok(v) => v,
            Err(e) => {
                return Err(e);
            },
        };
        match self.expect(TokenKind::Semicolon) {
            Ok(()) => {},
            Err(e) => {
                return Err(e);
            },
        }
        Ok(mk_cin(exprs))
    }

    /// A comma-separated list of one or more expressions.
    fn parse_expr_list(&mut self) -> (r: Result<Vec<Expression>, ParserError>)
        requires
            old(self).wf(),
        ensures
            final(self).wf(),
            final(self).tokens == old(self).tokens,
            list_res(
                r,
                expr_list_s(old(self).toks(), old(self).pos as int, Seq::empty()),
                final(self).pos as int,
            ),
            r is Ok ==> old(self).pos < final(self).pos,
        decreases old(self).tokens@.len() - old(self).pos, 3int,
    {
        let ghost ts = self.toks();
        let ghost p0 = self.pos as int;
        let mut items: Vec<Expression> = Vec::new();
        proof {
            lemma_exprs_view_empty();
        }
        loop
            invariant
                self.wf(),
                self.tokens == old(self).tokens,
                ts == self.toks(),
                p0 == old(self).pos,
                p0 <= self.pos,
                items@.len() > 0 ==> p0 < self.pos,
                expr_list_s(ts, p0, Seq::empty()) == expr_list_s(
                    ts,
                    self.pos as int,
                    exprs_view(items@),
                ),
            decreases self.tokens@.len() - self.pos,
        {
            let e = match self.parse_expr(0) {
                Ok(e) => e,
                Err(e) => {
                    return Err(e);
                },
            };
            proof {
                lemma_exprs_view_push(items@, e);
            }
            items.push(e);
            if self.peek_is(&TokenKind::Comma) {
                self.next_token();
            } else {
                return Ok(items);
            }
        }
    }

    /// An expression whose operators bind at least as tightly as `min_bp`.
    fn parse_expr(&mut self, min_bp: u8) -> (r: Result<Expression, ParserError>)
        requires
            old(self).wf(),
        ensures
            final(self).wf(),
            final(self).tokens == old(self).tokens,
            expr_res(
                r,
                expr_s(old(self).toks(), old(self).pos as int, min_bp as int),
                final(self).pos as int,
            ),
            r is Ok ==> old(self).pos < final(self).pos,
        decreases old(self).tokens@.len() - old(self).pos, 2int,
    {
        let ghost ts = self.toks();
        let ghost p0 = self.pos as int;
        let mut lhs = match self.parse_prefix() {
            Ok(e) => e,
            Err(e) => {
                assert(prefix_s(ts, p0) is Err);
                assert(ts == old(self).toks());
                assert(expr_s(ts, p0, min_bp as int) is Err);
                return Err(e);
            },
        };
        let ghost q0 = self.pos as int;
        let ghost lhs0 = lhs@;
        loop
            invariant
                self.wf(),
                self.tokens == old(self).tokens,
                ts == self.toks(),
                p0 == old(self).pos,
                p0 < q0 <= self.pos,
                expr_s(ts, p0, min_bp as int) == expr_loop_s(ts, q0, min_bp as int, lhs0),
                expr_loop_s(ts, q0, min_bp as int, lhs0) == expr_loop_s(
                    ts,
                    self.pos as int,
                    min_bp as int,
                    lhs@,
                ),
            decreases self.tokens@.len() - self.pos,
        {
            let kind = self.peek();
            match kind {
                TokenKind::SquareBracketOpen => {
                    self.next_token();
                    let index = match self.parse_expr(0) {
                        Ok(e) => e,
                        Err(e) => {
                            return Err(e);
                        },
                    };
                    match self.expect(TokenKind::SquareBracketClose) {
                        Ok(()) => {},
                        Err(e) => {
                            return Err(e);
                        },
                    }
                    lhs = Expression::ArrayIndex { arr: Box::new(lhs), index: Box::new(index) };
                    continue ;
                },
                TokenKind::RoundBracketOpen => {
                    self.next_token();
                    let args = if !self.peek_is(&TokenKind::RoundBracketClose) {
                        match self.parse_expr_list() {
                            Ok(v) => v,
                            Err(e) => {
                                return Err(e);
                            },
                        }
                    } else {
                        proof {
                            lemma_exprs_view_empty();
                        }
                        Vec::new()
                    };
                    match self.expect(TokenKind::RoundBracketClose) {
                        Ok(()) => {},
                        Err(e) => {
                            return Err(e);
                        },
                    }
                    lhs = mk_call(lhs, args);
                    continue ;
                },
                TokenKind::OpInc => {
                    self.next_token();
                    lhs = mk_op(Ops::Inc, one_expr(lhs));
                    continue ;
                },
                TokenKind::OpDec => {
                    self.next_token();
                    lhs = mk_op(Ops::Dec, one_expr(lhs));
                    continue ;
                },
                _ => {},
            }
            match Self::infix_binding_power(&kind) {
                Some((l_bp, r_bp)) => {
                    if l_bp < min_bp {
                        return Ok(lhs);
                    }
                    self.next_token();
                    let op = Self::token_to_op(&kind);
                    let rhs = match self.parse_expr(r_bp) {
                        Ok(e) => e,
                        Err(e) => {
                            return Err(e);
                        },
                    };
                    lhs = mk_op(op, two_exprs(lhs, rhs));
                    continue ;
                },
                None => {
                    return Ok(lhs);
                },
            }
        }
    }

    fn parse_prefix(&mut self) -> (r: Result<Expression, ParserError>)
        requires
            old(self).wf(),
        ensures
            final(self).wf(),
            final(self).tokens == old(self).tokens,
            expr_res(r, prefix_s(old(self).toks(), old(self).pos as int), final(self).pos as int),
            r is Ok ==> old(self).pos < final(self).pos,
        decreases old(self).tokens@.len() - old(self).pos, 1int,
    {
        let ghost ts = self.toks();
        let ghost p = self.pos as int;
        match self.next_token() {
            TokenKind::NumberInteger(n) => Ok(Expression::Atom(Value::Integer(n))),
            TokenKind::StringLiteral(s) => Ok(Expression::Atom(Value::String(s))),
            TokenKind::CharLiteral(c) => Ok(Expression::Atom(Value::Char(c))),
            TokenKind::True => Ok(Expression::Atom(Value::Boolean(true))),
            TokenKind::False => Ok(Expression::Atom(Value::Boolean(false))),
            TokenKind::Variable(s) => Ok(Expression::Atom(Value::Variable(s))),
            TokenKind::RoundBracketOpen => {
                let ghost q = self.pos as int;
                assert(kind_at(ts, p) == SKind::RoundBracketOpen);
                assert(q == p + 1);
                let expr = match self.parse_expr(0) {
                    Ok(e) => e,
                    Err(e) => {
                        assert(self.toks() == ts);
                        assert(expr_s(ts, q, 0) is Err);
                        assert(prefix_s(ts, p) is Err);
                        return Err(e);
                    },
                };
                match self.expect(TokenKind::RoundBracketClose) {
                    Ok(()) => {},
                    Err(e) => {
                        return Err(e);
                    },
                }
                Ok(expr)
            },
            TokenKind::OpSub => match self.parse_expr(23) {
                Ok(e) => Ok(mk_op(Ops::Neg, one_expr(e))),
                Err(e) => Err(e),
            },
            TokenKind::OpNot => match self.parse_expr(23) {
                Ok(e) => Ok(mk_op(Ops::Not, one_expr(e))),
                Err(e) => Err(e),
            },
            TokenKind::OpBitOr => {
                let expr = match self.parse_expr(8) {
                    Ok(e) => e,
                    Err(e) => {
                        return Err(e);
                    },
                };
                match self.expect(TokenKind::OpBitOr) {
                    Ok(()) => {},
                    Err(e) => {
                        return Err(e);
                    },
                }
                Ok(Expression::Absolute(Box::new(expr)))
            },
            TokenKind::SquareBracketOpen => {
                let items = if !self.peek_is(&TokenKind::SquareBracketClose) {
                    match self.parse_expr_list() {
                        Ok(v) => v,
                        Err(e) => {
                            return Err(e);
                        },
                    }
                } else {
                    proof {
                        lemma_exprs_view_empty();
                    }
                    Vec::new()
                };
                match self.expect(TokenKind::SquareBracketClose) {
                    Ok(()) => {},
                    Err(e) => {
                        return Err(e);
                    },
                }
                Ok(mk_array_init(items))
            },
            t => {
                let mut m: Vec<char> = Vec::new();
                push_str(&mut m, "Unexpected prefix token: ");
                push_kind_debug(&mut m, &t);
                Err(ParserError::Generic(string_of(&m)))
            },
        }
    }

    fn infix_binding_power(kind: &TokenKind) -> (r: Option<(u8, u8)>)
        ensures
            match infix_bp(kind@) {
                Some((l, rr)) => r matches Some((a, b)) && a == l && b == rr,
                None => r is None,
            },
    {
        match kind {
            TokenKind::Assign => Some((2, 1)),
            TokenKind::OpOr => Some((3, 4)),
            TokenKind::OpAnd => Some((5, 6)),
            TokenKind::OpBitOr => Some((7, 8)),
            TokenKind::OpXor => Some((9, 10)),
            TokenKind::OpBitAnd => Some((11, 12)),
            TokenKind::OpEq | TokenKind::OpNotEq => Some((13, 14)),
            TokenKind::OpLessThan
            | TokenKind::OpLessOrEq
            | TokenKind::OpGreaterThan
            | TokenKind::OpGreaterOrEq => Some((15, 16)),
            TokenKind::OpAdd | TokenKind::OpSub => Some((19, 20)),
            TokenKind::OpMul | TokenKind::OpDiv | TokenKind::OpRem => Some((21, 22)),
            _ => None,
        }
    }

    fn token_to_op(kind: &TokenKind) -> (op: Ops)
        requires
            infix_bp(kind@) is Some || kind@ is OpShiftLeft || kind@ is OpShiftRight,
        ensures
            op == token_op(kind@),
    {
        match kind {
            TokenKind::Assign => Ops::Assign,
            TokenKind::OpAdd => Ops::Add,
            TokenKind::OpSub => Ops::Sub,
            TokenKind::OpMul => Ops::Mul,
            TokenKind::OpDiv => Ops::Div,
            TokenKind::OpRem => Ops::Rem,
            TokenKind::OpEq => Ops::Eq,
            TokenKind::OpNotEq => Ops::NotEq,
            TokenKind::OpLessThan => Ops::Less,
            TokenKind::OpLessOrEq => Ops::LessEq,
            TokenKind::OpGreaterThan => Ops::Greater,
            TokenKind::OpGreaterOrEq => Ops::GreaterEq,
            TokenKind::OpShiftLeft => Ops::Add,
            TokenKind::OpShiftRight => Ops::Add,
            TokenKind::OpAnd => Ops::And,
            TokenKind::OpOr => Ops::Or,
            TokenKind::OpBitAnd => Ops::BitAnd,
            TokenKind::OpBitOr => Ops::BitOr,
            _ => Ops::Xor,
        }
    }
}

} // verus!
