//! The parser and the `EOF` token: it reads past the end of its tokens as
//! `EOF`, so an `EOF` token put after the last one changes nothing that it
//! gives; and no statement reads an `EOF` token, so a program ends at the
//! first one.
use vstd::prelude::*;

use crate::lexer::{SKind, SToken};
use crate::parser::{
    PRes, SExpr, block_items_s, block_s, expect_s, expr_list_s, expr_loop_s, expr_s, fn_args_s,
    fn_s, forward, ident_s, if_s, kind_at, program_s, prefix_s, program_items_s, stmt_s, stream_items_s,
    stream_s, type_s, var_decl_s, while_s, for_s,
};

verus! {

/// `ts2` is `ts` with one `EOF` token after its last.
pub open spec fn padded(ts: Seq<SToken>, ts2: Seq<SToken>) -> bool {
    &&& ts2.len() == ts.len() + 1
    &&& forall|i: int| 0 <= i < ts.len() ==> #[trigger] ts2[i] == ts[i]
    &&& ts2[ts.len() as int].kind == SKind::EOF
}

/// Positions of the two token sequences that stand for each other: the
/// same position, or the end of `ts` and the position after the added
/// `EOF`.
pub open spec fn pos_rel(n: int, q: int, q2: int) -> bool {
    (0 <= q <= n && q2 == q) || (q == n && q2 == n + 1)
}

/// Two parse results that give the same tree or the same error, at
/// positions that stand for each other.
pub open spec fn same_res<T>(a: PRes<T>, b: PRes<T>, n: int) -> bool {
    match a {
        Ok((v, q)) => b matches Ok((v2, q2)) && v2 == v && pos_rel(n, q, q2),
        Err((e, q)) => b matches Err((e2, q2)) && e2 == e && pos_rel(n, q, q2),
    }
}

proof fn lemma_basic(ts: Seq<SToken>, ts2: Seq<SToken>, p: int, p2: int)
    requires
        padded(ts, ts2),
        pos_rel(ts.len() as int, p, p2),
    ensures
        kind_at(ts2, p2) == kind_at(ts, p),
        same_res(ident_s(ts, p), ident_s(ts2, p2), ts.len() as int),
        same_res(type_s(ts, p), type_s(ts2, p2), ts.len() as int),
        forall|k: SKind| #[trigger] expect_s(ts, p, k) matches Ok(q) ==> (expect_s(ts2, p2, k) matches Ok(
            q2,
        ) && pos_rel(ts.len() as int, q, q2)),
        forall|k: SKind| #[trigger] expect_s(ts, p, k) matches Err((e, q)) ==> (expect_s(ts2, p2, k) matches Err(
            (e2, q2),
        ) && e2 == e && pos_rel(ts.len() as int, q, q2)),
{
}

proof fn lemma_fn_args(ts: Seq<SToken>, ts2: Seq<SToken>, p: int, p2: int, acc: Seq<(Seq<char>, Seq<char>)>)
    requires
        padded(ts, ts2),
        pos_rel(ts.len() as int, p, p2),
    ensures
        same_res(fn_args_s(ts, p, acc), fn_args_s(ts2, p2, acc), ts.len() as int),
    decreases ts.len() - p,
{
    lemma_basic(ts, ts2, p, p2);
    if let (Ok((typ, q1)), Ok((_, q1b))) = (type_s(ts, p), type_s(ts2, p2)) {
        lemma_basic(ts, ts2, q1, q1b);
        if let (Ok((name, q2)), Ok((_, q2b))) = (ident_s(ts, q1), ident_s(ts2, q1b)) {
            lemma_basic(ts, ts2, q2, q2b);
            if kind_at(ts, q2) == SKind::Comma && forward(ts, p, q2) {
                lemma_fn_args(ts, ts2, q2 + 1, q2b + 1, acc.push((typ, name)));
            }
        }
    }
}

proof fn lemma_expr(ts: Seq<SToken>, ts2: Seq<SToken>, p: int, p2: int, bp: int)
    requires
        padded(ts, ts2),
        pos_rel(ts.len() as int, p, p2),
    ensures
        same_res(expr_s(ts, p, bp), expr_s(ts2, p2, bp), ts.len() as int),
    decreases ts.len() - p, 2int,
{
    lemma_prefix(ts, ts2, p, p2);
    if let (Ok((lhs, q)), Ok((_, q2))) = (prefix_s(ts, p), prefix_s(ts2, p2)) {
        if forward(ts, p, q) {
            lemma_expr_loop(ts, ts2, q, q2, bp, lhs);
        }
    }
}

proof fn lemma_expr_loop(ts: Seq<SToken>, ts2: Seq<SToken>, q: int, q2: int, bp: int, lhs: SExpr)
    requires
        padded(ts, ts2),
        pos_rel(ts.len() as int, q, q2),
    ensures
        same_res(expr_loop_s(ts, q, bp, lhs), expr_loop_s(ts2, q2, bp, lhs), ts.len() as int),
    decreases ts.len() - q, 0int,
{
    lemma_basic(ts, ts2, q, q2);
    let k = kind_at(ts, q);
    if k == SKind::SquareBracketOpen {
        lemma_expr(ts, ts2, q + 1, q2 + 1, 0);
        if let (Ok((index, r)), Ok((_, rb))) = (expr_s(ts, q + 1, 0), expr_s(ts2, q2 + 1, 0)) {
            if forward(ts, q, r) {
                lemma_basic(ts, ts2, r, rb);
                if let (Ok(r2), Ok(r2b)) = (expect_s(ts, r, SKind::SquareBracketClose), expect_s(
                    ts2,
                    rb,
                    SKind::SquareBracketClose,
                )) {
                    lemma_expr_loop(
                        ts,
                        ts2,
                        r2,
                        r2b,
                        bp,
                        SExpr::ArrayIndex { arr: Box::new(lhs), index: Box::new(index) },
                    );
                }
            }
        }
    } else if k == SKind::RoundBracketOpen {
        lemma_basic(ts, ts2, q + 1, q2 + 1);
        if kind_at(ts, q + 1) != SKind::RoundBracketClose {
            lemma_expr_list(ts, ts2, q + 1, q2 + 1, Seq::empty());
        }
        let args: PRes<Seq<SExpr>> = if kind_at(ts, q + 1) != SKind::RoundBracketClose {
            expr_list_s(ts, q + 1, Seq::empty())
        } else {
            Ok((Seq::empty(), q + 1))
        };
        let args2: PRes<Seq<SExpr>> = if kind_at(ts2, q2 + 1) != SKind::RoundBracketClose {
            expr_list_s(ts2, q2 + 1, Seq::empty())
        } else {
            Ok((Seq::empty(), q2 + 1))
        };
        if let (Ok((a, r)), Ok((_, rb))) = (args, args2) {
            if q < r <= ts.len() {
                lemma_basic(ts, ts2, r, rb);
                if let (Ok(r2), Ok(r2b)) = (expect_s(ts, r, SKind::RoundBracketClose), expect_s(
                    ts2,
                    rb,
                    SKind::RoundBracketClose,
                )) {
                    lemma_expr_loop(ts, ts2, r2, r2b, bp, SExpr::FuncCall { caller: Box::new(lhs), args: a });
                }
            }
        }
    } else if k == SKind::OpInc {
        lemma_expr_loop(ts, ts2, q + 1, q2 + 1, bp, SExpr::Operation(crate::parser::Ops::Inc, seq![lhs]));
    } else if k == SKind::OpDec {
        lemma_expr_loop(ts, ts2, q + 1, q2 + 1, bp, SExpr::Operation(crate::parser::Ops::Dec, seq![lhs]));
    } else if let Some((l, r)) = crate::parser::infix_bp(k) {
        if l >= bp {
            lemma_expr(ts, ts2, q + 1, q2 + 1, r);
            if let (Ok((rhs, r2)), Ok((_, r2b))) = (expr_s(ts, q + 1, r), expr_s(ts2, q2 + 1, r)) {
                if forward(ts, q, r2) {
                    lemma_expr_loop(
                        ts,
                        ts2,
                        r2,
                        r2b,
                        bp,
                        SExpr::Operation(crate::parser::token_op(k), seq![lhs, rhs]),
                    );
                }
            }
        }
    }
}

proof fn lemma_expr_list(ts: Seq<SToken>, ts2: Seq<SToken>, p: int, p2: int, acc: Seq<SExpr>)
    requires
        padded(ts, ts2),
        pos_rel(ts.len() as int, p, p2),
    ensures
        same_res(expr_list_s(ts, p, acc), expr_list_s(ts2, p2, acc), ts.len() as int),
    decreases ts.len() - p, 3int,
{
    lemma_expr(ts, ts2, p, p2, 0);
    lemma_prefix(ts, ts2, p, p2);
    if let (Ok((a, q)), Ok((_, q2))) = (expr_s(ts, p, 0), expr_s(ts2, p2, 0)) {
        if forward(ts, p, q) {
            lemma_basic(ts, ts2, q, q2);
            if kind_at(ts, q) == SKind::Comma {
                lemma_expr_list(ts, ts2, q + 1, q2 + 1, acc.push(a));
            }
        }
    }
}

proof fn lemma_prefix(ts: Seq<SToken>, ts2: Seq<SToken>, p: int, p2: int)
    requires
        padded(ts, ts2),
        pos_rel(ts.len() as int, p, p2),
    ensures
        same_res(prefix_s(ts, p), prefix_s(ts2, p2), ts.len() as int),
        prefix_s(ts, p) is Ok ==> p < ts.len() && p2 == p,
    decreases ts.len() - p, 1int,
{
    lemma_basic(ts, ts2, p, p2);
    let t = kind_at(ts, p);
    if p < ts.len() {
        let q = p + 1;
        lemma_basic(ts, ts2, q, q);
        match t {
            SKind::RoundBracketOpen => {
                lemma_expr(ts, ts2, q, q, 0);
                if let (Ok((_, r)), Ok((_, rb))) = (expr_s(ts, q, 0), expr_s(ts2, q, 0)) {
                    lemma_basic(ts, ts2, r, rb);
                }
            },
            SKind::OpSub => lemma_expr(ts, ts2, q, q, 23),
            SKind::OpNot => lemma_expr(ts, ts2, q, q, 23),
            SKind::OpBitOr => {
                lemma_expr(ts, ts2, q, q, 8);
                if let (Ok((_, r)), Ok((_, rb))) = (expr_s(ts, q, 8), expr_s(ts2, q, 8)) {
                    lemma_basic(ts, ts2, r, rb);
                }
            },
            SKind::SquareBracketOpen => {
                if kind_at(ts, q) != SKind::SquareBracketClose {
                    lemma_expr_list(ts, ts2, q, q, Seq::empty());
                    if let (Ok((_, r)), Ok((_, rb))) = (expr_list_s(ts, q, Seq::empty()), expr_list_s(
                        ts2,
                        q,
                        Seq::empty(),
                    )) {
                        lemma_basic(ts, ts2, r, rb);
                    }
                }
            },
            _ => {},
        }
    }
}

proof fn lemma_stmt(ts: Seq<SToken>, ts2: Seq<SToken>, p: int, p2: int)
    requires
        padded(ts, ts2),
        pos_rel(ts.len() as int, p, p2),
    ensures
        same_res(stmt_s(ts, p), stmt_s(ts2, p2), ts.len() as int),
    decreases ts.len() - p, 4int,
{
    lemma_basic(ts, ts2, p, p2);
    match kind_at(ts, p) {
        SKind::Function => lemma_fn(ts, ts2, p, p2),
        SKind::If => lemma_if(ts, ts2, p, p2),
        SKind::While => lemma_while(ts, ts2, p, p2),
        SKind::For => lemma_for(ts, ts2, p, p2),
        SKind::Return => {
            let q = p + 1;
            lemma_basic(ts, ts2, q, q);
            if kind_at(ts, q) != SKind::Semicolon {
                lemma_expr(ts, ts2, q, q, 0);
                if let (Ok((_, r)), Ok((_, rb))) = (expr_s(ts, q, 0), expr_s(ts2, q, 0)) {
                    lemma_basic(ts, ts2, r, rb);
                }
            }
        },
        SKind::Cout => lemma_stream(ts, ts2, p, p2, SKind::Cout, SKind::OpShiftLeft),
        SKind::Cin => lemma_stream(ts, ts2, p, p2, SKind::Cin, SKind::OpShiftRight),
        SKind::CurlyBracketOpen => lemma_block(ts, ts2, p, p2),
        _ => {
            if p + 1 < ts.len() {
                assert(ts2[p + 1] == ts[p + 1]);
            }
            if crate::parser::is_decl_s(ts, p) {
                lemma_var_decl(ts, ts2, p, p2);
            } else {
                lemma_expr(ts, ts2, p, p2, 0);
                if let (Ok((_, q)), Ok((_, qb))) = (expr_s(ts, p, 0), expr_s(ts2, p2, 0)) {
                    lemma_basic(ts, ts2, q, qb);
                }
            }
        },
    }
}

proof fn lemma_var_decl(ts: Seq<SToken>, ts2: Seq<SToken>, p: int, p2: int)
    requires
        padded(ts, ts2),
        pos_rel(ts.len() as int, p, p2),
    ensures
        same_res(var_decl_s(ts, p), var_decl_s(ts2, p2), ts.len() as int),
    decreases ts.len() - p, 3int,
{
    lemma_basic(ts, ts2, p, p2);
    if let (Ok((_, q1)), Ok((_, q1b))) = (type_s(ts, p), type_s(ts2, p2)) {
        lemma_basic(ts, ts2, q1, q1b);
        if let (Ok((_, q2)), Ok((_, q2b))) = (ident_s(ts, q1), ident_s(ts2, q1b)) {
            lemma_basic(ts, ts2, q2, q2b);
            if p <= q2 <= ts.len() {
                let k = kind_at(ts, q2);
                if k == SKind::SquareBracketOpen {
                    lemma_expr(ts, ts2, q2 + 1, q2b + 1, 0);
                    if let (Ok((_, r)), Ok((_, rb))) = (expr_s(ts, q2 + 1, 0), expr_s(ts2, q2b + 1, 0)) {
                        lemma_basic(ts, ts2, r, rb);
                        if let (Ok(r2), Ok(r2b)) = (expect_s(ts, r, SKind::SquareBracketClose), expect_s(
                            ts2,
                            rb,
                            SKind::SquareBracketClose,
                        )) {
                            lemma_basic(ts, ts2, r2, r2b);
                        }
                    }
                } else if k == SKind::Assign {
                    lemma_expr(ts, ts2, q2 + 1, q2b + 1, 0);
                    if let (Ok((_, r)), Ok((_, rb))) = (expr_s(ts, q2 + 1, 0), expr_s(ts2, q2b + 1, 0)) {
                        lemma_basic(ts, ts2, r, rb);
                    }
                }
            }
        }
    }
}

proof fn lemma_block(ts: Seq<SToken>, ts2: Seq<SToken>, p: int, p2: int)
    requires
        padded(ts, ts2),
        pos_rel(ts.len() as int, p, p2),
    ensures
        same_res(block_s(ts, p), block_s(ts2, p2), ts.len() as int),
    decreases ts.len() - p, 3int,
{
    lemma_basic(ts, ts2, p, p2);
    if let (Ok(q), Ok(qb)) = (expect_s(ts, p, SKind::CurlyBracketOpen), expect_s(ts2, p2, SKind::CurlyBracketOpen)) {
        if forward(ts, p, q) {
            lemma_block_items(ts, ts2, q, qb, Seq::empty());
            if let (Ok((_, r)), Ok((_, rb))) = (block_items_s(ts, q, Seq::empty()), block_items_s(
                ts2,
                qb,
                Seq::empty(),
            )) {
                lemma_basic(ts, ts2, r, rb);
            }
        }
    }
}

proof fn lemma_block_items(ts: Seq<SToken>, ts2: Seq<SToken>, p: int, p2: int, acc: Seq<SExpr>)
    requires
        padded(ts, ts2),
        pos_rel(ts.len() as int, p, p2),
    ensures
        same_res(block_items_s(ts, p, acc), block_items_s(ts2, p2, acc), ts.len() as int),
    decreases ts.len() - p, 5int,
{
    lemma_basic(ts, ts2, p, p2);
    let k = kind_at(ts, p);
    if k != SKind::CurlyBracketClose && k != SKind::EOF {
        lemma_stmt(ts, ts2, p, p2);
        if let (Ok((s, q)), Ok((_, qb))) = (stmt_s(ts, p), stmt_s(ts2, p2)) {
            if forward(ts, p, q) {
                lemma_block_items(ts, ts2, q, qb, acc.push(s));
            }
        }
    }
}

proof fn lemma_fn(ts: Seq<SToken>, ts2: Seq<SToken>, p: int, p2: int)
    requires
        padded(ts, ts2),
        pos_rel(ts.len() as int, p, p2),
    ensures
        same_res(fn_s(ts, p), fn_s(ts2, p2), ts.len() as int),
    decreases ts.len() - p, 3int,
{
    lemma_basic(ts, ts2, p, p2);
    if let (Ok(q1), Ok(q1b)) = (expect_s(ts, p, SKind::Function), expect_s(ts2, p2, SKind::Function)) {
        lemma_basic(ts, ts2, q1, q1b);
        if let (Ok((_, q2)), Ok((_, q2b))) = (ident_s(ts, q1), ident_s(ts2, q1b)) {
            lemma_basic(ts, ts2, q2, q2b);
            if let (Ok(q3), Ok(q3b)) = (expect_s(ts, q2, SKind::RoundBracketOpen), expect_s(
                ts2,
                q2b,
                SKind::RoundBracketOpen,
            )) {
                lemma_basic(ts, ts2, q3, q3b);
                if kind_at(ts, q3) != SKind::RoundBracketClose {
                    lemma_fn_args(ts, ts2, q3, q3b, Seq::empty());
                }
                let args: PRes<Seq<(Seq<char>, Seq<char>)>> = if kind_at(ts, q3) != SKind::RoundBracketClose {
                    fn_args_s(ts, q3, Seq::empty())
                } else {
                    Ok((Seq::empty(), q3))
                };
                let args2: PRes<Seq<(Seq<char>, Seq<char>)>> = if kind_at(ts2, q3b) != SKind::RoundBracketClose {
                    fn_args_s(ts2, q3b, Seq::empty())
                } else {
                    Ok((Seq::empty(), q3b))
                };
                if let (Ok((_, q4)), Ok((_, q4b))) = (args, args2) {
                    lemma_basic(ts, ts2, q4, q4b);
                    if let (Ok(q5), Ok(q5b)) = (expect_s(ts, q4, SKind::RoundBracketClose), expect_s(
                        ts2,
                        q4b,
                        SKind::RoundBracketClose,
                    )) {
                        lemma_basic(ts, ts2, q5, q5b);
                        if kind_at(ts, q5) == SKind::Arrow {
                            lemma_basic(ts, ts2, q5 + 1, q5b + 1);
                        }
                        let ret: PRes<Option<Seq<char>>> = if kind_at(ts, q5) == SKind::Arrow {
                            match type_s(ts, q5 + 1) {
                                Err(e) => Err(e),
                                Ok((t, q6)) => Ok((Some(t), q6)),
                            }
                        } else {
                            Ok((None, q5))
                        };
                        let ret2: PRes<Option<Seq<char>>> = if kind_at(ts2, q5b) == SKind::Arrow {
                            match type_s(ts2, q5b + 1) {
                                Err(e) => Err(e),
                                Ok((t, q6)) => Ok((Some(t), q6)),
                            }
                        } else {
                            Ok((None, q5b))
                        };
                        if let (Ok((_, q6)), Ok((_, q6b))) = (ret, ret2) {
                            if forward(ts, p, q6) {
                                lemma_block(ts, ts2, q6, q6b);
                            }
                        }
                    }
                }
            }
        }
    }
}

proof fn lemma_if(ts: Seq<SToken>, ts2: Seq<SToken>, p: int, p2: int)
    requires
        padded(ts, ts2),
        pos_rel(ts.len() as int, p, p2),
    ensures
        same_res(if_s(ts, p), if_s(ts2, p2), ts.len() as int),
    decreases ts.len() - p, 3int,
{
    lemma_basic(ts, ts2, p, p2);
    if let (Ok(q1), Ok(q1b)) = (expect_s(ts, p, SKind::If), expect_s(ts2, p2, SKind::If)) {
        if forward(ts, p, q1) {
            lemma_expr(ts, ts2, q1, q1b, 0);
            if let (Ok((_, q2)), Ok((_, q2b))) = (expr_s(ts, q1, 0), expr_s(ts2, q1b, 0)) {
                if forward(ts, p, q2) {
                    lemma_block(ts, ts2, q2, q2b);
                    if let (Ok((_, q3)), Ok((_, q3b))) = (block_s(ts, q2), block_s(ts2, q2b)) {
                        lemma_basic(ts, ts2, q3, q3b);
                        if kind_at(ts, q3) == SKind::Else && forward(ts, p, q3) {
                            lemma_basic(ts, ts2, q3 + 1, q3b + 1);
                            if kind_at(ts, q3 + 1) == SKind::If {
                                lemma_if(ts, ts2, q3 + 1, q3b + 1);
                            } else {
                                lemma_block(ts, ts2, q3 + 1, q3b + 1);
                            }
                        }
                    }
                }
            }
        }
    }
}

proof fn lemma_while(ts: Seq<SToken>, ts2: Seq<SToken>, p: int, p2: int)
    requires
        padded(ts, ts2),
        pos_rel(ts.len() as int, p, p2),
    ensures
        same_res(while_s(ts, p), while_s(ts2, p2), ts.len() as int),
    decreases ts.len() - p, 3int,
{
    lemma_basic(ts, ts2, p, p2);
    if let (Ok(q1), Ok(q1b)) = (expect_s(ts, p, SKind::While), expect_s(ts2, p2, SKind::While)) {
        if forward(ts, p, q1) {
            lemma_expr(ts, ts2, q1, q1b, 0);
            if let (Ok((_, q2)), Ok((_, q2b))) = (expr_s(ts, q1, 0), expr_s(ts2, q1b, 0)) {
                if forward(ts, p, q2) {
                    lemma_block(ts, ts2, q2, q2b);
                }
            }
        }
    }
}

proof fn lemma_for(ts: Seq<SToken>, ts2: Seq<SToken>, p: int, p2: int)
    requires
        padded(ts, ts2),
        pos_rel(ts.len() as int, p, p2),
    ensures
        same_res(for_s(ts, p), for_s(ts2, p2), ts.len() as int),
    decreases ts.len() - p, 3int,
{
    lemma_basic(ts, ts2, p, p2);
    if let (Ok(q1), Ok(q1b)) = (expect_s(ts, p, SKind::For), expect_s(ts2, p2, SKind::For)) {
        lemma_basic(ts, ts2, q1, q1b);
        if let (Ok(q2), Ok(q2b)) = (expect_s(ts, q1, SKind::RoundBracketOpen), expect_s(
            ts2,
            q1b,
            SKind::RoundBracketOpen,
        )) {
            if forward(ts, p, q2) {
                lemma_stmt(ts, ts2, q2, q2b);
                if let (Ok((_, q3)), Ok((_, q3b))) = (stmt_s(ts, q2), stmt_s(ts2, q2b)) {
                    if forward(ts, p, q3) {
                        lemma_expr(ts, ts2, q3, q3b, 0);
                        if let (Ok((_, q4)), Ok((_, q4b))) = (expr_s(ts, q3, 0), expr_s(ts2, q3b, 0)) {
                            lemma_basic(ts, ts2, q4, q4b);
                            if let (Ok(q5), Ok(q5b)) = (expect_s(ts, q4, SKind::Semicolon), expect_s(
                                ts2,
                                q4b,
                                SKind::Semicolon,
                            )) {
                                if forward(ts, p, q5) {
                                    lemma_expr(ts, ts2, q5, q5b, 0);
                                    if let (Ok((_, q6)), Ok((_, q6b))) = (expr_s(ts, q5, 0), expr_s(
                                        ts2,
                                        q5b,
                                        0,
                                    )) {
                                        lemma_basic(ts, ts2, q6, q6b);
                                        if let (Ok(q7), Ok(q7b)) = (expect_s(
                                            ts,
                                            q6,
                                            SKind::RoundBracketClose,
                                        ), expect_s(ts2, q6b, SKind::RoundBracketClose)) {
                                            if forward(ts, p, q7) {
                                                lemma_block(ts, ts2, q7, q7b);
                                            }
                                        }
                                    }
                                }
                            }
                        }
                    }
                }
            }
        }
    }
}

proof fn lemma_stream(ts: Seq<SToken>, ts2: Seq<SToken>, p: int, p2: int, kw: SKind, sep: SKind)
    requires
        kw != SKind::EOF,
        sep != SKind::EOF,
        padded(ts, ts2),
        pos_rel(ts.len() as int, p, p2),
    ensures
        same_res(stream_s(ts, p, kw, sep), stream_s(ts2, p2, kw, sep), ts.len() as int),
    decreases ts.len() - p, 3int,
{
    lemma_basic(ts, ts2, p, p2);
    if let (Ok(q1), Ok(q1b)) = (expect_s(ts, p, kw), expect_s(ts2, p2, kw)) {
        if forward(ts, p, q1) {
            lemma_stream_items(ts, ts2, q1, q1b, sep, Seq::empty());
            if let (Ok((_, q2)), Ok((_, q2b))) = (stream_items_s(ts, q1, sep, Seq::empty()), stream_items_s(
                ts2,
                q1b,
                sep,
                Seq::empty(),
            )) {
                lemma_basic(ts, ts2, q2, q2b);
            }
        }
    }
}

proof fn lemma_stream_items(ts: Seq<SToken>, ts2: Seq<SToken>, p: int, p2: int, sep: SKind, acc: Seq<SExpr>)
    requires
        sep != SKind::EOF,
        padded(ts, ts2),
        pos_rel(ts.len() as int, p, p2),
    ensures
        same_res(stream_items_s(ts, p, sep, acc), stream_items_s(ts2, p2, sep, acc), ts.len() as int),
    decreases ts.len() - p, 0int,
{
    lemma_basic(ts, ts2, p, p2);
    if kind_at(ts, p) == sep && p < ts.len() {
        lemma_expr(ts, ts2, p + 1, p2 + 1, 0);
        if let (Ok((e, q)), Ok((_, qb))) = (expr_s(ts, p + 1, 0), expr_s(ts2, p2 + 1, 0)) {
            if forward(ts, p, q) {
                lemma_stream_items(ts, ts2, q, qb, sep, acc.push(e));
            }
        }
    }
}

proof fn lemma_program_items(ts: Seq<SToken>, ts2: Seq<SToken>, p: int, p2: int, acc: Seq<SExpr>)
    requires
        padded(ts, ts2),
        pos_rel(ts.len() as int, p, p2),
    ensures
        same_res(program_items_s(ts, p, acc), program_items_s(ts2, p2, acc), ts.len() as int),
    decreases ts.len() - p,
{
    lemma_basic(ts, ts2, p, p2);
    if kind_at(ts, p) != SKind::EOF {
        lemma_stmt(ts, ts2, p, p2);
        if let (Ok((s, q)), Ok((_, qb))) = (stmt_s(ts, p), stmt_s(ts2, p2)) {
            if forward(ts, p, q) {
                lemma_program_items(ts, ts2, q, qb, acc.push(s));
            }
        }
    }
}

/// Reading past the end of the tokens is reading `EOF`: a program parsed
/// from tokens with one more `EOF` token after the last gives the same
/// tree, or the same error.
pub proof fn lemma_trailing_eof_changes_nothing(ts: Seq<SToken>, eof: SToken)
    requires
        eof.kind == SKind::EOF,
    ensures
        match (crate::parser::program_s(ts, 0), crate::parser::program_s(ts.push(eof), 0)) {
            (Ok((a, _)), Ok((b, _))) => a == b,
            (Err((a, _)), Err((b, _))) => a == b,
            _ => false,
        },
{
    let ts2 = ts.push(eof);
    assert(padded(ts, ts2));
    lemma_program_items(ts, ts2, 0, 0, Seq::empty());
}

/// No `EOF` token among the tokens `p..q`.
pub open spec fn clear(ts: Seq<SToken>, p: int, q: int) -> bool {
    0 <= p <= q <= ts.len() && forall|i: int| p <= i < q ==> (#[trigger] ts[i]).kind != SKind::EOF
}

/// A successful parse from `p` reads no `EOF` token.
pub open spec fn ok_clear<T>(r: PRes<T>, ts: Seq<SToken>, p: int) -> bool {
    r matches Ok((_, q)) ==> clear(ts, p, q)
}

proof fn lemma_clear_join(ts: Seq<SToken>, p: int, q: int, r: int)
    requires
        clear(ts, p, q),
        clear(ts, q, r),
    ensures
        clear(ts, p, r),
{
}

proof fn lemma_clear_basic(ts: Seq<SToken>, p: int)
    requires
        0 <= p <= ts.len(),
    ensures
        ok_clear(ident_s(ts, p), ts, p),
        ok_clear(type_s(ts, p), ts, p),
        forall|k: SKind| k != SKind::EOF ==> (#[trigger] expect_s(ts, p, k) matches Ok(q) ==> clear(ts, p, q)),
        kind_at(ts, p) != SKind::EOF ==> p < ts.len() && clear(ts, p, p + 1),
{
}

proof fn lemma_clear_fn_args(ts: Seq<SToken>, p: int, acc: Seq<(Seq<char>, Seq<char>)>)
    requires
        0 <= p <= ts.len(),
    ensures
        ok_clear(fn_args_s(ts, p, acc), ts, p),
    decreases ts.len() - p,
{
    lemma_clear_basic(ts, p);
    if let Ok((typ, q1)) = type_s(ts, p) {
        lemma_clear_basic(ts, q1);
        if let Ok((name, q2)) = ident_s(ts, q1) {
            lemma_clear_basic(ts, q2);
            if kind_at(ts, q2) == SKind::Comma && forward(ts, p, q2) {
                lemma_clear_fn_args(ts, q2 + 1, acc.push((typ, name)));
                if let Ok((_, r)) = fn_args_s(ts, q2 + 1, acc.push((typ, name))) {
                    lemma_clear_join(ts, p, q1, q2);
                    lemma_clear_join(ts, p, q2, q2 + 1);
                    lemma_clear_join(ts, p, q2 + 1, r);
                }
            } else if let Ok(_) = fn_args_s(ts, p, acc) {
                lemma_clear_join(ts, p, q1, q2);
            }
        }
    }
}

proof fn lemma_clear_expr(ts: Seq<SToken>, p: int, bp: int)
    requires
        0 <= p <= ts.len(),
    ensures
        ok_clear(expr_s(ts, p, bp), ts, p),
    decreases ts.len() - p, 2int,
{
    lemma_clear_prefix(ts, p);
    if let Ok((lhs, q)) = prefix_s(ts, p) {
        if forward(ts, p, q) {
            lemma_clear_expr_loop(ts, q, bp, lhs);
            if let Ok((_, r)) = expr_loop_s(ts, q, bp, lhs) {
                lemma_clear_join(ts, p, q, r);
            }
        }
    }
}

proof fn lemma_clear_expr_loop(ts: Seq<SToken>, q: int, bp: int, lhs: SExpr)
    requires
        0 <= q <= ts.len(),
    ensures
        ok_clear(expr_loop_s(ts, q, bp, lhs), ts, q),
    decreases ts.len() - q, 0int,
{
    lemma_clear_basic(ts, q);
    let k = kind_at(ts, q);
    if k == SKind::SquareBracketOpen {
        lemma_clear_expr(ts, q + 1, 0);
        if let Ok((index, r)) = expr_s(ts, q + 1, 0) {
            if forward(ts, q, r) {
                lemma_clear_basic(ts, r);
                if let Ok(r2) = expect_s(ts, r, SKind::SquareBracketClose) {
                    let l2 = SExpr::ArrayIndex { arr: Box::new(lhs), index: Box::new(index) };
                    lemma_clear_expr_loop(ts, r2, bp, l2);
                    if let Ok((_, r3)) = expr_loop_s(ts, r2, bp, l2) {
                        lemma_clear_join(ts, q, q + 1, r);
                        lemma_clear_join(ts, q, r, r2);
                        lemma_clear_join(ts, q, r2, r3);
                    }
                }
            }
        }
    } else if k == SKind::RoundBracketOpen {
        lemma_clear_basic(ts, q + 1);
        if kind_at(ts, q + 1) != SKind::RoundBracketClose {
            lemma_clear_expr_list(ts, q + 1, Seq::empty());
        }
        let args: PRes<Seq<SExpr>> = if kind_at(ts, q + 1) != SKind::RoundBracketClose {
            expr_list_s(ts, q + 1, Seq::empty())
        } else {
            Ok((Seq::empty(), q + 1))
        };
        if let Ok((a, r)) = args {
            if q < r <= ts.len() {
                lemma_clear_basic(ts, r);
                if let Ok(r2) = expect_s(ts, r, SKind::RoundBracketClose) {
                    let l2 = SExpr::FuncCall { caller: Box::new(lhs), args: a };
                    lemma_clear_expr_loop(ts, r2, bp, l2);
                    if let Ok((_, r3)) = expr_loop_s(ts, r2, bp, l2) {
                        lemma_clear_join(ts, q, q + 1, r);
                        lemma_clear_join(ts, q, r, r2);
                        lemma_clear_join(ts, q, r2, r3);
                    }
                }
            }
        }
    } else if k == SKind::OpInc {
        let l2 = SExpr::Operation(crate::parser::Ops::Inc, seq![lhs]);
        lemma_clear_expr_loop(ts, q + 1, bp, l2);
        if let Ok((_, r3)) = expr_loop_s(ts, q + 1, bp, l2) {
            lemma_clear_join(ts, q, q + 1, r3);
        }
    } else if k == SKind::OpDec {
        let l2 = SExpr::Operation(crate::parser::Ops::Dec, seq![lhs]);
        lemma_clear_expr_loop(ts, q + 1, bp, l2);
        if let Ok((_, r3)) = expr_loop_s(ts, q + 1, bp, l2) {
            lemma_clear_join(ts, q, q + 1, r3);
        }
    } else if let Some((l, r)) = crate::parser::infix_bp(k) {
        if l >= bp {
            lemma_clear_expr(ts, q + 1, r);
            if let Ok((rhs, r2)) = expr_s(ts, q + 1, r) {
                if forward(ts, q, r2) {
                    let l2 = SExpr::Operation(crate::parser::token_op(k), seq![lhs, rhs]);
                    lemma_clear_expr_loop(ts, r2, bp, l2);
                    if let Ok((_, r3)) = expr_loop_s(ts, r2, bp, l2) {
                        lemma_clear_join(ts, q, q + 1, r2);
                        lemma_clear_join(ts, q, r2, r3);
                    }
                }
            }
        }
    }
}

proof fn lemma_clear_expr_list(ts: Seq<SToken>, p: int, acc: Seq<SExpr>)
    requires
        0 <= p <= ts.len(),
    ensures
        ok_clear(expr_list_s(ts, p, acc), ts, p),
    decreases ts.len() - p, 3int,
{
    lemma_clear_expr(ts, p, 0);
    if let Ok((a, q)) = expr_s(ts, p, 0) {
        if forward(ts, p, q) {
            lemma_clear_basic(ts, q);
            if kind_at(ts, q) == SKind::Comma {
                lemma_clear_expr_list(ts, q + 1, acc.push(a));
                if let Ok((_, r)) = expr_list_s(ts, q + 1, acc.push(a)) {
                    lemma_clear_join(ts, p, q, q + 1);
                    lemma_clear_join(ts, p, q + 1, r);
                }
            }
        }
    }
}

proof fn lemma_clear_prefix(ts: Seq<SToken>, p: int)
    requires
        0 <= p <= ts.len(),
    ensures
        ok_clear(prefix_s(ts, p), ts, p),
    decreases ts.len() - p, 1int,
{
    lemma_clear_basic(ts, p);
    if p < ts.len() {
        let q = p + 1;
        lemma_clear_basic(ts, q);
        match kind_at(ts, p) {
            SKind::RoundBracketOpen => {
                lemma_clear_expr(ts, q, 0);
                if let Ok((_, r)) = expr_s(ts, q, 0) {
                    lemma_clear_basic(ts, r);
                    if let Ok(r2) = expect_s(ts, r, SKind::RoundBracketClose) {
                        lemma_clear_join(ts, p, q, r);
                        lemma_clear_join(ts, p, r, r2);
                    }
                }
            },
            SKind::OpSub => {
                lemma_clear_expr(ts, q, 23);
                if let Ok((_, r)) = expr_s(ts, q, 23) {
                    lemma_clear_join(ts, p, q, r);
                }
            },
            SKind::OpNot => {
                lemma_clear_expr(ts, q, 23);
                if let Ok((_, r)) = expr_s(ts, q, 23) {
                    lemma_clear_join(ts, p, q, r);
                }
            },
            SKind::OpBitOr => {
                lemma_clear_expr(ts, q, 8);
                if let Ok((_, r)) = expr_s(ts, q, 8) {
                    lemma_clear_basic(ts, r);
                    if let Ok(r2) = expect_s(ts, r, SKind::OpBitOr) {
                        lemma_clear_join(ts, p, q, r);
                        lemma_clear_join(ts, p, r, r2);
                    }
                }
            },
            SKind::SquareBracketOpen => {
                if kind_at(ts, q) != SKind::SquareBracketClose {
                    lemma_clear_expr_list(ts, q, Seq::empty());
                    if let Ok((_, r)) = expr_list_s(ts, q, Seq::empty()) {
                        lemma_clear_basic(ts, r);
                        if let Ok(r2) = expect_s(ts, r, SKind::SquareBracketClose) {
                            lemma_clear_join(ts, p, q, r);
                            lemma_clear_join(ts, p, r, r2);
                        }
                    }
                } else {
                    lemma_clear_join(ts, p, q, q + 1);
                }
            },
            _ => {},
        }
    }
}

proof fn lemma_clear_stmt(ts: Seq<SToken>, p: int)
    requires
        0 <= p <= ts.len(),
    ensures
        ok_clear(stmt_s(ts, p), ts, p),
    decreases ts.len() - p, 4int,
{
    lemma_clear_basic(ts, p);
    match kind_at(ts, p) {
        SKind::Function => lemma_clear_fn(ts, p),
        SKind::If => lemma_clear_if(ts, p),
        SKind::While => lemma_clear_while(ts, p),
        SKind::For => lemma_clear_for(ts, p),
        SKind::Return => {
            let q = p + 1;
            lemma_clear_basic(ts, q);
            if kind_at(ts, q) != SKind::Semicolon {
                lemma_clear_expr(ts, q, 0);
                if let Ok((_, r)) = expr_s(ts, q, 0) {
                    lemma_clear_basic(ts, r);
                    if let Ok(r2) = expect_s(ts, r, SKind::Semicolon) {
                        lemma_clear_join(ts, p, q, r);
                        lemma_clear_join(ts, p, r, r2);
                    }
                }
            } else if let Ok(r2) = expect_s(ts, q, SKind::Semicolon) {
                lemma_clear_join(ts, p, q, r2);
            }
        },
        SKind::Cout => lemma_clear_stream(ts, p, SKind::Cout, SKind::OpShiftLeft),
        SKind::Cin => lemma_clear_stream(ts, p, SKind::Cin, SKind::OpShiftRight),
        SKind::CurlyBracketOpen => lemma_clear_block(ts, p),
        _ => {
            if crate::parser::is_decl_s(ts, p) {
                lemma_clear_var_decl(ts, p);
            } else {
                lemma_clear_expr(ts, p, 0);
                if let Ok((_, q)) = expr_s(ts, p, 0) {
                    lemma_clear_basic(ts, q);
                    if let Ok(r) = expect_s(ts, q, SKind::Semicolon) {
                        lemma_clear_join(ts, p, q, r);
                    }
                }
            }
        },
    }
}

proof fn lemma_clear_var_decl(ts: Seq<SToken>, p: int)
    requires
        0 <= p <= ts.len(),
    ensures
        ok_clear(var_decl_s(ts, p), ts, p),
    decreases ts.len() - p, 3int,
{
    lemma_clear_basic(ts, p);
    if let Ok((_, q1)) = type_s(ts, p) {
        lemma_clear_basic(ts, q1);
        if let Ok((_, q2)) = ident_s(ts, q1) {
            lemma_clear_basic(ts, q2);
            lemma_clear_join(ts, p, q1, q2);
            if p <= q2 <= ts.len() {
                let k = kind_at(ts, q2);
                if k == SKind::SquareBracketOpen {
                    lemma_clear_expr(ts, q2 + 1, 0);
                    if let Ok((_, r)) = expr_s(ts, q2 + 1, 0) {
                        lemma_clear_basic(ts, r);
                        if let Ok(r2) = expect_s(ts, r, SKind::SquareBracketClose) {
                            lemma_clear_basic(ts, r2);
                            lemma_clear_join(ts, p, q2, q2 + 1);
                            lemma_clear_join(ts, p, q2 + 1, r);
                            lemma_clear_join(ts, p, r, r2);
                            if let Ok(r3) = expect_s(ts, r2, SKind::Semicolon) {
                                lemma_clear_join(ts, p, r2, r3);
                            }
                        }
                    }
                } else if k == SKind::Assign {
                    lemma_clear_expr(ts, q2 + 1, 0);
                    if let Ok((_, r)) = expr_s(ts, q2 + 1, 0) {
                        lemma_clear_basic(ts, r);
                        lemma_clear_join(ts, p, q2, q2 + 1);
                        lemma_clear_join(ts, p, q2 + 1, r);
                        if let Ok(r3) = expect_s(ts, r, SKind::Semicolon) {
                            lemma_clear_join(ts, p, r, r3);
                        }
                    }
                } else if let Ok(r3) = expect_s(ts, q2, SKind::Semicolon) {
                    lemma_clear_join(ts, p, q2, r3);
                }
            }
        }
    }
}

proof fn lemma_clear_block(ts: Seq<SToken>, p: int)
    requires
        0 <= p <= ts.len(),
    ensures
        ok_clear(block_s(ts, p), ts, p),
    decreases ts.len() - p, 3int,
{
    lemma_clear_basic(ts, p);
    if let Ok(q) = expect_s(ts, p, SKind::CurlyBracketOpen) {
        if forward(ts, p, q) {
            lemma_clear_block_items(ts, q, Seq::empty());
            if let Ok((_, r)) = block_items_s(ts, q, Seq::empty()) {
                lemma_clear_basic(ts, r);
                if let Ok(r2) = expect_s(ts, r, SKind::CurlyBracketClose) {
                    lemma_clear_join(ts, p, q, r);
                    lemma_clear_join(ts, p, r, r2);
                }
            }
        }
    }
}

proof fn lemma_clear_block_items(ts: Seq<SToken>, p: int, acc: Seq<SExpr>)
    requires
        0 <= p <= ts.len(),
    ensures
        ok_clear(block_items_s(ts, p, acc), ts, p),
    decreases ts.len() - p, 5int,
{
    let k = kind_at(ts, p);
    if k != SKind::CurlyBracketClose && k != SKind::EOF {
        lemma_clear_stmt(ts, p);
        if let Ok((s, q)) = stmt_s(ts, p) {
            if forward(ts, p, q) {
                lemma_clear_block_items(ts, q, acc.push(s));
                if let Ok((_, r)) = block_items_s(ts, q, acc.push(s)) {
                    lemma_clear_join(ts, p, q, r);
                }
            }
        }
    }
}

proof fn lemma_clear_fn(ts: Seq<SToken>, p: int)
    requires
        0 <= p <= ts.len(),
    ensures
        ok_clear(fn_s(ts, p), ts, p),
    decreases ts.len() - p, 3int,
{
    lemma_clear_basic(ts, p);
    if let Ok(q1) = expect_s(ts, p, SKind::Function) {
        lemma_clear_basic(ts, q1);
        if let Ok((_, q2)) = ident_s(ts, q1) {
            lemma_clear_basic(ts, q2);
            if let Ok(q3) = expect_s(ts, q2, SKind::RoundBracketOpen) {
                lemma_clear_basic(ts, q3);
                lemma_clear_join(ts, p, q1, q2);
                lemma_clear_join(ts, p, q2, q3);
                if kind_at(ts, q3) != SKind::RoundBracketClose {
                    lemma_clear_fn_args(ts, q3, Seq::empty());
                }
                let args: PRes<Seq<(Seq<char>, Seq<char>)>> = if kind_at(ts, q3) != SKind::RoundBracketClose {
                    fn_args_s(ts, q3, Seq::empty())
                } else {
                    Ok((Seq::empty(), q3))
                };
                if let Ok((_, q4)) = args {
                    lemma_clear_basic(ts, q4);
                    lemma_clear_join(ts, p, q3, q4);
                    if let Ok(q5) = expect_s(ts, q4, SKind::RoundBracketClose) {
                        lemma_clear_basic(ts, q5);
                        lemma_clear_join(ts, p, q4, q5);
                        if kind_at(ts, q5) == SKind::Arrow {
                            lemma_clear_basic(ts, q5 + 1);
                            lemma_clear_join(ts, p, q5, q5 + 1);
                            if let Ok((_, q6)) = type_s(ts, q5 + 1) {
                                lemma_clear_join(ts, p, q5 + 1, q6);
                            }
                        }
                        let ret: PRes<Option<Seq<char>>> = if kind_at(ts, q5) == SKind::Arrow {
                            match type_s(ts, q5 + 1) {
                                Err(e) => Err(e),
                                Ok((t, q6)) => Ok((Some(t), q6)),
                            }
                        } else {
                            Ok((None, q5))
                        };
                        if let Ok((_, q6)) = ret {
                            if forward(ts, p, q6) {
                                lemma_clear_block(ts, q6);
                                if let Ok((_, q7)) = block_s(ts, q6) {
                                    lemma_clear_join(ts, p, q6, q7);
                                }
                            }
                        }
                    }
                }
            }
        }
    }
}

proof fn lemma_clear_if(ts: Seq<SToken>, p: int)
    requires
        0 <= p <= ts.len(),
    ensures
        ok_clear(if_s(ts, p), ts, p),
    decreases ts.len() - p, 3int,
{
    lemma_clear_basic(ts, p);
    if let Ok(q1) = expect_s(ts, p, SKind::If) {
        if forward(ts, p, q1) {
            lemma_clear_expr(ts, q1, 0);
            if let Ok((_, q2)) = expr_s(ts, q1, 0) {
                if forward(ts, p, q2) {
                    lemma_clear_join(ts, p, q1, q2);
                    lemma_clear_block(ts, q2);
                    if let Ok((_, q3)) = block_s(ts, q2) {
                        lemma_clear_join(ts, p, q2, q3);
                        lemma_clear_basic(ts, q3);
                        if kind_at(ts, q3) == SKind::Else && forward(ts, p, q3) {
                            lemma_clear_join(ts, p, q3, q3 + 1);
                            if kind_at(ts, q3 + 1) == SKind::If {
                                lemma_clear_if(ts, q3 + 1);
                                if let Ok((_, q5)) = if_s(ts, q3 + 1) {
                                    lemma_clear_join(ts, p, q3 + 1, q5);
                                }
                            } else {
                                lemma_clear_block(ts, q3 + 1);
                                if let Ok((_, q5)) = block_s(ts, q3 + 1) {
                                    lemma_clear_join(ts, p, q3 + 1, q5);
                                }
                            }
                        }
                    }
                }
            }
        }
    }
}

proof fn lemma_clear_while(ts: Seq<SToken>, p: int)
    requires
        0 <= p <= ts.len(),
    ensures
        ok_clear(while_s(ts, p), ts, p),
    decreases ts.len() - p, 3int,
{
    lemma_clear_basic(ts, p);
    if let Ok(q1) = expect_s(ts, p, SKind::While) {
        if forward(ts, p, q1) {
            lemma_clear_expr(ts, q1, 0);
            if let Ok((_, q2)) = expr_s(ts, q1, 0) {
                if forward(ts, p, q2) {
                    lemma_clear_join(ts, p, q1, q2);
                    lemma_clear_block(ts, q2);
                    if let Ok((_, q3)) = block_s(ts, q2) {
                        lemma_clear_join(ts, p, q2, q3);
                    }
                }
            }
        }
    }
}

proof fn lemma_clear_for(ts: Seq<SToken>, p: int)
    requires
        0 <= p <= ts.len(),
    ensures
        ok_clear(for_s(ts, p), ts, p),
    decreases ts.len() - p, 3int,
{
    lemma_clear_basic(ts, p);
    if let Ok(q1) = expect_s(ts, p, SKind::For) {
        lemma_clear_basic(ts, q1);
        if let Ok(q2) = expect_s(ts, q1, SKind::RoundBracketOpen) {
            if forward(ts, p, q2) {
                lemma_clear_join(ts, p, q1, q2);
                lemma_clear_stmt(ts, q2);
                if let Ok((_, q3)) = stmt_s(ts, q2) {
                    if forward(ts, p, q3) {
                        lemma_clear_join(ts, p, q2, q3);
                        lemma_clear_expr(ts, q3, 0);
                        if let Ok((_, q4)) = expr_s(ts, q3, 0) {
                            lemma_clear_basic(ts, q4);
                            if let Ok(q5) = expect_s(ts, q4, SKind::Semicolon) {
                                if forward(ts, p, q5) {
                                    lemma_clear_join(ts, p, q3, q4);
                                    lemma_clear_join(ts, p, q4, q5);
                                    lemma_clear_expr(ts, q5, 0);
                                    if let Ok((_, q6)) = expr_s(ts, q5, 0) {
                                        lemma_clear_basic(ts, q6);
                                        if let Ok(q7) = expect_s(ts, q6, SKind::RoundBracketClose) {
                                            if forward(ts, p, q7) {
                                                lemma_clear_join(ts, p, q5, q6);
                                                lemma_clear_join(ts, p, q6, q7);
                                                lemma_clear_block(ts, q7);
                                                if let Ok((_, q8)) = block_s(ts, q7) {
                                                    lemma_clear_join(ts, p, q7, q8);
                                                }
                                            }
                                        }
                                    }
                                }
                            }
                        }
                    }
                }
            }
        }
    }
}

proof fn lemma_clear_stream(ts: Seq<SToken>, p: int, kw: SKind, sep: SKind)
    requires
        0 <= p <= ts.len(),
        kw != SKind::EOF,
        sep != SKind::EOF,
    ensures
        ok_clear(stream_s(ts, p, kw, sep), ts, p),
    decreases ts.len() - p, 3int,
{
    lemma_clear_basic(ts, p);
    if let Ok(q1) = expect_s(ts, p, kw) {
        if forward(ts, p, q1) {
            lemma_clear_stream_items(ts, q1, sep, Seq::empty());
            if let Ok((_, q2)) = stream_items_s(ts, q1, sep, Seq::empty()) {
                lemma_clear_basic(ts, q2);
                if let Ok(q3) = expect_s(ts, q2, SKind::Semicolon) {
                    lemma_clear_join(ts, p, q1, q2);
                    lemma_clear_join(ts, p, q2, q3);
                }
            }
        }
    }
}

proof fn lemma_clear_stream_items(ts: Seq<SToken>, p: int, sep: SKind, acc: Seq<SExpr>)
    requires
        0 <= p <= ts.len(),
        sep != SKind::EOF,
    ensures
        ok_clear(stream_items_s(ts, p, sep, acc), ts, p),
    decreases ts.len() - p, 0int,
{
    lemma_clear_basic(ts, p);
    if kind_at(ts, p) == sep && p < ts.len() {
        lemma_clear_expr(ts, p + 1, 0);
        if let Ok((e, q)) = expr_s(ts, p + 1, 0) {
            if forward(ts, p, q) {
                lemma_clear_join(ts, p, p + 1, q);
                lemma_clear_stream_items(ts, q, sep, acc.push(e));
                if let Ok((_, r)) = stream_items_s(ts, q, sep, acc.push(e)) {
                    lemma_clear_join(ts, p, q, r);
                }
            }
        }
    }
}

/// The statements of a program from `p` on read no `EOF` token and stop at
/// the first one: their number is at most the number of tokens before it.
proof fn lemma_clear_program_items(ts: Seq<SToken>, p: int, acc: Seq<SExpr>)
    requires
        0 <= p <= ts.len(),
    ensures
        program_items_s(ts, p, acc) matches Ok((SExpr::Block(s), q)) ==> clear(ts, p, q) && kind_at(
            ts,
            q,
        ) == SKind::EOF && s.len() <= acc.len() + q - p,
    decreases ts.len() - p,
{
    if kind_at(ts, p) != SKind::EOF {
        lemma_clear_stmt(ts, p);
        if let Ok((s, q)) = stmt_s(ts, p) {
            if forward(ts, p, q) {
                lemma_clear_program_items(ts, q, acc.push(s));
                if let Ok((SExpr::Block(_), r)) = program_items_s(ts, q, acc.push(s)) {
                    lemma_clear_join(ts, p, q, r);
                }
            }
        }
    }
}

/// A parsed program ends at the first `EOF` token (or at the end, where
/// there is none) and has at most as many statements as there are tokens
/// before it.
pub proof fn lemma_program_ends_at_first_eof(ts: Seq<SToken>)
    ensures
        program_s(ts, 0) matches Ok((SExpr::Block(s), q)) ==> (forall|i: int| 0 <= i < q ==> (
        #[trigger] ts[i]).kind != SKind::EOF) && (q == ts.len() || ts[q].kind == SKind::EOF) && s.len()
            <= q,
{
    lemma_clear_program_items(ts, 0, Seq::empty());
}

} // verus!
