//! How the parser groups two infix operators: the one that binds tighter
//! takes the middle operand; between operators that bind alike, the left
//! one does, but for assignment, which groups to the right.
use vstd::prelude::*;

use crate::lexer::{SKind, SToken};
use crate::parser::{Ops, SExpr, SValue, expr_loop_s, expr_s, prefix_s};

verus! {

/// How tightly an infix operator token binds, from assignment (loosest)
/// through `||`, `&&`, `|`, `^`, `&`, equality, ordering and the additive
/// operators to the multiplicative ones (tightest); 0 for a token that is
/// no infix operator.
pub open spec fn binding_level(k: SKind) -> int {
    match k {
        SKind::Assign => 1,
        SKind::OpOr => 2,
        SKind::OpAnd => 3,
        SKind::OpBitOr => 4,
        SKind::OpXor => 5,
        SKind::OpBitAnd => 6,
        SKind::OpEq | SKind::OpNotEq => 7,
        SKind::OpLessThan | SKind::OpLessOrEq | SKind::OpGreaterThan | SKind::OpGreaterOrEq => 8,
        SKind::OpAdd | SKind::OpSub => 9,
        SKind::OpMul | SKind::OpDiv | SKind::OpRem => 10,
        _ => 0,
    }
}

/// The operation that an infix operator token stands for.
pub open spec fn infix_operation(k: SKind) -> Ops {
    match k {
        SKind::Assign => Ops::Assign,
        SKind::OpOr => Ops::Or,
        SKind::OpAnd => Ops::And,
        SKind::OpBitOr => Ops::BitOr,
        SKind::OpXor => Ops::Xor,
        SKind::OpBitAnd => Ops::BitAnd,
        SKind::OpEq => Ops::Eq,
        SKind::OpNotEq => Ops::NotEq,
        SKind::OpLessThan => Ops::Less,
        SKind::OpLessOrEq => Ops::LessEq,
        SKind::OpGreaterThan => Ops::Greater,
        SKind::OpGreaterOrEq => Ops::GreaterEq,
        SKind::OpAdd => Ops::Add,
        SKind::OpSub => Ops::Sub,
        SKind::OpMul => Ops::Mul,
        SKind::OpDiv => Ops::Div,
        _ => Ops::Rem,
    }
}

/// A token that is an operand by itself: a number or a name.
pub open spec fn operand_token(k: SKind) -> bool {
    k is NumberInteger || k is Variable
}

/// The tree of an operand token.
pub open spec fn operand_tree(k: SKind) -> SExpr {
    match k {
        SKind::NumberInteger(n) => SExpr::Atom(SValue::Integer(n)),
        SKind::Variable(s) => SExpr::Atom(SValue::Variable(s)),
        _ => SExpr::Block(Seq::empty()),
    }
}

/// Whether `x k1 y k2 z` groups as `(x k1 y) k2 z`: `k1` binds at least
/// as tightly as `k2`, unless both are assignments.
pub open spec fn groups_left(k1: SKind, k2: SKind) -> bool {
    binding_level(k1) >= binding_level(k2) && !(k1 == SKind::Assign && k2 == SKind::Assign)
}

/// An expression `x k1 y k2 z` of three operands and two infix operators
/// parses to the tree its binding levels give: `(x k1 y) k2 z` when `k1`
/// binds at least as tightly as `k2` (and they are not both assignments),
/// else `x k1 (y k2 z)`; all five tokens are read.
pub proof fn lemma_two_operators_group(ts: Seq<SToken>)
    requires
        ts.len() == 5,
        operand_token(ts[0].kind),
        operand_token(ts[2].kind),
        operand_token(ts[4].kind),
        binding_level(ts[1].kind) > 0,
        binding_level(ts[3].kind) > 0,
    ensures
        ({
            let (x, y, z) = (operand_tree(ts[0].kind), operand_tree(ts[2].kind), operand_tree(ts[4].kind));
            let (k1, k2) = (ts[1].kind, ts[3].kind);
            expr_s(ts, 0, 0) == Ok::<(SExpr, int), (crate::parser::SError, int)>(
                (
                    if groups_left(k1, k2) {
                        SExpr::Operation(
                            infix_operation(k2),
                            seq![SExpr::Operation(infix_operation(k1), seq![x, y]), z],
                        )
                    } else {
                        SExpr::Operation(
                            infix_operation(k1),
                            seq![x, SExpr::Operation(infix_operation(k2), seq![y, z])],
                        )
                    },
                    5,
                ),
            )
        }),
{
    let (x, y, z) = (operand_tree(ts[0].kind), operand_tree(ts[2].kind), operand_tree(ts[4].kind));
    let (k1, k2) = (ts[1].kind, ts[3].kind);
    let (l1, r1) = crate::parser::infix_bp(k1)->0;
    let (l2, r2) = crate::parser::infix_bp(k2)->0;
    assert(crate::parser::infix_bp(k1) == Some((l1, r1)));
    assert(crate::parser::infix_bp(k2) == Some((l2, r2)));
    assert(crate::parser::token_op(k1) == infix_operation(k1));
    assert(crate::parser::token_op(k2) == infix_operation(k2));
    assert(prefix_s(ts, 0) == Ok::<(SExpr, int), (crate::parser::SError, int)>((x, 1)));
    assert(prefix_s(ts, 2) == Ok::<(SExpr, int), (crate::parser::SError, int)>((y, 3)));
    assert(prefix_s(ts, 4) == Ok::<(SExpr, int), (crate::parser::SError, int)>((z, 5)));
    assert(expr_s(ts, 4, r2) == Ok::<(SExpr, int), (crate::parser::SError, int)>((z, 5))) by {
        assert(expr_loop_s(ts, 5, r2, z) == Ok::<(SExpr, int), (crate::parser::SError, int)>((z, 5)));
    }
    let yz = SExpr::Operation(infix_operation(k2), seq![y, z]);
    let xy = SExpr::Operation(infix_operation(k1), seq![x, y]);
    if l2 < r1 {
        assert(expr_loop_s(ts, 3, r1, y) == Ok::<(SExpr, int), (crate::parser::SError, int)>((y, 3)));
        assert(expr_s(ts, 2, r1) == Ok::<(SExpr, int), (crate::parser::SError, int)>((y, 3)));
        let t = SExpr::Operation(infix_operation(k2), seq![xy, z]);
        assert(expr_loop_s(ts, 5, 0, t) == Ok::<(SExpr, int), (crate::parser::SError, int)>((t, 5)));
        assert(expr_loop_s(ts, 3, 0, xy) == Ok::<(SExpr, int), (crate::parser::SError, int)>((t, 5)));
        assert(expr_loop_s(ts, 1, 0, x) == Ok::<(SExpr, int), (crate::parser::SError, int)>((t, 5)));
        assert(groups_left(k1, k2));
    } else {
        assert(expr_loop_s(ts, 5, r1, yz) == Ok::<(SExpr, int), (crate::parser::SError, int)>((yz, 5)));
        assert(expr_loop_s(ts, 3, r1, y) == Ok::<(SExpr, int), (crate::parser::SError, int)>((yz, 5)));
        assert(expr_s(ts, 2, r1) == Ok::<(SExpr, int), (crate::parser::SError, int)>((yz, 5)));
        let t = SExpr::Operation(infix_operation(k1), seq![x, yz]);
        assert(expr_loop_s(ts, 5, 0, t) == Ok::<(SExpr, int), (crate::parser::SError, int)>((t, 5)));
        assert(expr_loop_s(ts, 1, 0, x) == Ok::<(SExpr, int), (crate::parser::SError, int)>((t, 5)));
        assert(!groups_left(k1, k2));
    }
}

/// A prefix `-` or `!` binds tighter than every infix operator:
/// `-x k y` parses as `(-x) k y`, and `!x k y` as `(!x) k y`.
pub proof fn lemma_prefix_binds_tightest(ts: Seq<SToken>)
    requires
        ts.len() == 4,
        ts[0].kind == SKind::OpSub || ts[0].kind == SKind::OpNot,
        operand_token(ts[1].kind),
        operand_token(ts[3].kind),
        binding_level(ts[2].kind) > 0,
    ensures
        ({
            let neg = if ts[0].kind == SKind::OpSub { Ops::Neg } else { Ops::Not };
            let (x, y, k) = (operand_tree(ts[1].kind), operand_tree(ts[3].kind), ts[2].kind);
            expr_s(ts, 0, 0) == Ok::<(SExpr, int), (crate::parser::SError, int)>(
                (
                    SExpr::Operation(
                        infix_operation(k),
                        seq![SExpr::Operation(neg, seq![x]), y],
                    ),
                    4,
                ),
            )
        }),
{
    let neg = if ts[0].kind == SKind::OpSub { Ops::Neg } else { Ops::Not };
    let (x, y, k) = (operand_tree(ts[1].kind), operand_tree(ts[3].kind), ts[2].kind);
    let (l, r) = crate::parser::infix_bp(k)->0;
    assert(crate::parser::infix_bp(k) == Some((l, r)));
    assert(crate::parser::token_op(k) == infix_operation(k));
    assert(prefix_s(ts, 1) == Ok::<(SExpr, int), (crate::parser::SError, int)>((x, 2)));
    assert(prefix_s(ts, 3) == Ok::<(SExpr, int), (crate::parser::SError, int)>((y, 4)));
    assert(expr_loop_s(ts, 2, 23, x) == Ok::<(SExpr, int), (crate::parser::SError, int)>((x, 2)));
    assert(expr_s(ts, 1, 23) == Ok::<(SExpr, int), (crate::parser::SError, int)>((x, 2)));
    let nx = SExpr::Operation(neg, seq![x]);
    assert(prefix_s(ts, 0) == Ok::<(SExpr, int), (crate::parser::SError, int)>((nx, 2)));
    assert(expr_loop_s(ts, 4, r, y) == Ok::<(SExpr, int), (crate::parser::SError, int)>((y, 4)));
    assert(expr_s(ts, 3, r) == Ok::<(SExpr, int), (crate::parser::SError, int)>((y, 4)));
    let tr = SExpr::Operation(infix_operation(k), seq![nx, y]);
    assert(expr_loop_s(ts, 4, 0, tr) == Ok::<(SExpr, int), (crate::parser::SError, int)>((tr, 4)));
    assert(expr_loop_s(ts, 2, 0, nx) == Ok::<(SExpr, int), (crate::parser::SError, int)>((tr, 4)));
}

} // verus!
