//! Constant folding: operations whose operands are integer literals are
//! replaced by their value, bottom-up through the whole tree.
use vstd::prelude::*;

use crate::arith::{div_i32, out_of_i32, rem_i32, trunc_div, trunc_rem};
use crate::parser::{Expression, Ops, SExpr, SValue, Value, expr_view, opt_view};

verus! {

/// The trees of a list of children, as `expr_view` gives them.
pub open spec fn subtrees(items: Seq<Expression>) -> Seq<SExpr> {
    Seq::new(
        items.len(),
        |i: int|
            if 0 <= i < items.len() {
                expr_view(items[i])
            } else {
                SExpr::Block(Seq::empty())
            },
    )
}

/// The value of an integer literal.
pub open spec fn int_lit(e: SExpr) -> Option<i32> {
    match e {
        SExpr::Atom(SValue::Integer(n)) => Some(n),
        _ => None,
    }
}

/// Whether `l op r` is folded: `+`, `-` and `*` always, `/` and `%` when
/// `r` is not zero.
pub open spec fn folds(op: Ops, r: i32) -> bool {
    op == Ops::Add || op == Ops::Sub || op == Ops::Mul || ((op == Ops::Div || op == Ops::Rem) && r
        != 0)
}

/// The exact value of a folded `l op r` (division rounds toward zero).
pub open spec fn binary_value(op: Ops, l: int, r: int) -> int {
    if op == Ops::Add {
        l + r
    } else if op == Ops::Sub {
        l - r
    } else if op == Ops::Mul {
        l * r
    } else if op == Ops::Div {
        trunc_div(l, r)
    } else {
        trunc_rem(l, r)
    }
}

/// An integer literal, unless the value leaves `i32` (where folding
/// overflows).
pub open spec fn literal(v: int) -> Option<SExpr> {
    if out_of_i32(v) {
        None
    } else {
        Some(SExpr::Atom(SValue::Integer(v as i32)))
    }
}

/// An operation over already folded operands: two integer literals under a
/// folding operator, or one under `Neg`, become a literal; anything else
/// stays an operation.  Nothing where the operation overflows `i32`
/// (`i32::MIN % -1` included, which Rust refuses like `i32::MIN / -1`).
pub open spec fn fold_op(op: Ops, a: Seq<SExpr>) -> Option<SExpr> {
    if a.len() == 2 && int_lit(a[0]) is Some && int_lit(a[1]) is Some && folds(
        op,
        int_lit(a[1])->0,
    ) {
        let l = int_lit(a[0])->0;
        let r = int_lit(a[1])->0;
        if op == Ops::Rem && l == i32::MIN && r == -1 {
            None
        } else {
            literal(binary_value(op, l as int, r as int))
        }
    } else if a.len() == 1 && int_lit(a[0]) is Some && op == Ops::Neg {
        literal(-(int_lit(a[0])->0 as int))
    } else {
        Some(SExpr::Operation(op, a))
    }
}

pub open spec fn fold_box(e: Box<SExpr>) -> Option<Box<SExpr>>
    decreases e, 1int,
{
    match fold_tree(*e) {
        Some(f) => Some(Box::new(f)),
        None => None,
    }
}

/// `fold_box` under an option; `Some(None)` for nothing to fold.
pub open spec fn fold_opt(e: Option<Box<SExpr>>) -> Option<Option<Box<SExpr>>>
    decreases e, 1int,
{
    match e {
        Some(b) => match fold_box(b) {
            Some(f) => Some(Some(f)),
            None => None,
        },
        None => Some(None),
    }
}

/// The folded tree, or nothing where a fold leaves `i32` (`i32::MIN / -1`,
/// `-i32::MIN`, an overflowing `+`, `-` or `*`).
pub open spec fn fold_tree(e: SExpr) -> Option<SExpr>
    decreases e, 0int,
{
    match e {
        SExpr::Operation(op, args) => match fold_list(args) {
            Some(a) => fold_op(op, a),
            None => None,
        },
        SExpr::Block(s) => match fold_list(s) {
            Some(a) => Some(SExpr::Block(a)),
            None => None,
        },
        SExpr::Cout(s) => match fold_list(s) {
            Some(a) => Some(SExpr::Cout(a)),
            None => None,
        },
        SExpr::Cin(s) => match fold_list(s) {
            Some(a) => Some(SExpr::Cin(a)),
            None => None,
        },
        SExpr::ArrayInit(s) => match fold_list(s) {
            Some(a) => Some(SExpr::ArrayInit(a)),
            None => None,
        },
        SExpr::While { cond, body } => match (fold_box(cond), fold_box(body)) {
            (Some(c), Some(b)) => Some(SExpr::While { cond: c, body: b }),
            _ => None,
        },
        SExpr::For { init, cond, step, body } => match (
            fold_box(init),
            fold_box(cond),
            fold_box(step),
            fold_box(body),
        ) {
            (Some(i), Some(c), Some(s), Some(b)) => Some(
                SExpr::For { init: i, cond: c, step: s, body: b },
            ),
            _ => None,
        },
        SExpr::VarDecl { typ, name, init, size } => match (fold_opt(init), fold_opt(size)) {
            (Some(i), Some(s)) => Some(SExpr::VarDecl { typ, name, init: i, size: s }),
            _ => None,
        },
        SExpr::If { cond, then_br, else_br } => match (
            fold_box(cond),
            fold_box(then_br),
            fold_opt(else_br),
        ) {
            (Some(c), Some(t), Some(e)) => Some(SExpr::If { cond: c, then_br: t, else_br: e }),
            _ => None,
        },
        SExpr::Return(x) => match fold_opt(x) {
            Some(f) => Some(SExpr::Return(f)),
            None => None,
        },
        SExpr::Absolute(x) => match fold_box(x) {
            Some(f) => Some(SExpr::Absolute(f)),
            None => None,
        },
        SExpr::ArrayIndex { arr, index } => match (fold_box(arr), fold_box(index)) {
            (Some(a), Some(i)) => Some(SExpr::ArrayIndex { arr: a, index: i }),
            _ => None,
        },
        SExpr::FuncCall { caller, args } => match (fold_box(caller), fold_list(args)) {
            (Some(c), Some(a)) => Some(SExpr::FuncCall { caller: c, args: a }),
            _ => None,
        },
        SExpr::FuncDecl { name, args, ret_type, body } => match fold_box(body) {
            Some(b) => Some(SExpr::FuncDecl { name, args, ret_type, body: b }),
            None => None,
        },
        SExpr::Atom(_) => Some(e),
    }
}

/// `fold_tree` over a list, in order; nothing if any item overflows.
pub open spec fn fold_list(items: Seq<SExpr>) -> Option<Seq<SExpr>>
    decreases items, 0int,
{
    if items.len() == 0 {
        Some(Seq::empty())
    } else {
        match (fold_tree(items[0]), fold_list(items.subrange(1, items.len() as int))) {
            (Some(a), Some(rest)) => Some(seq![a] + rest),
            _ => None,
        }
    }
}


// ---------------------------------------------------------------------------
// Folding twice is folding once
// ---------------------------------------------------------------------------

/// A folded tree has nothing left to fold.
pub proof fn lemma_fold_idempotent(e: SExpr)
    ensures
        fold_tree(e) matches Some(f) ==> fold_tree(f) == Some(f),
    decreases e, 0int,
{
    match e {
        SExpr::Operation(op, args) => {
            lemma_fold_list_idempotent(args);
            if let Some(a) = fold_list(args) {
                if let Some(f) = fold_op(op, a) {
                    if f is Operation {
                        assert(f == SExpr::Operation(op, a));
                    }
                }
            }
        },
        SExpr::Block(x) => lemma_fold_list_idempotent(x),
        SExpr::Cout(x) => lemma_fold_list_idempotent(x),
        SExpr::Cin(x) => lemma_fold_list_idempotent(x),
        SExpr::ArrayInit(x) => lemma_fold_list_idempotent(x),
        SExpr::While { cond, body } => {
            lemma_fold_box_idempotent(cond);
            lemma_fold_box_idempotent(body);
        },
        SExpr::For { init, cond, step, body } => {
            lemma_fold_box_idempotent(init);
            lemma_fold_box_idempotent(cond);
            lemma_fold_box_idempotent(step);
            lemma_fold_box_idempotent(body);
        },
        SExpr::VarDecl { init, size, .. } => {
            lemma_fold_opt_idempotent(init);
            lemma_fold_opt_idempotent(size);
        },
        SExpr::If { cond, then_br, else_br } => {
            lemma_fold_box_idempotent(cond);
            lemma_fold_box_idempotent(then_br);
            lemma_fold_opt_idempotent(else_br);
        },
        SExpr::Return(x) => lemma_fold_opt_idempotent(x),
        SExpr::Absolute(x) => lemma_fold_box_idempotent(x),
        SExpr::ArrayIndex { arr, index } => {
            lemma_fold_box_idempotent(arr);
            lemma_fold_box_idempotent(index);
        },
        SExpr::FuncCall { caller, args } => {
            lemma_fold_box_idempotent(caller);
            lemma_fold_list_idempotent(args);
        },
        SExpr::FuncDecl { body, .. } => lemma_fold_box_idempotent(body),
        SExpr::Atom(_) => {},
    }
}

pub proof fn lemma_fold_box_idempotent(e: Box<SExpr>)
    ensures
        fold_box(e) matches Some(f) ==> fold_box(f) == Some(f),
    decreases e, 1int,
{
    lemma_fold_idempotent(*e);
}

pub proof fn lemma_fold_opt_idempotent(e: Option<Box<SExpr>>)
    ensures
        fold_opt(e) matches Some(f) ==> fold_opt(f) == Some(f),
    decreases e, 1int,
{
    if let Some(b) = e {
        lemma_fold_box_idempotent(b);
    }
}

pub proof fn lemma_fold_list_idempotent(items: Seq<SExpr>)
    ensures
        fold_list(items) matches Some(a) ==> fold_list(a) == Some(a),
    decreases items, 0int,
{
    if items.len() > 0 {
        let tail = items.subrange(1, items.len() as int);
        lemma_fold_idempotent(items[0]);
        lemma_fold_list_idempotent(tail);
        if let (Some(x), Some(rest)) = (fold_tree(items[0]), fold_list(tail)) {
            let a = seq![x] + rest;
            assert(a[0] == x);
            assert(a.subrange(1, a.len() as int) =~= rest);
        }
    } else {
        assert(Seq::<SExpr>::empty().len() == 0);
    }
}

// ---------------------------------------------------------------------------
// Folding keeps the value of arithmetic
// ---------------------------------------------------------------------------

/// Whether `op` is an arithmetic operator of two operands.
pub open spec fn is_arith(op: Ops) -> bool {
    op == Ops::Add || op == Ops::Sub || op == Ops::Mul || op == Ops::Div || op == Ops::Rem
}

/// The value of an arithmetic tree (`+`, `-`, `*`, `/`, `%`, negation,
/// integer literals and variables) with the variables valued by `env`, in
/// unbounded integers, `/` and `%` rounding toward zero; nothing for a
/// division by zero or for a tree that is not arithmetic.
pub open spec fn arith_value(e: SExpr, env: spec_fn(Seq<char>) -> int) -> Option<int>
    decreases e,
{
    match e {
        SExpr::Atom(SValue::Integer(n)) => Some(n as int),
        SExpr::Atom(SValue::Variable(x)) => Some(env(x)),
        SExpr::Operation(op, a) => if a.len() == 2 && is_arith(op) {
            match (arith_value(a[0], env), arith_value(a[1], env)) {
                (Some(l), Some(r)) => if (op == Ops::Div || op == Ops::Rem) && r == 0 {
                    None
                } else {
                    Some(binary_value(op, l, r))
                },
                _ => None,
            }
        } else if a.len() == 1 && op == Ops::Neg {
            match arith_value(a[0], env) {
                Some(v) => Some(-v),
                None => None,
            }
        } else {
            None
        },
        _ => None,
    }
}

/// Folding a list folds each item in place.
proof fn lemma_fold_list_items(items: Seq<SExpr>)
    ensures
        fold_list(items) matches Some(a) ==> a.len() == items.len() && forall|i: int|
            0 <= i < items.len() ==> fold_tree(#[trigger] items[i]) == Some(a[i]),
    decreases items.len(),
{
    if items.len() > 0 {
        let tail = items.subrange(1, items.len() as int);
        lemma_fold_list_items(tail);
        if let (Some(x), Some(rest)) = (fold_tree(items[0]), fold_list(tail)) {
            let a = seq![x] + rest;
            assert forall|i: int| 0 <= i < items.len() implies fold_tree(#[trigger] items[i]) == Some(a[i]) by {
                if i > 0 {
                    assert(items[i] == tail[i - 1]);
                }
            }
        }
    }
}

/// Folding keeps the value of arithmetic: whatever values the variables
/// have, a folded tree has the value that the tree had, and none where it
/// had none.
pub proof fn lemma_fold_keeps_value(e: SExpr, env: spec_fn(Seq<char>) -> int)
    ensures
        fold_tree(e) matches Some(f) ==> arith_value(f, env) == arith_value(e, env),
    decreases e,
{
    if let SExpr::Operation(op, args) = e {
        lemma_fold_list_items(args);
        if let Some(a) = fold_list(args) {
            if args.len() >= 1 {
                lemma_fold_keeps_value(args[0], env);
            }
            if args.len() >= 2 {
                lemma_fold_keeps_value(args[1], env);
            }
            if let Some(f) = fold_op(op, a) {
                if a.len() == 2 && int_lit(a[0]) is Some && int_lit(a[1]) is Some && folds(op, int_lit(a[1])->0) {
                    let l = int_lit(a[0])->0;
                    let r = int_lit(a[1])->0;
                    assert(arith_value(a[0], env) == Some(l as int));
                    assert(arith_value(a[1], env) == Some(r as int));
                } else if a.len() == 1 && int_lit(a[0]) is Some && op == Ops::Neg {
                    assert(arith_value(a[0], env) == Some(int_lit(a[0])->0 as int));
                } else {
                    assert(f == SExpr::Operation(op, a));
                }
            }
        }
    }
}

// ---------------------------------------------------------------------------
// Folding keeps the shape of the tree
// ---------------------------------------------------------------------------

/// `f` has the shape of `e` at the top: an operation stays an operation of
/// the same operator and number of operands, or becomes an integer
/// literal; every other node keeps its kind, names, types, which of its
/// optional parts are there, and its number of children; an atom stays as
/// it is.
pub open spec fn same_shape(e: SExpr, f: SExpr) -> bool {
    match e {
        SExpr::Atom(_) => f == e,
        SExpr::Operation(op, a) => int_lit(f) is Some || (f matches SExpr::Operation(op2, b) && op2
            == op && b.len() == a.len()),
        SExpr::Block(a) => f matches SExpr::Block(b) && b.len() == a.len(),
        SExpr::Cout(a) => f matches SExpr::Cout(b) && b.len() == a.len(),
        SExpr::Cin(a) => f matches SExpr::Cin(b) && b.len() == a.len(),
        SExpr::ArrayInit(a) => f matches SExpr::ArrayInit(b) && b.len() == a.len(),
        SExpr::VarDecl { typ, name, init, size } => f matches SExpr::VarDecl {
            typ: t2,
            name: n2,
            init: i2,
            size: s2,
        } && t2 == typ && n2 == name && (i2 is Some) == (init is Some) && (s2 is Some) == (
        size is Some),
        SExpr::FuncDecl { name, args, ret_type, .. } => f matches SExpr::FuncDecl {
            name: n2,
            args: a2,
            ret_type: r2,
            ..
        } && n2 == name && a2 == args && r2 == ret_type,
        SExpr::FuncCall { args, .. } => f matches SExpr::FuncCall { args: a2, .. } && a2.len()
            == args.len(),
        SExpr::If { else_br, .. } => f matches SExpr::If { else_br: e2, .. } && (e2 is Some) == (
        else_br is Some),
        SExpr::While { .. } => f is While,
        SExpr::For { .. } => f is For,
        SExpr::Return(x) => f matches SExpr::Return(y) && (y is Some) == (x is Some),
        SExpr::ArrayIndex { .. } => f is ArrayIndex,
        SExpr::Absolute(_) => f is Absolute,
    }
}

/// Folding keeps the shape of a node (see `same_shape`).
pub proof fn lemma_fold_keeps_shape(e: SExpr)
    ensures
        fold_tree(e) matches Some(f) ==> same_shape(e, f),
{
    match e {
        SExpr::Operation(_, s) => lemma_fold_list_items(s),
        SExpr::Block(s) => lemma_fold_list_items(s),
        SExpr::Cout(s) => lemma_fold_list_items(s),
        SExpr::Cin(s) => lemma_fold_list_items(s),
        SExpr::ArrayInit(s) => lemma_fold_list_items(s),
        SExpr::FuncCall { args, .. } => lemma_fold_list_items(args),
        _ => {},
    }
}

// ---------------------------------------------------------------------------
// Folding succeeds where no constant leaves i32
// ---------------------------------------------------------------------------

/// The exact value of a constant arithmetic tree: integer literals under
/// `+`, `-`, `*`, `/`, `%` and negation, `/` and `%` rounding toward zero;
/// nothing for a tree with anything else in it or a division by zero.
pub open spec fn const_value(e: SExpr) -> Option<int>
    decreases e,
{
    match e {
        SExpr::Atom(SValue::Integer(n)) => Some(n as int),
        SExpr::Operation(op, a) => if a.len() == 2 && is_arith(op) {
            match (const_value(a[0]), const_value(a[1])) {
                (Some(l), Some(r)) => if (op == Ops::Div || op == Ops::Rem) && r == 0 {
                    None
                } else {
                    Some(binary_value(op, l, r))
                },
                _ => None,
            }
        } else if a.len() == 1 && op == Ops::Neg {
            match const_value(a[0]) {
                Some(v) => Some(-v),
                None => None,
            }
        } else {
            None
        },
        _ => None,
    }
}

/// A node whose constant value, if it has one, fits in `i32` and is not
/// `i32::MIN % -1`.
pub open spec fn node_fits(e: SExpr) -> bool {
    match const_value(e) {
        Some(v) => !out_of_i32(v) && !(e matches SExpr::Operation(op, a) && op == Ops::Rem && a.len()
            == 2 && const_value(a[0]) == Some(i32::MIN as int) && const_value(a[1]) == Some(-1)),
        None => true,
    }
}

/// Every node of the tree fits (see `node_fits`).
pub open spec fn all_fit(e: SExpr) -> bool
    decreases e, 0int,
{
    node_fits(e) && match e {
        SExpr::Operation(_, s) => list_fit(s),
        SExpr::Block(s) => list_fit(s),
        SExpr::Cout(s) => list_fit(s),
        SExpr::Cin(s) => list_fit(s),
        SExpr::ArrayInit(s) => list_fit(s),
        SExpr::While { cond, body } => box_fit(cond) && box_fit(body),
        SExpr::For { init, cond, step, body } => box_fit(init) && box_fit(cond) && box_fit(step)
            && box_fit(body),
        SExpr::VarDecl { init, size, .. } => opt_fit(init) && opt_fit(size),
        SExpr::If { cond, then_br, else_br } => box_fit(cond) && box_fit(then_br) && opt_fit(else_br),
        SExpr::Return(x) => opt_fit(x),
        SExpr::Absolute(x) => box_fit(x),
        SExpr::ArrayIndex { arr, index } => box_fit(arr) && box_fit(index),
        SExpr::FuncCall { caller, args } => box_fit(caller) && list_fit(args),
        SExpr::FuncDecl { body, .. } => box_fit(body),
        SExpr::Atom(_) => true,
    }
}

pub open spec fn box_fit(e: Box<SExpr>) -> bool
    decreases e, 1int,
{
    all_fit(*e)
}

pub open spec fn opt_fit(e: Option<Box<SExpr>>) -> bool
    decreases e, 1int,
{
    match e {
        Some(b) => box_fit(b),
        None => true,
    }
}

pub open spec fn list_fit(items: Seq<SExpr>) -> bool
    decreases items, 0int,
{
    items.len() == 0 || (all_fit(items[0]) && list_fit(items.subrange(1, items.len() as int)))
}

/// A folded tree is an integer literal exactly when the tree has a constant
/// value, and then it is that value.
proof fn lemma_fold_literal(e: SExpr)
    ensures
        fold_tree(e) matches Some(f) ==> match int_lit(f) {
            Some(n) => const_value(e) == Some(n as int),
            None => const_value(e) is None,
        },
    decreases e,
{
    if let SExpr::Operation(op, args) = e {
        lemma_fold_list_items(args);
        if args.len() >= 1 {
            lemma_fold_literal(args[0]);
        }
        if args.len() >= 2 {
            lemma_fold_literal(args[1]);
        }
    }
}

/// A tree every node of which fits folds.
pub proof fn lemma_fitting_tree_folds(e: SExpr)
    requires
        all_fit(e),
    ensures
        fold_tree(e) is Some,
    decreases e, 0int,
{
    match e {
        SExpr::Operation(op, args) => {
            lemma_list_fit_folds(args);
            lemma_fold_list_items(args);
            if args.len() >= 1 {
                lemma_fold_literal(args[0]);
            }
            if args.len() >= 2 {
                lemma_fold_literal(args[1]);
            }
        },
        SExpr::Block(x) => lemma_list_fit_folds(x),
        SExpr::Cout(x) => lemma_list_fit_folds(x),
        SExpr::Cin(x) => lemma_list_fit_folds(x),
        SExpr::ArrayInit(x) => lemma_list_fit_folds(x),
        SExpr::While { cond, body } => {
            lemma_box_fit_folds(cond);
            lemma_box_fit_folds(body);
        },
        SExpr::For { init, cond, step, body } => {
            lemma_box_fit_folds(init);
            lemma_box_fit_folds(cond);
            lemma_box_fit_folds(step);
            lemma_box_fit_folds(body);
        },
        SExpr::VarDecl { init, size, .. } => {
            lemma_opt_fit_folds(init);
            lemma_opt_fit_folds(size);
        },
        SExpr::If { cond, then_br, else_br } => {
            lemma_box_fit_folds(cond);
            lemma_box_fit_folds(then_br);
            lemma_opt_fit_folds(else_br);
        },
        SExpr::Return(x) => lemma_opt_fit_folds(x),
        SExpr::Absolute(x) => lemma_box_fit_folds(x),
        SExpr::ArrayIndex { arr, index } => {
            lemma_box_fit_folds(arr);
            lemma_box_fit_folds(index);
        },
        SExpr::FuncCall { caller, args } => {
            lemma_box_fit_folds(caller);
            lemma_list_fit_folds(args);
        },
        SExpr::FuncDecl { body, .. } => lemma_box_fit_folds(body),
        SExpr::Atom(_) => {},
    }
}

proof fn lemma_box_fit_folds(e: Box<SExpr>)
    requires
        box_fit(e),
    ensures
        fold_box(e) is Some,
    decreases e, 1int,
{
    lemma_fitting_tree_folds(*e);
}

proof fn lemma_opt_fit_folds(e: Option<Box<SExpr>>)
    requires
        opt_fit(e),
    ensures
        fold_opt(e) is Some,
    decreases e, 1int,
{
    if let Some(b) = e {
        lemma_box_fit_folds(b);
    }
}

proof fn lemma_list_fit_folds(items: Seq<SExpr>)
    requires
        list_fit(items),
    ensures
        fold_list(items) is Some,
    decreases items, 0int,
{
    if items.len() > 0 {
        lemma_fitting_tree_folds(items[0]);
        lemma_list_fit_folds(items.subrange(1, items.len() as int));
    }
}

/// The folded value of `l op r` (see `fold_op`).
fn fold_binary(op: Ops, l: i32, r: i32) -> (v: Option<i32>)
    requires
        folds(op, r),
    ensures
        match v {
            Some(x) => !(op == Ops::Rem && l == i32::MIN && r == -1) && literal(
                binary_value(op, l as int, r as int),
            ) == Some(SExpr::Atom(SValue::Integer(x))),
            None => (op == Ops::Rem && l == i32::MIN && r == -1) || out_of_i32(
                binary_value(op, l as int, r as int),
            ),
        },
{
    let wide: i64 = match op {
        Ops::Add => l as i64 + r as i64,
        Ops::Sub => l as i64 - r as i64,
        Ops::Mul => {
            assert(-0x4000_0000_0000_0000 <= l as int * r as int <= 0x4000_0000_0000_0000)
                by (nonlinear_arith)
                requires
                    i32::MIN <= l <= i32::MAX,
                    i32::MIN <= r <= i32::MAX,
            ;
            l as i64 * r as i64
        },
        Ops::Div => {
            if l == i32::MIN && r == -1 {
                return None;
            }
            div_i32(l, r) as i64
        },
        _ => {
            if l == i32::MIN && r == -1 {
                return None;
            }
            rem_i32(l, r) as i64
        },
    };
    if wide < i32::MIN as i64 || wide > i32::MAX as i64 {
        None
    } else {
        Some(wide as i32)
    }
}

/// Folds an operation whose operands are folded already (see `fold_op`).
fn fold_operation(op: Ops, args: Vec<Expression>) -> (r: Option<Expression>)
    ensures
        match fold_op(op, subtrees(args@)) {
            None => r is None,
            Some(t) => r matches Some(x) && x@ == t,
        },
{
    let ghost a = subtrees(args@);
    if args.len() == 2 {
        assert(a[0] == args@[0]@ && a[1] == args@[1]@);
        if let (Expression::Atom(Value::Integer(l)), Expression::Atom(Value::Integer(r))) = (
            &args[0],
            &args[1],
        ) {
            let l = *l;
            let r = *r;
            let folded = match op {
                Ops::Add | Ops::Sub | Ops::Mul => true,
                Ops::Div | Ops::Rem => r != 0,
                _ => false,
            };
            if folded {
                return match fold_binary(op, l, r) {
                    Some(v) => Some(Expression::Atom(Value::Integer(v))),
                    None => None,
                };
            }
        }
    }
    if args.len() == 1 {
        assert(a[0] == args@[0]@);
        if let Expression::Atom(Value::Integer(v)) = &args[0] {
            if op == Ops::Neg {
                if *v == i32::MIN {
                    return None;
                }
                return Some(Expression::Atom(Value::Integer(-*v)));
            }
        }
    }
    let r = Expression::Operation(op, args);
    assert(r@ == SExpr::Operation(op, a)) by {
        assert(a =~= expr_view(r)->Operation_1);
    }
    Some(r)
}

fn fold_vec(items: Vec<Expression>) -> (r: Option<Vec<Expression>>)
    ensures
        match fold_list(subtrees(items@)) {
            None => r is None,
            Some(t) => r matches Some(v) && subtrees(v@) == t,
        },
    decreases items,
{
    let ghost all = subtrees(items@);
    let mut rest = items;
    let mut out: Vec<Expression> = Vec::new();
    let ghost mut k: int = 0;
    assert(all.subrange(0, all.len() as int) =~= all);
    assert(subtrees(out@) =~= Seq::<SExpr>::empty());
    while rest.len() > 0
        invariant
            0 <= k <= items@.len(),
            all == subtrees(items@),
            rest@ == items@.subrange(k, items@.len() as int),
            fold_list(all) == match fold_list(all.subrange(k, all.len() as int)) {
                Some(t) => Some(subtrees(out@) + t),
                None => None,
            },
        decreases rest@.len(),
    {
        let ghost tail = all.subrange(k, all.len() as int);
        assert(tail[0] == items@[k]@);
        assert(tail.subrange(1, tail.len() as int) =~= all.subrange(k + 1, all.len() as int));
        let x = rest.remove(0);
        assert(x == items@[k]);
        match fold_expr(x) {
            None => {
                return None;
            },
            Some(y) => {
                let ghost before = out@;
                out.push(y);
                assert(subtrees(out@) =~= subtrees(before).push(y@));
                assert forall|t: Seq<SExpr>| #![auto] subtrees(out@) + t =~= subtrees(before) + (seq![y@] + t) by {}
            },
        }
        proof {
            k = k + 1;
        }
        assert(rest@ =~= items@.subrange(k, items@.len() as int));
    }
    assert(all.subrange(k, all.len() as int) =~= Seq::<SExpr>::empty());
    assert(subtrees(out@) + Seq::<SExpr>::empty() =~= subtrees(out@));
    Some(out)
}

fn fold_boxed(b: Box<Expression>) -> (r: Option<Box<Expression>>)
    ensures
        match fold_tree((*b)@) {
            None => r is None,
            Some(t) => r matches Some(x) && (*x)@ == t,
        },
    decreases b, 1int,
{
    match fold_expr(*b) {
        Some(x) => Some(Box::new(x)),
        None => None,
    }
}

fn fold_option(o: Option<Box<Expression>>) -> (r: Option<Option<Box<Expression>>>)
    ensures
        match fold_opt(opt_view(o)) {
            None => r is None,
            Some(t) => r matches Some(x) && opt_view(x) == t,
        },
    decreases o, 1int,
{
    match o {
        Some(b) => match fold_boxed(b) {
            Some(x) => Some(Some(x)),
            None => None,
        },
        None => Some(None),
    }
}

/// Folds a tree (see `fold_tree`); nothing where a fold overflows `i32`.
pub fn fold_expr(expr: Expression) -> (r: Option<Expression>)
    ensures
        match fold_tree(expr@) {
            None => r is None,
            Some(t) => r matches Some(x) && x@ == t,
        },
    decreases expr, 0int,
{
    let ghost e = expr@;
    match expr {
        Expression::Operation(op, args) => {
            assert(subtrees(args@) =~= e->Operation_1);
            match fold_vec(args) {
                Some(a) => fold_operation(op, a),
                None => None,
            }
        },
        Expression::Block(stmts) => {
            assert(subtrees(stmts@) =~= e->Block_0);
            match fold_vec(stmts) {
                Some(a) => {
                    let r = Expression::Block(a);
                    assert(subtrees(a@) =~= r@->Block_0);
                    Some(r)
                },
                None => None,
            }
        },
        Expression::Cout(items) => {
            assert(subtrees(items@) =~= e->Cout_0);
            match fold_vec(items) {
                Some(a) => {
                    let r = Expression::Cout(a);
                    assert(subtrees(a@) =~= r@->Cout_0);
                    Some(r)
                },
                None => None,
            }
        },
        Expression::Cin(items) => {
            assert(subtrees(items@) =~= e->Cin_0);
            match fold_vec(items) {
                Some(a) => {
                    let r = Expression::Cin(a);
                    assert(subtrees(a@) =~= r@->Cin_0);
                    Some(r)
                },
                None => None,
            }
        },
        Expression::ArrayInit(items) => {
            assert(subtrees(items@) =~= e->ArrayInit_0);
            match fold_vec(items) {
                Some(a) => {
                    let r = Expression::ArrayInit(a);
                    assert(subtrees(a@) =~= r@->ArrayInit_0);
                    Some(r)
                },
                None => None,
            }
        },
        Expression::While { cond, body } => {
            let c = fold_boxed(cond);
            let b = fold_boxed(body);
            match (c, b) {
                (Some(c), Some(b)) => Some(Expression::While { cond: c, body: b }),
                _ => None,
            }
        },
        Expression::For { init, cond, step, body } => {
            let i = fold_boxed(init);
            let c = fold_boxed(cond);
            let s = fold_boxed(step);
            let b = fold_boxed(body);
            match (i, c, s, b) {
                (Some(i), Some(c), Some(s), Some(b)) => Some(
                    Expression::For { init: i, cond: c, step: s, body: b },
                ),
                _ => None,
            }
        },
        Expression::VarDecl { typ, name, init, size } => {
            let i = fold_option(init);
            let s = fold_option(size);
            match (i, s) {
                (Some(i), Some(s)) => Some(Expression::VarDecl { typ, name, init: i, size: s }),
                _ => None,
            }
        },
        Expression::If { cond, then_br, else_br } => {
            let c = fold_boxed(cond);
            let t = fold_boxed(then_br);
            let e2 = fold_option(else_br);
            match (c, t, e2) {
                (Some(c), Some(t), Some(e2)) => Some(
                    Expression::If { cond: c, then_br: t, else_br: e2 },
                ),
                _ => None,
            }
        },
        Expression::Return(x) => match fold_option(x) {
            Some(f) => Some(Expression::Return(f)),
            None => None,
        },
        Expression::Absolute(x) => match fold_boxed(x) {
            Some(f) => Some(Expression::Absolute(f)),
            None => None,
        },
        Expression::ArrayIndex { arr, index } => {
            let a = fold_boxed(arr);
            let i = fold_boxed(index);
            match (a, i) {
                (Some(a), Some(i)) => Some(Expression::ArrayIndex { arr: a, index: i }),
                _ => None,
            }
        },
        Expression::FuncCall { caller, args } => {
            assert(subtrees(args@) =~= e->FuncCall_args);
            let c = fold_boxed(caller);
            let a = fold_vec(args);
            match (c, a) {
                (Some(c), Some(a)) => {
                    let r = Expression::FuncCall { caller: c, args: a };
                    assert(subtrees(a@) =~= r@->FuncCall_args);
                    Some(r)
                },
                _ => None,
            }
        },
        Expression::FuncDecl { name, args, ret_type, body } => match fold_boxed(body) {
            Some(b) => {
                let r = Expression::FuncDecl { name, args, ret_type, body: b };
                Some(r)
            },
            None => None,
        },
        Expression::Atom(v) => Some(Expression::Atom(v)),
    }
}

/// Folds the constant operations of a tree (for trees on which no fold
/// overflows, see `fold_tree`).
pub fn optimize_tree(expr: Expression) -> (r: Expression)
    requires
        fold_tree(expr@) is Some,
    ensures
        r@ == fold_tree(expr@)->0,
{
    match fold_expr(expr) {
        Some(x) => x,
        None => Expression::Block(Vec::new()),
    }
}

} // verus!
