//! What compiling keeps: the code, the pending fixups and the listing
//! that the generator has emitted only grow, and its label and temporary
//! counters never go down.
use vstd::prelude::*;

use crate::codegen::{
    Cg, assign_s, auto_inc_ref_s, bool_value_s, cin_all_s, comparison_s, cond_s, cout_all_s,
    declare_args_s, declare_s, element_address_s, emit_ref_s, emit_s, expr_s, fail, imm_ref_s,
    incdec_s, jump_s, label_s, new_label_s, new_temp_s, pop_args_s, prologue_s, push_args_s,
    put_data_s, put_ints_s, array_init_s, second_s, stmt_all_s, stmt_s, test_s, three_labels_s,
    var_ref_s, var_value_s, stmt_rank, expr_rank, relation_jump,
};
use crate::parser::{Ops, SExpr, SValue};

verus! {

/// `a` is the beginning of `b`.
pub open spec fn starts<T>(a: Seq<T>, b: Seq<T>) -> bool {
    a.len() <= b.len() && forall|i: int| 0 <= i < a.len() ==> #[trigger] b[i] == a[i]
}

/// From state `a` to state `b` the generator only added: its code, fixups
/// and listing begin with those of `a`, and its counters are no lower.
pub open spec fn grows(a: Cg, b: Cg) -> bool {
    &&& starts(a.instructions, b.instructions)
    &&& starts(a.fixups, b.fixups)
    &&& starts(a.listing, b.listing)
    &&& a.label_counter <= b.label_counter
    &&& a.temp_counter <= b.temp_counter
}

proof fn lemma_grows_trans()
    ensures
        forall|a: Cg, b: Cg, c: Cg| #[trigger] grows(a, b) && #[trigger] grows(b, c) ==> grows(a, c),
        forall|a: Cg| #[trigger] grows(a, a),
{
}

proof fn lemma_pop_args(s: Cg, args: Seq<(Seq<char>, Seq<char>)>)
    ensures
        grows(s, pop_args_s(s, args)),
    decreases args.len(),
{
    lemma_steps_grow();
    lemma_grows_trans();
    if s.ok && args.len() > 0 {
        lemma_pop_args(var_ref_s(emit_s(s, crate::codegen::OP_POP, 0, 0), crate::codegen::OP_ST, args[0].1, 0), args.subrange(1, args.len() as int));
    }
}

proof fn lemma_declare_args(s: Cg, args: Seq<(Seq<char>, Seq<char>)>)
    ensures
        grows(s, declare_args_s(s, args)),
    decreases args.len(),
{
    lemma_steps_grow();
    lemma_grows_trans();
    if s.ok && args.len() > 0 {
        lemma_declare_args(
            declare_s(s, args[0].1, crate::codegen::VarInfo { addr: 0, typ: args[0].0, size: 1 }),
            args.subrange(1, args.len() as int),
        );
    }
}

proof fn lemma_cin_all(s: Cg, items: Seq<SExpr>)
    ensures
        grows(s, cin_all_s(s, items)),
    decreases items.len(),
{
    lemma_steps_grow();
    lemma_grows_trans();
    if s.ok && items.len() > 0 {
        let s1 = match items[0] {
            SExpr::Atom(SValue::Variable(v)) => var_ref_s(
                emit_s(s, crate::codegen::OP_LD, crate::codegen::MODE_DIRECT, crate::codegen::IN_PORT),
                crate::codegen::OP_ST,
                v,
                0,
            ),
            _ => s,
        };
        lemma_cin_all(s1, items.subrange(1, items.len() as int));
    }
}

proof fn lemma_put_ints(s: Cg, items: Seq<SExpr>)
    ensures
        grows(s, put_ints_s(s, items)),
    decreases items.len(),
{
    lemma_steps_grow();
    lemma_grows_trans();
    if s.ok && items.len() > 0 {
        let s1 = match items[0] {
            SExpr::Atom(SValue::Integer(n)) => put_data_s(s, n as u32),
            _ => s,
        };
        lemma_put_ints(s1, items.subrange(1, items.len() as int));
    }
}

proof fn lemma_array_init(s: Cg, items: Seq<SExpr>)
    ensures
        grows(s, array_init_s(s, items)),
    decreases items.len(),
{
    lemma_steps_grow();
    lemma_grows_trans();
    if s.ok && items.len() > 0 {
        let s1 = match items[0] {
            SExpr::Atom(SValue::Integer(n)) => put_data_s(s, n as u32),
            SExpr::Atom(SValue::Char(c)) => put_data_s(s, c as u32),
            SExpr::ArrayInit(inner) => put_ints_s(s, inner),
            _ => put_data_s(s, 0),
        };
        if let SExpr::ArrayInit(inner) = items[0] {
            lemma_put_ints(s, inner);
        }
        lemma_array_init(s1, items.subrange(1, items.len() as int));
    }
}

/// The single steps of the generator only add.
proof fn lemma_steps_grow()
    ensures
        forall|s: Cg| #[trigger] grows(s, fail(s)),
        forall|s: Cg, o: u8, m: u8, x: u32| #[trigger] grows(s, emit_s(s, o, m, x)),
        forall|s: Cg, o: u8, m: u8, x: u32, y: Seq<char>, f: u32, t: Seq<char>|
            #[trigger] grows(s, emit_ref_s(s, o, m, x, y, f, t)),
        forall|s: Cg, o: u8, y: Seq<char>, f: u32| #[trigger] grows(s, var_ref_s(s, o, y, f)),
        forall|s: Cg, o: u8, y: Seq<char>| #[trigger] grows(s, imm_ref_s(s, o, y)),
        forall|s: Cg, o: u8, y: Seq<char>| #[trigger] grows(s, auto_inc_ref_s(s, o, y)),
        forall|s: Cg, o: u8, y: Seq<char>| #[trigger] grows(s, var_value_s(s, o, y)),
        forall|s: Cg, o: u8, y: Seq<char>| #[trigger] grows(s, jump_s(s, o, y)),
        forall|s: Cg, y: Seq<char>| #[trigger] grows(s, label_s(s, y)),
        forall|s: Cg| #[trigger] grows(s, new_label_s(s).0),
        forall|s: Cg| #[trigger] grows(s, new_temp_s(s).0),
        forall|s: Cg| #[trigger] grows(s, three_labels_s(s).0),
        forall|s: Cg, y: Seq<char>, v: crate::codegen::VarInfo| #[trigger] grows(s, declare_s(s, y, v)),
        forall|s: Cg, w: u32| #[trigger] grows(s, put_data_s(s, w)),
        forall|s: Cg, t: Seq<char>, f: Seq<char>, e: Seq<char>| #[trigger] grows(s, bool_value_s(s, t, f, e)),
{
    lemma_grows_trans();
    assert forall|s: Cg, o: u8, m: u8, x: u32, y: Seq<char>, f: u32, t: Seq<char>|
        #[trigger] grows(s, emit_ref_s(s, o, m, x, y, f, t)) by {}
    assert forall|s: Cg, o: u8, y: Seq<char>| #[trigger] grows(s, jump_s(s, o, y)) by {
        assert(grows(s, emit_s(s, o, crate::codegen::MODE_DIRECT, 0)));
    }
    assert forall|s: Cg| #[trigger] grows(s, three_labels_s(s).0) by {
        let s1 = new_label_s(s).0;
        let s2 = new_label_s(s1).0;
        assert(grows(s, s1) && grows(s1, s2) && grows(s2, new_label_s(s2).0));
    }
    assert forall|s: Cg, t: Seq<char>, f: Seq<char>, e: Seq<char>| #[trigger] grows(s, bool_value_s(s, t, f, e)) by {
        let a = label_s(s, t);
        let b = emit_s(a, crate::codegen::OP_LD, 1, 1);
        let c = jump_s(b, crate::codegen::OP_JMP, e);
        let d = label_s(c, f);
        let g = emit_s(d, crate::codegen::OP_LD, 1, 0);
        assert(grows(s, a) && grows(a, b) && grows(b, c) && grows(c, d) && grows(d, g) && grows(g, label_s(g, e)));
    }
}

proof fn lemma_element_address(s: Cg, name: Seq<char>, index: SExpr)
    ensures
        grows(s, element_address_s(s, name, index).0),
    decreases index, 4int,
{
    lemma_steps_grow();
    lemma_grows_trans();
    let (s1, t) = new_temp_s(s);
    let s2 = if crate::codegen::is_ptr(crate::codegen::lookup(s1.vars, name)) {
        var_ref_s(s1, crate::codegen::OP_LD, name, 0)
    } else {
        imm_ref_s(s1, crate::codegen::OP_LD, name)
    };
    let s3 = var_ref_s(s2, crate::codegen::OP_ST, t, 0);
    lemma_expr(s3, index);
    let s4 = expr_s(s3, index);
    let s5 = emit_s(s4, crate::codegen::OP_MUL, 1, 4);
    let s6 = var_ref_s(s5, crate::codegen::OP_ADD, t, 0);
    assert(grows(s, s1) && grows(s1, s2) && grows(s2, s3) && grows(s3, s4) && grows(s4, s5) && grows(s5, s6)
        && grows(s6, var_ref_s(s6, crate::codegen::OP_ST, t, 0)));
}

proof fn lemma_stmt_all(s: Cg, items: Seq<SExpr>)
    ensures
        grows(s, stmt_all_s(s, items)),
    decreases items, 0int,
{
    lemma_grows_trans();
    if s.ok && items.len() > 0 {
        lemma_stmt(s, items[0]);
        lemma_stmt_all(stmt_s(s, items[0]), items.subrange(1, items.len() as int));
    }
}

proof fn lemma_cout_all(s: Cg, items: Seq<SExpr>)
    ensures
        grows(s, cout_all_s(s, items)),
    decreases items, 0int,
{
    lemma_steps_grow();
    lemma_grows_trans();
    if s.ok && items.len() > 0 {
        lemma_expr(s, items[0]);
        let s1 = emit_s(expr_s(s, items[0]), crate::codegen::OP_ST, crate::codegen::MODE_DIRECT, crate::codegen::OUT_PORT);
        assert(grows(s, s1));
        lemma_cout_all(s1, items.subrange(1, items.len() as int));
    }
}

proof fn lemma_push_args(s: Cg, args: Seq<SExpr>)
    ensures
        grows(s, push_args_s(s, args)),
    decreases args, 0int,
{
    lemma_steps_grow();
    lemma_grows_trans();
    if s.ok && args.len() > 0 {
        lemma_expr(s, args[args.len() - 1]);
        let s1 = emit_s(expr_s(s, args[args.len() - 1]), crate::codegen::OP_PUSH, 0, 0);
        assert(grows(s, s1));
        lemma_push_args(s1, args.subrange(0, args.len() - 1));
    }
}

proof fn lemma_assign(s: Cg, items: Seq<SExpr>)
    ensures
        grows(s, assign_s(s, items)),
    decreases items, 0int,
{
    lemma_steps_grow();
    lemma_grows_trans();
    if s.ok && items.len() >= 2 {
        match items[0] {
            SExpr::Atom(SValue::Variable(v)) => {
                lemma_expr(s, items[1]);
                assert(grows(s, expr_s(s, items[1])));
            },
            SExpr::ArrayIndex { arr, index } => match *arr {
                SExpr::Atom(SValue::Variable(n)) => {
                    lemma_element_address(s, n, *index);
                    let (s1, t) = element_address_s(s, n, *index);
                    lemma_expr(s1, items[1]);
                    assert(grows(s, s1) && grows(s1, expr_s(s1, items[1])));
                },
                _ => {},
            },
            _ => {},
        }
    }
}

proof fn lemma_incdec(s: Cg, left: SExpr, increment: bool)
    ensures
        grows(s, incdec_s(s, left, increment)),
{
    lemma_steps_grow();
    lemma_grows_trans();
    if let SExpr::Atom(SValue::Variable(x)) = left {
        let s1 = var_ref_s(s, crate::codegen::OP_LD, x, 0);
        let s2 = emit_s(s1, if increment { crate::codegen::OP_INC } else { crate::codegen::OP_DEC }, 0, 0);
        assert(grows(s, s1) && grows(s1, s2) && grows(s2, var_ref_s(s2, crate::codegen::OP_ST, x, 0)));
    }
}

proof fn lemma_stmt(s: Cg, e: SExpr)
    ensures
        grows(s, stmt_s(s, e)),
    decreases e, stmt_rank(e),
{
    lemma_steps_grow();
    lemma_grows_trans();
    if s.ok {
        match e {
            SExpr::Block(items) => lemma_stmt_all(s, items),
            SExpr::VarDecl { name, init, .. } => {
                let s1 = declare_s(s, name, crate::codegen::word_var());
                if let Some(x) = init {
                    lemma_expr(s1, *x);
                    assert(grows(s, s1) && grows(s1, expr_s(s1, *x)));
                }
            },
            SExpr::FuncDecl { name, args, body, .. } => {
                lemma_declare_args(s, args);
                let s1 = label_s(declare_args_s(s, args), "fn_"@ + name);
                let s2 = Cg { in_main: name == "main"@, ..s1 };
                let s3 = if name != "main"@ && args.len() > 0 {
                    prologue_s(s2, args)
                } else {
                    s2
                };
                if name != "main"@ && args.len() > 0 {
                    let (a1, t) = new_temp_s(s2);
                    let a2 = var_ref_s(emit_s(a1, crate::codegen::OP_POP, 0, 0), crate::codegen::OP_ST, t, 0);
                    lemma_pop_args(a2, args);
                    let a3 = pop_args_s(a2, args);
                    let a4 = var_ref_s(a3, crate::codegen::OP_LD, t, 0);
                    assert(grows(s2, a1) && grows(a1, emit_s(a1, crate::codegen::OP_POP, 0, 0)) && grows(
                        emit_s(a1, crate::codegen::OP_POP, 0, 0),
                        a2,
                    ) && grows(a3, a4) && grows(a4, emit_s(a4, crate::codegen::OP_PUSH, 0, 0)));
                }
                lemma_stmt(s3, *body);
                let s4 = stmt_s(s3, *body);
                let s5 = Cg { in_main: false, ..s4 };
                assert(grows(s, declare_args_s(s, args)) && grows(declare_args_s(s, args), s1) && grows(s1, s2)
                    && grows(s2, s3) && grows(s3, s4) && grows(s4, s5) && grows(s5, emit_s(s5, crate::codegen::OP_RET, 0, 0)));
            },
            SExpr::If { cond, then_br, else_br } => {
                let (s1, tl, el, nl) = three_labels_s(s);
                let fl = if else_br is Some { el } else { nl };
                lemma_cond(s1, *cond, tl, fl);
                let s2 = cond_s(s1, *cond, tl, fl);
                let a = label_s(s2, tl);
                lemma_stmt(a, *then_br);
                let b = stmt_s(a, *then_br);
                let s3 = jump_s(b, crate::codegen::OP_JMP, nl);
                assert(grows(s, s1) && grows(s1, s2) && grows(s2, a) && grows(a, b) && grows(b, s3));
                let s4 = match else_br {
                    Some(x) => stmt_s(label_s(s3, el), *x),
                    None => s3,
                };
                if let Some(x) = else_br {
                    lemma_stmt(label_s(s3, el), *x);
                    assert(grows(s3, label_s(s3, el)));
                }
                assert(grows(s3, s4) && grows(s4, label_s(s4, nl)));
            },
            SExpr::While { cond, body } => {
                let (s1, ll, bl, nl) = three_labels_s(s);
                let a = label_s(s1, ll);
                lemma_cond(a, *cond, bl, nl);
                let s2 = cond_s(a, *cond, bl, nl);
                let b = label_s(s2, bl);
                lemma_stmt(b, *body);
                let s3 = stmt_s(b, *body);
                let c = jump_s(s3, crate::codegen::OP_JMP, ll);
                assert(grows(s, s1) && grows(s1, a) && grows(a, s2) && grows(s2, b) && grows(b, s3) && grows(s3, c)
                    && grows(c, label_s(c, nl)));
            },
            SExpr::For { init, cond, step, body } => {
                lemma_stmt(s, *init);
                let s0 = stmt_s(s, *init);
                let (s1, ll, bl, nl) = three_labels_s(s0);
                let a = label_s(s1, ll);
                lemma_cond(a, *cond, bl, nl);
                let s2 = cond_s(a, *cond, bl, nl);
                let b = label_s(s2, bl);
                lemma_stmt(b, *body);
                let c = stmt_s(b, *body);
                lemma_stmt(c, *step);
                let s3 = stmt_s(c, *step);
                let d = jump_s(s3, crate::codegen::OP_JMP, ll);
                assert(grows(s, s0) && grows(s0, s1) && grows(s1, a) && grows(a, s2) && grows(s2, b) && grows(b, c)
                    && grows(c, s3) && grows(s3, d) && grows(d, label_s(d, nl)));
            },
            SExpr::Cout(items) => lemma_cout_all(s, items),
            SExpr::Cin(items) => lemma_cin_all(s, items),
            SExpr::Return(x) => {
                let s1 = match x {
                    Some(b) => expr_s(s, *b),
                    None => emit_s(s, crate::codegen::OP_CLA, 0, 0),
                };
                if let Some(b) = x {
                    lemma_expr(s, *b);
                }
                assert(grows(s, s1) && grows(s1, emit_s(s1, crate::codegen::OP_RET, 0, 0)));
            },
            SExpr::Operation(op, items) => {
                if op == Ops::Assign {
                    if items.len() >= 2 {
                        lemma_assign(s, items);
                    }
                } else if op == Ops::Inc || op == Ops::Dec {
                    if items.len() >= 1 {
                        lemma_incdec(s, items[0], op == Ops::Inc);
                    }
                } else {
                    lemma_expr(s, e);
                }
            },
            _ => lemma_expr(s, e),
        }
    }
}

proof fn lemma_expr(s: Cg, e: SExpr)
    ensures
        grows(s, expr_s(s, e)),
    decreases e, expr_rank(e),
{
    lemma_steps_grow();
    lemma_grows_trans();
    if s.ok {
        match e {
            SExpr::Operation(op, items) => {
                if op == Ops::Neg {
                    if items.len() >= 1 {
                        lemma_expr(s, items[0]);
                        assert(grows(expr_s(s, items[0]), emit_s(expr_s(s, items[0]), crate::codegen::OP_INV, 0, 0)));
                    }
                } else if op == Ops::Not {
                    if items.len() >= 1 {
                        lemma_expr(s, items[0]);
                        let s1 = emit_s(expr_s(s, items[0]), crate::codegen::OP_CMP, 1, 0);
                        let (s2, tl, fl, nl) = three_labels_s(s1);
                        let a = jump_s(s2, crate::codegen::OP_JEQ, tl);
                        let s3 = jump_s(a, crate::codegen::OP_JMP, fl);
                        assert(grows(s, expr_s(s, items[0])) && grows(expr_s(s, items[0]), s1) && grows(s1, s2) && grows(
                            s2,
                            a,
                        ) && grows(a, s3) && grows(s3, bool_value_s(s3, tl, fl, nl)));
                    }
                } else if crate::codegen::is_arith(op) {
                    if items.len() >= 1 {
                        lemma_expr(s, items[0]);
                        let s1 = expr_s(s, items[0]);
                        if items.len() > 1 {
                            lemma_second(s1, items[1], crate::codegen::binary_op(op));
                        }
                    }
                } else if crate::codegen::is_relation(op) {
                    let (s1, tl, fl, nl) = three_labels_s(s);
                    lemma_comparison(s1, op, items, tl, fl);
                    let s2 = comparison_s(s1, op, items, tl, fl);
                    assert(grows(s, s1) && grows(s1, s2) && grows(s2, bool_value_s(s2, tl, fl, nl)));
                } else {
                    lemma_stmt(s, e);
                }
            },
            SExpr::Absolute(x) => {
                lemma_expr(s, *x);
                assert(grows(expr_s(s, *x), emit_s(expr_s(s, *x), crate::codegen::OP_ABS, 0, 0)));
            },
            SExpr::ArrayIndex { arr, index } => match *arr {
                SExpr::Atom(SValue::Variable(n)) => {
                    lemma_element_address(s, n, *index);
                    let (s1, t) = element_address_s(s, n, *index);
                    assert(grows(s1, auto_inc_ref_s(s1, crate::codegen::OP_LD, t)));
                },
                _ => {},
            },
            SExpr::FuncCall { caller, args } => match *caller {
                SExpr::Atom(SValue::Variable(f)) => {
                    lemma_push_args(s, args);
                    assert(grows(push_args_s(s, args), jump_s(push_args_s(s, args), crate::codegen::OP_CALL, "fn_"@ + f)));
                },
                _ => {},
            },
            SExpr::ArrayInit(items) => {
                lemma_array_init(s, items);
                assert(grows(array_init_s(s, items), emit_s(array_init_s(s, items), crate::codegen::OP_LD, 1, s.data_address)));
            },
            SExpr::Atom(_) => {},
            _ => lemma_stmt(s, e),
        }
    }
}

proof fn lemma_second(s: Cg, e: SExpr, opcode: u8)
    ensures
        grows(s, second_s(s, e, opcode)),
    decreases e, 3int,
{
    lemma_steps_grow();
    lemma_grows_trans();
    if s.ok {
        match e {
            SExpr::Atom(SValue::Integer(_)) => {},
            SExpr::Atom(SValue::Char(_)) => {},
            SExpr::Atom(SValue::Variable(_)) => {},
            _ => {
                let (s1, t) = new_temp_s(s);
                let a = var_ref_s(s1, crate::codegen::OP_ST, t, 0);
                lemma_expr(a, e);
                let s2 = expr_s(a, e);
                assert(grows(s, s1) && grows(s1, a) && grows(a, s2) && grows(s2, var_ref_s(s2, opcode, t, 0)));
            },
        }
    }
}

proof fn lemma_cond(s: Cg, e: SExpr, t: Seq<char>, f: Seq<char>)
    ensures
        grows(s, cond_s(s, e, t, f)),
    decreases e, 4int,
{
    lemma_steps_grow();
    lemma_grows_trans();
    if s.ok {
        match e {
            SExpr::Atom(SValue::Boolean(_)) => {},
            SExpr::Operation(op, items) => {
                if crate::codegen::is_relation(op) {
                    lemma_comparison(s, op, items, t, f);
                } else if op == Ops::And || op == Ops::Or {
                    if items.len() >= 2 {
                        let (s1, nl) = new_label_s(s);
                        let s2 = if op == Ops::And {
                            cond_s(s1, items[0], nl, f)
                        } else {
                            cond_s(s1, items[0], t, nl)
                        };
                        if op == Ops::And {
                            lemma_cond(s1, items[0], nl, f);
                        } else {
                            lemma_cond(s1, items[0], t, nl);
                        }
                        let a = label_s(s2, nl);
                        lemma_cond(a, items[1], t, f);
                        assert(grows(s, s1) && grows(s1, s2) && grows(s2, a) && grows(a, cond_s(a, items[1], t, f)));
                    }
                } else if op == Ops::Not {
                    if items.len() >= 1 {
                        lemma_cond(s, items[0], f, t);
                    }
                } else {
                    lemma_test(s, e, t, f);
                }
            },
            _ => lemma_test(s, e, t, f),
        }
    }
}

proof fn lemma_test(s: Cg, e: SExpr, t: Seq<char>, f: Seq<char>)
    ensures
        grows(s, test_s(s, e, t, f)),
    decreases e, 3int,
{
    lemma_steps_grow();
    lemma_grows_trans();
    lemma_expr(s, e);
    let s1 = emit_s(expr_s(s, e), crate::codegen::OP_CMP, 1, 0);
    let a = jump_s(s1, crate::codegen::OP_JNE, t);
    assert(grows(s, expr_s(s, e)) && grows(expr_s(s, e), s1) && grows(s1, a) && grows(a, jump_s(a, crate::codegen::OP_JMP, f)));
}

proof fn lemma_comparison(s: Cg, op: Ops, items: Seq<SExpr>, t: Seq<char>, f: Seq<char>)
    ensures
        grows(s, comparison_s(s, op, items, t, f)),
    decreases items, 0int,
{
    lemma_steps_grow();
    lemma_grows_trans();
    if s.ok && crate::codegen::is_relation(op) && items.len() >= 2 {
        let (jop, swap) = relation_jump(op);
        let (x, y) = if swap { (items[1], items[0]) } else { (items[0], items[1]) };
        lemma_expr(s, x);
        lemma_second(expr_s(s, x), y, crate::codegen::OP_CMP);
        let s1 = second_s(expr_s(s, x), y, crate::codegen::OP_CMP);
        let a = jump_s(s1, jop, t);
        assert(grows(s, expr_s(s, x)) && grows(expr_s(s, x), s1) && grows(s1, a) && grows(a, jump_s(a, crate::codegen::OP_JMP, f)));
    }
}

/// Compiling a statement or an expression only adds to what was
/// emitted: the code, the pending fixups and the listing begin with what
/// they were, and the label and temporary counters never go down.
pub proof fn lemma_compiling_only_adds(s: Cg, e: SExpr)
    ensures
        grows(s, stmt_s(s, e)),
        grows(s, expr_s(s, e)),
{
    lemma_stmt(s, e);
    lemma_expr(s, e);
}

/// An arithmetic tree of integer literals whose every right operand is a
/// literal: `n`, or `l op m` for an operator that compiles to one ALU
/// instruction.
pub open spec fn literal_tree(e: SExpr) -> bool
    decreases e,
{
    match e {
        SExpr::Atom(SValue::Integer(_)) => true,
        SExpr::Operation(op, items) => crate::codegen::is_arith(op) && items.len() == 2 && literal_tree(
            items[0],
        ) && items[1] is Atom && items[1]->Atom_0 is Integer,
        _ => false,
    }
}

/// The immediate-mode code of a literal tree: a load of its first literal,
/// then one ALU instruction per operator with the literal as operand.
pub open spec fn immediate_code(e: SExpr) -> Seq<u32>
    decreases e,
{
    match e {
        SExpr::Atom(SValue::Integer(n)) => seq![crate::codegen::encode_word(crate::codegen::OP_LD, 1, n as u32)],
        SExpr::Operation(op, items) => if items.len() == 2 {
            match items[1] {
                SExpr::Atom(SValue::Integer(m)) => immediate_code(items[0]).push(
                    crate::codegen::encode_word(crate::codegen::binary_op(op), 1, m as u32),
                ),
                _ => Seq::empty(),
            }
        } else {
            Seq::empty()
        },
        _ => Seq::empty(),
    }
}

/// A literal tree compiles, when it compiles, to its immediate-mode code
/// and nothing else: no fixups and no other instruction.
pub proof fn lemma_literal_tree_code(s: Cg, e: SExpr)
    requires
        literal_tree(e),
    ensures
        expr_s(s, e).ok ==> expr_s(s, e).instructions == s.instructions + immediate_code(e)
            && expr_s(s, e).fixups == s.fixups,
    decreases e,
{
    if s.ok {
        match e {
            SExpr::Atom(SValue::Integer(n)) => {
                let w = crate::codegen::encode_word(crate::codegen::OP_LD, 1, n as u32);
                assert(s.instructions + seq![w] =~= s.instructions.push(w));
            },
            SExpr::Operation(op, items) => {
                lemma_literal_tree_code(s, items[0]);
                let s1 = expr_s(s, items[0]);
                assert(expr_s(s, e) == second_s(s1, items[1], crate::codegen::binary_op(op)));
                if let SExpr::Atom(SValue::Integer(m)) = items[1] {
                    let w = crate::codegen::encode_word(crate::codegen::binary_op(op), 1, m as u32);
                    if s1.ok {
                        assert(second_s(s1, items[1], crate::codegen::binary_op(op)) == emit_s(
                            s1,
                            crate::codegen::binary_op(op),
                            1,
                            m as u32,
                        ));
                        assert(s.instructions + immediate_code(items[0]).push(w) =~= (s.instructions
                            + immediate_code(items[0])).push(w));
                    }
                }
            },
            _ => {},
        }
    }
}

} // verus!
