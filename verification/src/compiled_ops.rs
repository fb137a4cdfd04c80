//! What the compiled operators compute: the instruction that each
//! arithmetic operator compiles to makes the processor's microprogram run
//! the ALU operation of that operator on the accumulator and the operand.
use vstd::prelude::*;

use crate::arith::{trunc_div, trunc_rem};
use crate::codegen::{binary_op, is_arith};
use crate::consts::{
    ALU_ADD, ALU_AND, ALU_DIV, ALU_MOD, ALU_MUL, ALU_OR, ALU_SUB, ALU_XOR, BUS_IN_AC, BUS_IN_PS, BUS_OUT_ALU, BUS_OUT_CR,
    BUS_OUT_DR, COND_MODE1, COND_MODE2, COND_UNCOND, SEQ_JUMP,
};
use crate::cpu::{alu, lemma_alu_values};
use crate::microcode::{mapping_word, microcode_fields};
use crate::parser::Ops;

verus! {

/// The value of `a op b` for an arithmetic operator, on 32-bit integers
/// that wrap: `+`, `-`, `*`; `/` and `%` rounding toward zero, giving 0
/// for a zero divisor; and, or and exclusive or bit by bit (`&&` and `||`
/// compile to the bitwise operations).
pub open spec fn operator_value(op: Ops, a: i32, b: i32) -> i32 {
    match op {
        Ops::Add => (a + b) as i32,
        Ops::Sub => (a - b) as i32,
        Ops::Mul => (a * b) as i32,
        Ops::Div => if b == 0 { 0 } else { trunc_div(a as int, b as int) as i32 },
        Ops::Rem => if b == 0 { 0 } else { trunc_rem(a as int, b as int) as i32 },
        Ops::And | Ops::BitAnd => a & b,
        Ops::Or | Ops::BitOr => a | b,
        _ => a ^ b,
    }
}

/// The ALU operation that the immediate-mode routine of `opcode` runs:
/// the mapping ROM gives the opcode's dispatch word, which jumps on
/// immediate mode to the routine, whose first word drives the operand to
/// the ALU.
pub open spec fn immediate_alu(opcode: u8) -> u8 {
    let dispatch = fields_at(mapping_word(opcode as int) as int);
    fields_at(dispatch.7 as int).4
}

/// The ALU operation that the direct-mode routine of `opcode` runs: the
/// dispatch word after the first jumps on direct mode to the routine,
/// whose third word drives the operand read from memory to the ALU.
pub open spec fn direct_alu(opcode: u8) -> u8 {
    let dispatch = fields_at(mapping_word(opcode as int) as int + 1);
    fields_at(dispatch.7 as int + 2).4
}

/// The control word that writes the ALU result to the accumulator and
/// the flags and returns to the fetch sequence.
pub open spec fn store_result() -> (u8, u8, u8, u8, u8, u8, u8, u16) {
    (BUS_OUT_ALU, BUS_IN_AC | BUS_IN_PS, 0, 0, 0, SEQ_JUMP, COND_UNCOND, 0)
}

/// The fields of the control word at `a` (all zero where none is set).
pub open spec fn fields_at(a: int) -> (u8, u8, u8, u8, u8, u8, u8, u16) {
    match microcode_fields(a) {
        Some(f) => f,
        None => (0, 0, 0, 0, 0, 0, 0, 0),
    }
}

/// Every arithmetic operator compiles to an instruction whose dispatch
/// words jump, in immediate mode, to a routine that drives the
/// instruction's operand into the ALU, and in direct mode to one that
/// drives the word read from memory into it; both run an ALU operation
/// that computes the operator, `a op b` for every accumulator `a`, operand
/// `b` and carry, and then write the result to the accumulator.
pub proof fn lemma_operators_compute(op: Ops, a: i32, b: i32, carry: bool)
    requires
        is_arith(op),
    ensures
        ({
            let d = mapping_word(binary_op(op) as int) as int;
            let dispatch = fields_at(d);
            &&& microcode_fields(d) is Some
            &&& dispatch.5 == SEQ_JUMP
            &&& dispatch.6 == COND_MODE1
            &&& microcode_fields(dispatch.7 as int) is Some
            &&& fields_at(dispatch.7 as int).0 == BUS_OUT_CR
            &&& fields_at(dispatch.7 as int + 1) == store_result()
        }),
        ({
            let d = mapping_word(binary_op(op) as int) as int + 1;
            let dispatch = fields_at(d);
            &&& dispatch.5 == SEQ_JUMP
            &&& dispatch.6 == COND_MODE2
            &&& fields_at(dispatch.7 as int + 2).0 == BUS_OUT_DR
            &&& fields_at(dispatch.7 as int + 3) == store_result()
        }),
        alu(immediate_alu(binary_op(op)), a, b, carry).value == operator_value(op, a, b),
        alu(direct_alu(binary_op(op)), a, b, carry).value == operator_value(op, a, b),
{
    lemma_alu_values(a, b, carry);
    let k = immediate_alu(binary_op(op));
    let j = direct_alu(binary_op(op));
    match op {
        Ops::Add => assert(k == ALU_ADD && j == ALU_ADD),
        Ops::Sub => assert(k == ALU_SUB && j == ALU_SUB),
        Ops::Mul => assert(k == ALU_MUL && j == ALU_MUL),
        Ops::Div => assert(k == ALU_DIV && j == ALU_DIV),
        Ops::Rem => assert(k == ALU_MOD && j == ALU_MOD),
        Ops::And | Ops::BitAnd => assert(k == ALU_AND && j == ALU_AND),
        Ops::Or | Ops::BitOr => assert(k == ALU_OR && j == ALU_OR),
        _ => assert(k == ALU_XOR && j == ALU_XOR),
    }
}

/// The compiler's listing and the processor's trace name every
/// instruction alike, and every instruction the compiler can name is one
/// that the processor's mapping ROM starts a routine for.
pub proof fn lemma_mnemonics_agree(opcode: u8)
    ensures
        crate::codegen::op_name(opcode as u32) != "???"@ ==> crate::codegen::op_name(opcode as u32)
            == crate::trace::cpu_op_name(opcode) && mapping_word(opcode as int) != 0,
{
    crate::trace::lemma_mapped_iff_named(opcode);
}

} // verus!
