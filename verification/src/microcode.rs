//! The microprogrammed control unit: the control-word format, the
//! sequencer, and the microprogram and opcode mapping ROM it runs.
use vstd::prelude::*;

use crate::consts::{BUS_OUT_AC, BUS_OUT_DR, BUS_OUT_IP, BUS_OUT_SP, BUS_OUT_CR, BUS_OUT_ALU, BUS_IN_AC, BUS_IN_DR, BUS_IN_AR, BUS_IN_IP, BUS_IN_CR, BUS_IN_PS, CNT_IP_INC, CNT_SP_INC, CNT_SP_DEC, MEM_READ, MEM_WRITE, MEM_WAIT, ALU_ADD, ALU_SUB, ALU_MUL, ALU_DIV, ALU_MOD, ALU_CMP, ALU_AND, ALU_OR, ALU_XOR, ALU_INV, ALU_ABS, ALU_INC, ALU_DEC, ALU_EXT8, ALU_EXT16, ALU_ADC, SEQ_NEXT, SEQ_JUMP, SEQ_MAP, COND_UNCOND, COND_Z, COND_N, COND_C, COND_V, COND_INP, COND_MODE1, COND_MODE2, COND_MODE4, COND_MODE5, ProcessorStatus};

verus! {

/// A decoded control word.
pub struct MicroInstruction {
    pub bus_out: u8,
    pub bus_in: u8,
    pub cnt: u8,
    pub mem: u8,
    pub alu: u8,
    pub seq_ctrl: u8,
    pub seq_cond: u8,
    pub next_addr: u16,
}

/// The fields of a control word: bus sources in bits 34..39, bus
/// destinations in 27..33, counters in 24..26, memory in 21..23, ALU
/// operation in 16..20, sequencing in 14..15, condition in 10..13 and the
/// next address in 0..9.
pub open spec fn decode_word(word: u64) -> MicroInstruction {
    MicroInstruction {
        bus_out: ((word >> 34u64) & 0x3Fu64) as u8,
        bus_in: ((word >> 27u64) & 0x7Fu64) as u8,
        cnt: ((word >> 24u64) & 0x07u64) as u8,
        mem: ((word >> 21u64) & 0x07u64) as u8,
        alu: ((word >> 16u64) & 0x1Fu64) as u8,
        seq_ctrl: ((word >> 14u64) & 0x03u64) as u8,
        seq_cond: ((word >> 10u64) & 0x0Fu64) as u8,
        next_addr: (word & 0x3FFu64) as u16,
    }
}

impl From<u64> for MicroInstruction {
    fn from(word: u64) -> (r: Self) {
        Self {
            bus_out: ((word >> 34) & 0x3F) as u8,
            bus_in: ((word >> 27) & 0x7F) as u8,
            cnt: ((word >> 24) & 0x07) as u8,
            mem: ((word >> 21) & 0x07) as u8,
            alu: ((word >> 16) & 0x1F) as u8,
            seq_ctrl: ((word >> 14) & 0x03) as u8,
            seq_cond: ((word >> 10) & 0x0F) as u8,
            next_addr: (word & 0x3FF) as u16,
        }
    }
}

impl vstd::std_specs::convert::FromSpecImpl<u64> for MicroInstruction {
    open spec fn obeys_from_spec() -> bool {
        true
    }

    open spec fn from_spec(word: u64) -> Self {
        decode_word(word)
    }
}

/// A control word from its fields.
pub open spec fn spec_micro(
    bus_out: u8,
    bus_in: u8,
    cnt: u8,
    mem: u8,
    alu: u8,
    seq_ctrl: u8,
    seq_cond: u8,
    next_addr: u16,
) -> u64 {
    (bus_out as u64) << 34u64 | (bus_in as u64) << 27u64 | (cnt as u64) << 24u64 | (mem as u64)
        << 21u64 | (alu as u64) << 16u64 | (seq_ctrl as u64) << 14u64 | (seq_cond as u64) << 10u64
        | next_addr as u64
}

/// Packs the fields of a control word.
#[allow(clippy::too_many_arguments)]
pub(crate) fn micro(
    bus_out: u8,
    bus_in: u8,
    cnt: u8,
    mem: u8,
    alu: u8,
    seq_ctrl: u8,
    seq_cond: u8,
    next_addr: u16,
) -> (r: u64)
    ensures
        r == spec_micro(bus_out, bus_in, cnt, mem, alu, seq_ctrl, seq_cond, next_addr),
{
    (bus_out as u64) << 34 | (bus_in as u64) << 27 | (cnt as u64) << 24 | (mem as u64) << 21 | (
    alu as u64) << 16 | (seq_ctrl as u64) << 14 | (seq_cond as u64) << 10 | next_addr as u64
}

pub const FETCH: u16 = 0x000;
pub const NOP_ADDR: u16 = 0x100;
pub const HLT_ADDR: u16 = 0x101;
pub const CLA_ADDR: u16 = 0x102;
pub const CMA_ADDR: u16 = 0x104;
pub const INV_ADDR: u16 = 0x106;
pub const INC_ADDR: u16 = 0x107;
pub const DEC_ADDR: u16 = 0x108;
pub const ABS_ADDR: u16 = 0x109;
pub const EXT8_ADDR: u16 = 0x10A;
pub const EXT16_ADDR: u16 = 0x10B;
pub const PUSH_ADDR: u16 = 0x110;
pub const POP_ADDR: u16 = 0x112;
pub const RET_ADDR: u16 = 0x114;
pub const LD_IMM: u16 = 0x200;
pub const LD_DIR: u16 = 0x202;
pub const LD_AINC: u16 = 0x205;
pub const LD_ADEC: u16 = 0x20D;
pub const ST_DIR: u16 = 0x215;
pub const ST_AINC: u16 = 0x218;
pub const ST_ADEC: u16 = 0x222;
pub const ADD_IMM: u16 = 0x300;
pub const ADD_DIR: u16 = 0x302;
pub const ADC_IMM: u16 = 0x308;
pub const ADC_DIR: u16 = 0x30B;
pub const SUB_IMM: u16 = 0x310;
pub const SUB_DIR: u16 = 0x312;
pub const MUL_IMM: u16 = 0x318;
pub const MUL_DIR: u16 = 0x31A;
pub const DIV_IMM: u16 = 0x320;
pub const DIV_DIR: u16 = 0x322;
pub const MOD_IMM: u16 = 0x328;
pub const MOD_DIR: u16 = 0x32A;
pub const AND_IMM: u16 = 0x330;
pub const AND_DIR: u16 = 0x332;
pub const OR_IMM: u16 = 0x338;
pub const OR_DIR: u16 = 0x33A;
pub const XOR_IMM: u16 = 0x340;
pub const XOR_DIR: u16 = 0x342;
pub const CMP_IMM: u16 = 0x348;
pub const CMP_DIR: u16 = 0x34A;
pub const JMP_ADDR: u16 = 0x030;
pub const JEQ_ADDR: u16 = 0x034;
pub const JNE_ADDR: u16 = 0x038;
pub const JLT_ADDR: u16 = 0x03C;
pub const JGE_ADDR: u16 = 0x040;
pub const JCS_ADDR: u16 = 0x044;
pub const JCC_ADDR: u16 = 0x048;
pub const JVS_ADDR: u16 = 0x04C;
pub const JVC_ADDR: u16 = 0x050;
pub const CALL_ADDR: u16 = 0x054;
pub const LD_DISPATCH: u16 = 0x120;
pub const ST_DISPATCH: u16 = 0x125;
pub const ADD_DISPATCH: u16 = 0x130;
pub const ADC_DISPATCH: u16 = 0x133;
pub const SUB_DISPATCH: u16 = 0x136;
pub const MUL_DISPATCH: u16 = 0x139;
pub const DIV_DISPATCH: u16 = 0x13C;
pub const MOD_DISPATCH: u16 = 0x13F;
pub const CMP_DISPATCH: u16 = 0x142;
pub const AND_DISPATCH: u16 = 0x145;
pub const OR_DISPATCH: u16 = 0x148;
pub const XOR_DISPATCH: u16 = 0x14B;

/// The microprogram, by the fields (bus source, bus destinations,
/// counters, memory, ALU operation, sequencing, condition, next address)
/// of the control word stored at each address that the control unit sets
/// (every other address holds 0).
pub open spec fn microcode_fields(a: int) -> Option<(u8, u8, u8, u8, u8, u8, u8, u16)> {
    if a == 0 {
        Some((BUS_OUT_IP, BUS_IN_AR, 0, 0, 0, SEQ_NEXT, 0, 0))
    } else if a == 1 {
        Some((0, 0, 0, MEM_READ | MEM_WAIT, 0, SEQ_NEXT, 0, 0))
    } else if a == 2 {
        Some((BUS_OUT_DR, BUS_IN_CR, CNT_IP_INC, 0, 0, SEQ_NEXT, 0, 0))
    } else if a == 3 {
        Some((0, 0, 0, 0, 0, SEQ_MAP, 0, 0))
    } else if a == JMP_ADDR {
        Some((BUS_OUT_CR, BUS_IN_IP, 0, 0, 0, SEQ_JUMP, COND_UNCOND, FETCH))
    } else if a == JEQ_ADDR {
        Some((0, 0, 0, 0, 0, SEQ_JUMP, COND_Z, (JEQ_ADDR + 2) as u16))
    } else if a == JEQ_ADDR + 1 {
        Some((0, 0, 0, 0, 0, SEQ_JUMP, COND_UNCOND, FETCH))
    } else if a == JEQ_ADDR + 2 {
        Some((BUS_OUT_CR, BUS_IN_IP, 0, 0, 0, SEQ_JUMP, COND_UNCOND, FETCH))
    } else if a == JNE_ADDR {
        Some((0, 0, 0, 0, 0, SEQ_JUMP, COND_Z, (JNE_ADDR + 2) as u16))
    } else if a == JNE_ADDR + 1 {
        Some((BUS_OUT_CR, BUS_IN_IP, 0, 0, 0, SEQ_JUMP, COND_UNCOND, FETCH))
    } else if a == JNE_ADDR + 2 {
        Some((0, 0, 0, 0, 0, SEQ_JUMP, COND_UNCOND, FETCH))
    } else if a == JLT_ADDR {
        Some((0, 0, 0, 0, 0, SEQ_JUMP, COND_N, (JLT_ADDR + 2) as u16))
    } else if a == JLT_ADDR + 1 {
        Some((0, 0, 0, 0, 0, SEQ_JUMP, COND_UNCOND, FETCH))
    } else if a == JLT_ADDR + 2 {
        Some((BUS_OUT_CR, BUS_IN_IP, 0, 0, 0, SEQ_JUMP, COND_UNCOND, FETCH))
    } else if a == JGE_ADDR {
        Some((0, 0, 0, 0, 0, SEQ_JUMP, COND_N, (JGE_ADDR + 2) as u16))
    } else if a == JGE_ADDR + 1 {
        Some((BUS_OUT_CR, BUS_IN_IP, 0, 0, 0, SEQ_JUMP, COND_UNCOND, FETCH))
    } else if a == JGE_ADDR + 2 {
        Some((0, 0, 0, 0, 0, SEQ_JUMP, COND_UNCOND, FETCH))
    } else if a == JCS_ADDR {
        Some((0, 0, 0, 0, 0, SEQ_JUMP, COND_C, (JCS_ADDR + 2) as u16))
    } else if a == JCS_ADDR + 1 {
        Some((0, 0, 0, 0, 0, SEQ_JUMP, COND_UNCOND, FETCH))
    } else if a == JCS_ADDR + 2 {
        Some((BUS_OUT_CR, BUS_IN_IP, 0, 0, 0, SEQ_JUMP, COND_UNCOND, FETCH))
    } else if a == JCC_ADDR {
        Some((0, 0, 0, 0, 0, SEQ_JUMP, COND_C, (JCC_ADDR + 2) as u16))
    } else if a == JCC_ADDR + 1 {
        Some((BUS_OUT_CR, BUS_IN_IP, 0, 0, 0, SEQ_JUMP, COND_UNCOND, FETCH))
    } else if a == JCC_ADDR + 2 {
        Some((0, 0, 0, 0, 0, SEQ_JUMP, COND_UNCOND, FETCH))
    } else if a == JVS_ADDR {
        Some((0, 0, 0, 0, 0, SEQ_JUMP, COND_V, (JVS_ADDR + 2) as u16))
    } else if a == JVS_ADDR + 1 {
        Some((0, 0, 0, 0, 0, SEQ_JUMP, COND_UNCOND, FETCH))
    } else if a == JVS_ADDR + 2 {
        Some((BUS_OUT_CR, BUS_IN_IP, 0, 0, 0, SEQ_JUMP, COND_UNCOND, FETCH))
    } else if a == JVC_ADDR {
        Some((0, 0, 0, 0, 0, SEQ_JUMP, COND_V, (JVC_ADDR + 2) as u16))
    } else if a == JVC_ADDR + 1 {
        Some((BUS_OUT_CR, BUS_IN_IP, 0, 0, 0, SEQ_JUMP, COND_UNCOND, FETCH))
    } else if a == JVC_ADDR + 2 {
        Some((0, 0, 0, 0, 0, SEQ_JUMP, COND_UNCOND, FETCH))
    } else if a == CALL_ADDR {
        Some((BUS_OUT_IP, BUS_IN_DR, CNT_SP_DEC, 0, 0, SEQ_NEXT, 0, 0))
    } else if a == CALL_ADDR + 1 {
        Some((BUS_OUT_SP, BUS_IN_AR, 0, MEM_WRITE | MEM_WAIT, 0, SEQ_NEXT, 0, 0))
    } else if a == CALL_ADDR + 2 {
        Some((BUS_OUT_CR, BUS_IN_IP, 0, 0, 0, SEQ_JUMP, COND_UNCOND, FETCH))
    } else if a == NOP_ADDR {
        Some((0, 0, 0, 0, 0, SEQ_JUMP, COND_UNCOND, FETCH))
    } else if a == HLT_ADDR {
        Some((0, 0, 0, 0, 0, SEQ_JUMP, COND_UNCOND, HLT_ADDR))
    } else if a == CLA_ADDR {
        Some((BUS_OUT_AC, 0, 0, 0, ALU_SUB, SEQ_NEXT, 0, 0))
    } else if a == CLA_ADDR + 1 {
        Some((BUS_OUT_ALU, BUS_IN_AC | BUS_IN_PS, 0, 0, 0, SEQ_JUMP, COND_UNCOND, FETCH))
    } else if a == CMA_ADDR {
        Some((0, BUS_IN_AC, 0, 0, ALU_INV, SEQ_NEXT, 0, 0))
    } else if a == CMA_ADDR + 1 {
        Some((0, BUS_IN_AC | BUS_IN_PS, 0, 0, ALU_DEC, SEQ_JUMP, COND_UNCOND, FETCH))
    } else if a == INV_ADDR {
        Some((0, BUS_IN_AC | BUS_IN_PS, 0, 0, ALU_INV, SEQ_JUMP, COND_UNCOND, FETCH))
    } else if a == INC_ADDR {
        Some((0, BUS_IN_AC | BUS_IN_PS, 0, 0, ALU_INC, SEQ_JUMP, COND_UNCOND, FETCH))
    } else if a == DEC_ADDR {
        Some((0, BUS_IN_AC | BUS_IN_PS, 0, 0, ALU_DEC, SEQ_JUMP, COND_UNCOND, FETCH))
    } else if a == ABS_ADDR {
        Some((0, BUS_IN_AC | BUS_IN_PS, 0, 0, ALU_ABS, SEQ_JUMP, COND_UNCOND, FETCH))
    } else if a == EXT8_ADDR {
        Some((0, BUS_IN_AC | BUS_IN_PS, 0, 0, ALU_EXT8, SEQ_JUMP, COND_UNCOND, FETCH))
    } else if a == EXT16_ADDR {
        Some((0, BUS_IN_AC | BUS_IN_PS, 0, 0, ALU_EXT16, SEQ_JUMP, COND_UNCOND, FETCH))
    } else if a == PUSH_ADDR {
        Some((BUS_OUT_AC, BUS_IN_DR, CNT_SP_DEC, 0, 0, SEQ_NEXT, 0, 0))
    } else if a == PUSH_ADDR + 1 {
        Some((BUS_OUT_SP, BUS_IN_AR, 0, MEM_WRITE | MEM_WAIT, 0, SEQ_JUMP, COND_UNCOND, FETCH))
    } else if a == POP_ADDR {
        Some((BUS_OUT_SP, BUS_IN_AR, CNT_SP_INC, MEM_READ | MEM_WAIT, 0, SEQ_NEXT, 0, 0))
    } else if a == POP_ADDR + 1 {
        Some((BUS_OUT_DR, BUS_IN_AC, 0, 0, 0, SEQ_JUMP, COND_UNCOND, FETCH))
    } else if a == RET_ADDR {
        Some((BUS_OUT_SP, BUS_IN_AR, CNT_SP_INC, MEM_READ | MEM_WAIT, 0, SEQ_NEXT, 0, 0))
    } else if a == RET_ADDR + 1 {
        Some((BUS_OUT_DR, BUS_IN_IP, 0, 0, 0, SEQ_JUMP, COND_UNCOND, FETCH))
    } else if a == LD_DISPATCH {
        Some((0, 0, 0, 0, 0, SEQ_JUMP, COND_MODE1, LD_IMM))
    } else if a == LD_DISPATCH + 1 {
        Some((0, 0, 0, 0, 0, SEQ_JUMP, COND_MODE2, LD_DIR))
    } else if a == LD_DISPATCH + 2 {
        Some((0, 0, 0, 0, 0, SEQ_JUMP, COND_MODE4, LD_AINC))
    } else if a == LD_DISPATCH + 3 {
        Some((0, 0, 0, 0, 0, SEQ_JUMP, COND_MODE5, LD_ADEC))
    } else if a == LD_DISPATCH + 4 {
        Some((0, 0, 0, 0, 0, SEQ_JUMP, COND_UNCOND, FETCH))
    } else if a == ST_DISPATCH {
        Some((0, 0, 0, 0, 0, SEQ_JUMP, COND_MODE2, ST_DIR))
    } else if a == ST_DISPATCH + 1 {
        Some((0, 0, 0, 0, 0, SEQ_JUMP, COND_MODE4, ST_AINC))
    } else if a == ST_DISPATCH + 2 {
        Some((0, 0, 0, 0, 0, SEQ_JUMP, COND_MODE5, ST_ADEC))
    } else if a == ST_DISPATCH + 3 {
        Some((0, 0, 0, 0, 0, SEQ_JUMP, COND_UNCOND, FETCH))
    } else if a == ADD_DISPATCH {
        Some((0, 0, 0, 0, 0, SEQ_JUMP, COND_MODE1, ADD_IMM))
    } else if a == ADD_DISPATCH + 1 {
        Some((0, 0, 0, 0, 0, SEQ_JUMP, COND_MODE2, ADD_DIR))
    } else if a == ADD_DISPATCH + 2 {
        Some((0, 0, 0, 0, 0, SEQ_JUMP, COND_UNCOND, FETCH))
    } else if a == ADC_DISPATCH {
        Some((0, 0, 0, 0, 0, SEQ_JUMP, COND_MODE1, ADC_IMM))
    } else if a == ADC_DISPATCH + 1 {
        Some((0, 0, 0, 0, 0, SEQ_JUMP, COND_MODE2, ADC_DIR))
    } else if a == ADC_DISPATCH + 2 {
        Some((0, 0, 0, 0, 0, SEQ_JUMP, COND_UNCOND, FETCH))
    } else if a == SUB_DISPATCH {
        Some((0, 0, 0, 0, 0, SEQ_JUMP, COND_MODE1, SUB_IMM))
    } else if a == SUB_DISPATCH + 1 {
        Some((0, 0, 0, 0, 0, SEQ_JUMP, COND_MODE2, SUB_DIR))
    } else if a == SUB_DISPATCH + 2 {
        Some((0, 0, 0, 0, 0, SEQ_JUMP, COND_UNCOND, FETCH))
    } else if a == MUL_DISPATCH {
        Some((0, 0, 0, 0, 0, SEQ_JUMP, COND_MODE1, MUL_IMM))
    } else if a == MUL_DISPATCH + 1 {
        Some((0, 0, 0, 0, 0, SEQ_JUMP, COND_MODE2, MUL_DIR))
    } else if a == MUL_DISPATCH + 2 {
        Some((0, 0, 0, 0, 0, SEQ_JUMP, COND_UNCOND, FETCH))
    } else if a == DIV_DISPATCH {
        Some((0, 0, 0, 0, 0, SEQ_JUMP, COND_MODE1, DIV_IMM))
    } else if a == DIV_DISPATCH + 1 {
        Some((0, 0, 0, 0, 0, SEQ_JUMP, COND_MODE2, DIV_DIR))
    } else if a == DIV_DISPATCH + 2 {
        Some((0, 0, 0, 0, 0, SEQ_JUMP, COND_UNCOND, FETCH))
    } else if a == MOD_DISPATCH {
        Some((0, 0, 0, 0, 0, SEQ_JUMP, COND_MODE1, MOD_IMM))
    } else if a == MOD_DISPATCH + 1 {
        Some((0, 0, 0, 0, 0, SEQ_JUMP, COND_MODE2, MOD_DIR))
    } else if a == MOD_DISPATCH + 2 {
        Some((0, 0, 0, 0, 0, SEQ_JUMP, COND_UNCOND, FETCH))
    } else if a == CMP_DISPATCH {
        Some((0, 0, 0, 0, 0, SEQ_JUMP, COND_MODE1, CMP_IMM))
    } else if a == CMP_DISPATCH + 1 {
        Some((0, 0, 0, 0, 0, SEQ_JUMP, COND_MODE2, CMP_DIR))
    } else if a == CMP_DISPATCH + 2 {
        Some((0, 0, 0, 0, 0, SEQ_JUMP, COND_UNCOND, FETCH))
    } else if a == AND_DISPATCH {
        Some((0, 0, 0, 0, 0, SEQ_JUMP, COND_MODE1, AND_IMM))
    } else if a == AND_DISPATCH + 1 {
        Some((0, 0, 0, 0, 0, SEQ_JUMP, COND_MODE2, AND_DIR))
    } else if a == AND_DISPATCH + 2 {
        Some((0, 0, 0, 0, 0, SEQ_JUMP, COND_UNCOND, FETCH))
    } else if a == OR_DISPATCH {
        Some((0, 0, 0, 0, 0, SEQ_JUMP, COND_MODE1, OR_IMM))
    } else if a == OR_DISPATCH + 1 {
        Some((0, 0, 0, 0, 0, SEQ_JUMP, COND_MODE2, OR_DIR))
    } else if a == OR_DISPATCH + 2 {
        Some((0, 0, 0, 0, 0, SEQ_JUMP, COND_UNCOND, FETCH))
    } else if a == XOR_DISPATCH {
        Some((0, 0, 0, 0, 0, SEQ_JUMP, COND_MODE1, XOR_IMM))
    } else if a == XOR_DISPATCH + 1 {
        Some((0, 0, 0, 0, 0, SEQ_JUMP, COND_MODE2, XOR_DIR))
    } else if a == XOR_DISPATCH + 2 {
        Some((0, 0, 0, 0, 0, SEQ_JUMP, COND_UNCOND, FETCH))
    } else if a == LD_IMM {
        Some((BUS_OUT_CR, BUS_IN_DR, 0, 0, 0, SEQ_NEXT, 0, 0))
    } else if a == LD_IMM + 1 {
        Some((BUS_OUT_DR, BUS_IN_AC, 0, 0, 0, SEQ_JUMP, COND_UNCOND, FETCH))
    } else if a == LD_DIR {
        Some((BUS_OUT_CR, BUS_IN_AR, 0, 0, 0, SEQ_NEXT, 0, 0))
    } else if a == LD_DIR + 1 {
        Some((0, 0, 0, MEM_READ | MEM_WAIT, 0, SEQ_NEXT, 0, 0))
    } else if a == LD_DIR + 2 {
        Some((BUS_OUT_DR, BUS_IN_AC, 0, 0, 0, SEQ_JUMP, COND_UNCOND, FETCH))
    } else if a == LD_AINC {
        Some((BUS_OUT_CR, BUS_IN_AR, 0, 0, 0, SEQ_NEXT, 0, 0))
    } else if a == LD_AINC + 1 {
        Some((0, 0, 0, MEM_READ | MEM_WAIT, 0, SEQ_NEXT, 0, 0))
    } else if a == LD_AINC + 2 {
        Some((BUS_OUT_DR, BUS_IN_AC, 0, 0, 0, SEQ_NEXT, 0, 0))
    } else if a == LD_AINC + 3 {
        Some((BUS_OUT_AC, BUS_IN_DR, 0, 0, ALU_INC, SEQ_NEXT, 0, 0))
    } else if a == LD_AINC + 4 {
        Some((0, 0, 0, MEM_WRITE | MEM_WAIT, 0, SEQ_NEXT, 0, 0))
    } else if a == LD_AINC + 5 {
        Some((BUS_OUT_AC, BUS_IN_AR, 0, 0, 0, SEQ_NEXT, 0, 0))
    } else if a == LD_AINC + 6 {
        Some((0, 0, 0, MEM_READ | MEM_WAIT, 0, SEQ_NEXT, 0, 0))
    } else if a == LD_AINC + 7 {
        Some((BUS_OUT_DR, BUS_IN_AC, 0, 0, 0, SEQ_JUMP, COND_UNCOND, FETCH))
    } else if a == LD_ADEC {
        Some((BUS_OUT_CR, BUS_IN_AR, 0, 0, 0, SEQ_NEXT, 0, 0))
    } else if a == LD_ADEC + 1 {
        Some((0, 0, 0, MEM_READ | MEM_WAIT, 0, SEQ_NEXT, 0, 0))
    } else if a == LD_ADEC + 2 {
        Some((BUS_OUT_DR, BUS_IN_AC, 0, 0, 0, SEQ_NEXT, 0, 0))
    } else if a == LD_ADEC + 3 {
        Some((BUS_OUT_AC, BUS_IN_DR, 0, 0, ALU_DEC, SEQ_NEXT, 0, 0))
    } else if a == LD_ADEC + 4 {
        Some((0, 0, 0, MEM_WRITE | MEM_WAIT, 0, SEQ_NEXT, 0, 0))
    } else if a == LD_ADEC + 5 {
        Some((BUS_OUT_DR, BUS_IN_AR, 0, 0, 0, SEQ_NEXT, 0, 0))
    } else if a == LD_ADEC + 6 {
        Some((0, 0, 0, MEM_READ | MEM_WAIT, 0, SEQ_NEXT, 0, 0))
    } else if a == LD_ADEC + 7 {
        Some((BUS_OUT_DR, BUS_IN_AC, 0, 0, 0, SEQ_JUMP, COND_UNCOND, FETCH))
    } else if a == ST_DIR {
        Some((BUS_OUT_CR, BUS_IN_AR, 0, 0, 0, SEQ_NEXT, 0, 0))
    } else if a == ST_DIR + 1 {
        Some((BUS_OUT_AC, BUS_IN_DR, 0, 0, 0, SEQ_NEXT, 0, 0))
    } else if a == ST_DIR + 2 {
        Some((0, 0, 0, MEM_WRITE | MEM_WAIT, 0, SEQ_JUMP, COND_UNCOND, FETCH))
    } else if a == ST_AINC {
        Some((BUS_OUT_CR, BUS_IN_AR, 0, 0, 0, SEQ_NEXT, 0, 0))
    } else if a == ST_AINC + 1 {
        Some((0, 0, 0, MEM_READ | MEM_WAIT, 0, SEQ_NEXT, 0, 0))
    } else if a == ST_AINC + 2 {
        Some((BUS_OUT_DR, BUS_IN_AR, 0, 0, 0, SEQ_NEXT, 0, 0))
    } else if a == ST_AINC + 3 {
        Some((BUS_OUT_AC, BUS_IN_DR, 0, 0, 0, SEQ_NEXT, 0, 0))
    } else if a == ST_AINC + 4 {
        Some((0, 0, 0, MEM_WRITE | MEM_WAIT, 0, SEQ_NEXT, 0, 0))
    } else if a == ST_AINC + 5 {
        Some((BUS_OUT_CR, BUS_IN_AR, 0, 0, 0, SEQ_NEXT, 0, 0))
    } else if a == ST_AINC + 6 {
        Some((0, 0, 0, MEM_READ | MEM_WAIT, 0, SEQ_NEXT, 0, 0))
    } else if a == ST_AINC + 7 {
        Some((BUS_OUT_DR, BUS_IN_AC, 0, 0, 0, SEQ_NEXT, 0, 0))
    } else if a == ST_AINC + 8 {
        Some((BUS_OUT_AC, BUS_IN_DR, 0, 0, ALU_INC, SEQ_NEXT, 0, 0))
    } else if a == ST_AINC + 9 {
        Some((0, 0, 0, MEM_WRITE | MEM_WAIT, 0, SEQ_JUMP, COND_UNCOND, FETCH))
    } else if a == ST_ADEC {
        Some((BUS_OUT_CR, BUS_IN_AR, 0, 0, 0, SEQ_NEXT, 0, 0))
    } else if a == ST_ADEC + 1 {
        Some((0, 0, 0, MEM_READ | MEM_WAIT, 0, SEQ_NEXT, 0, 0))
    } else if a == ST_ADEC + 2 {
        Some((BUS_OUT_DR, BUS_IN_AR, 0, 0, 0, SEQ_NEXT, 0, 0))
    } else if a == ST_ADEC + 3 {
        Some((BUS_OUT_AC, BUS_IN_DR, 0, 0, 0, SEQ_NEXT, 0, 0))
    } else if a == ST_ADEC + 4 {
        Some((0, 0, 0, MEM_WRITE | MEM_WAIT, 0, SEQ_NEXT, 0, 0))
    } else if a == ST_ADEC + 5 {
        Some((BUS_OUT_CR, BUS_IN_AR, 0, 0, 0, SEQ_NEXT, 0, 0))
    } else if a == ST_ADEC + 6 {
        Some((0, 0, 0, MEM_READ | MEM_WAIT, 0, SEQ_NEXT, 0, 0))
    } else if a == ST_ADEC + 7 {
        Some((BUS_OUT_DR, BUS_IN_AC, 0, 0, 0, SEQ_NEXT, 0, 0))
    } else if a == ST_ADEC + 8 {
        Some((BUS_OUT_AC, BUS_IN_DR, 0, 0, ALU_DEC, SEQ_NEXT, 0, 0))
    } else if a == ST_ADEC + 9 {
        Some((0, 0, 0, MEM_WRITE | MEM_WAIT, 0, SEQ_JUMP, COND_UNCOND, FETCH))
    } else if a == ADD_IMM {
        Some((BUS_OUT_CR, 0, 0, 0, ALU_ADD, SEQ_NEXT, 0, 0))
    } else if a == ADD_IMM + 1 {
        Some((BUS_OUT_ALU, BUS_IN_AC | BUS_IN_PS, 0, 0, 0, SEQ_JUMP, COND_UNCOND, FETCH))
    } else if a == ADD_DIR {
        Some((BUS_OUT_CR, BUS_IN_AR, 0, 0, 0, SEQ_NEXT, 0, 0))
    } else if a == ADD_DIR + 1 {
        Some((0, 0, 0, MEM_READ | MEM_WAIT, 0, SEQ_NEXT, 0, 0))
    } else if a == ADD_DIR + 2 {
        Some((BUS_OUT_DR, 0, 0, 0, ALU_ADD, SEQ_NEXT, 0, 0))
    } else if a == ADD_DIR + 3 {
        Some((BUS_OUT_ALU, BUS_IN_AC | BUS_IN_PS, 0, 0, 0, SEQ_JUMP, COND_UNCOND, FETCH))
    } else if a == ADC_IMM {
        Some((BUS_OUT_CR, 0, 0, 0, ALU_ADC, SEQ_NEXT, 0, 0))
    } else if a == ADC_IMM + 1 {
        Some((BUS_OUT_ALU, BUS_IN_AC | BUS_IN_PS, 0, 0, 0, SEQ_JUMP, COND_UNCOND, FETCH))
    } else if a == ADC_DIR {
        Some((BUS_OUT_CR, BUS_IN_AR, 0, 0, 0, SEQ_NEXT, 0, 0))
    } else if a == ADC_DIR + 1 {
        Some((0, 0, 0, MEM_READ | MEM_WAIT, 0, SEQ_NEXT, 0, 0))
    } else if a == ADC_DIR + 2 {
        Some((BUS_OUT_DR, 0, 0, 0, ALU_ADC, SEQ_NEXT, 0, 0))
    } else if a == ADC_DIR + 3 {
        Some((BUS_OUT_ALU, BUS_IN_AC | BUS_IN_PS, 0, 0, 0, SEQ_JUMP, COND_UNCOND, FETCH))
    } else if a == SUB_IMM {
        Some((BUS_OUT_CR, 0, 0, 0, ALU_SUB, SEQ_NEXT, 0, 0))
    } else if a == SUB_IMM + 1 {
        Some((BUS_OUT_ALU, BUS_IN_AC | BUS_IN_PS, 0, 0, 0, SEQ_JUMP, COND_UNCOND, FETCH))
    } else if a == SUB_DIR {
        Some((BUS_OUT_CR, BUS_IN_AR, 0, 0, 0, SEQ_NEXT, 0, 0))
    } else if a == SUB_DIR + 1 {
        Some((0, 0, 0, MEM_READ | MEM_WAIT, 0, SEQ_NEXT, 0, 0))
    } else if a == SUB_DIR + 2 {
        Some((BUS_OUT_DR, 0, 0, 0, ALU_SUB, SEQ_NEXT, 0, 0))
    } else if a == SUB_DIR + 3 {
        Some((BUS_OUT_ALU, BUS_IN_AC | BUS_IN_PS, 0, 0, 0, SEQ_JUMP, COND_UNCOND, FETCH))
    } else if a == MUL_IMM {
        Some((BUS_OUT_CR, 0, 0, 0, ALU_MUL, SEQ_NEXT, 0, 0))
    } else if a == MUL_IMM + 1 {
        Some((BUS_OUT_ALU, BUS_IN_AC | BUS_IN_PS, 0, 0, 0, SEQ_JUMP, COND_UNCOND, FETCH))
    } else if a == MUL_DIR {
        Some((BUS_OUT_CR, BUS_IN_AR, 0, 0, 0, SEQ_NEXT, 0, 0))
    } else if a == MUL_DIR + 1 {
        Some((0, 0, 0, MEM_READ | MEM_WAIT, 0, SEQ_NEXT, 0, 0))
    } else if a == MUL_DIR + 2 {
        Some((BUS_OUT_DR, 0, 0, 0, ALU_MUL, SEQ_NEXT, 0, 0))
    } else if a == MUL_DIR + 3 {
        Some((BUS_OUT_ALU, BUS_IN_AC | BUS_IN_PS, 0, 0, 0, SEQ_JUMP, COND_UNCOND, FETCH))
    } else if a == DIV_IMM {
        Some((BUS_OUT_CR, 0, 0, 0, ALU_DIV, SEQ_NEXT, 0, 0))
    } else if a == DIV_IMM + 1 {
        Some((BUS_OUT_ALU, BUS_IN_AC | BUS_IN_PS, 0, 0, 0, SEQ_JUMP, COND_UNCOND, FETCH))
    } else if a == DIV_DIR {
        Some((BUS_OUT_CR, BUS_IN_AR, 0, 0, 0, SEQ_NEXT, 0, 0))
    } else if a == DIV_DIR + 1 {
        Some((0, 0, 0, MEM_READ | MEM_WAIT, 0, SEQ_NEXT, 0, 0))
    } else if a == DIV_DIR + 2 {
        Some((BUS_OUT_DR, 0, 0, 0, ALU_DIV, SEQ_NEXT, 0, 0))
    } else if a == DIV_DIR + 3 {
        Some((BUS_OUT_ALU, BUS_IN_AC | BUS_IN_PS, 0, 0, 0, SEQ_JUMP, COND_UNCOND, FETCH))
    } else if a == MOD_IMM {
        Some((BUS_OUT_CR, 0, 0, 0, ALU_MOD, SEQ_NEXT, 0, 0))
    } else if a == MOD_IMM + 1 {
        Some((BUS_OUT_ALU, BUS_IN_AC | BUS_IN_PS, 0, 0, 0, SEQ_JUMP, COND_UNCOND, FETCH))
    } else if a == MOD_DIR {
        Some((BUS_OUT_CR, BUS_IN_AR, 0, 0, 0, SEQ_NEXT, 0, 0))
    } else if a == MOD_DIR + 1 {
        Some((0, 0, 0, MEM_READ | MEM_WAIT, 0, SEQ_NEXT, 0, 0))
    } else if a == MOD_DIR + 2 {
        Some((BUS_OUT_DR, 0, 0, 0, ALU_MOD, SEQ_NEXT, 0, 0))
    } else if a == MOD_DIR + 3 {
        Some((BUS_OUT_ALU, BUS_IN_AC | BUS_IN_PS, 0, 0, 0, SEQ_JUMP, COND_UNCOND, FETCH))
    } else if a == AND_IMM {
        Some((BUS_OUT_CR, 0, 0, 0, ALU_AND, SEQ_NEXT, 0, 0))
    } else if a == AND_IMM + 1 {
        Some((BUS_OUT_ALU, BUS_IN_AC | BUS_IN_PS, 0, 0, 0, SEQ_JUMP, COND_UNCOND, FETCH))
    } else if a == AND_DIR {
        Some((BUS_OUT_CR, BUS_IN_AR, 0, 0, 0, SEQ_NEXT, 0, 0))
    } else if a == AND_DIR + 1 {
        Some((0, 0, 0, MEM_READ | MEM_WAIT, 0, SEQ_NEXT, 0, 0))
    } else if a == AND_DIR + 2 {
        Some((BUS_OUT_DR, 0, 0, 0, ALU_AND, SEQ_NEXT, 0, 0))
    } else if a == AND_DIR + 3 {
        Some((BUS_OUT_ALU, BUS_IN_AC | BUS_IN_PS, 0, 0, 0, SEQ_JUMP, COND_UNCOND, FETCH))
    } else if a == OR_IMM {
        Some((BUS_OUT_CR, 0, 0, 0, ALU_OR, SEQ_NEXT, 0, 0))
    } else if a == OR_IMM + 1 {
        Some((BUS_OUT_ALU, BUS_IN_AC | BUS_IN_PS, 0, 0, 0, SEQ_JUMP, COND_UNCOND, FETCH))
    } else if a == OR_DIR {
        Some((BUS_OUT_CR, BUS_IN_AR, 0, 0, 0, SEQ_NEXT, 0, 0))
    } else if a == OR_DIR + 1 {
        Some((0, 0, 0, MEM_READ | MEM_WAIT, 0, SEQ_NEXT, 0, 0))
    } else if a == OR_DIR + 2 {
        Some((BUS_OUT_DR, 0, 0, 0, ALU_OR, SEQ_NEXT, 0, 0))
    } else if a == OR_DIR + 3 {
        Some((BUS_OUT_ALU, BUS_IN_AC | BUS_IN_PS, 0, 0, 0, SEQ_JUMP, COND_UNCOND, FETCH))
    } else if a == XOR_IMM {
        Some((BUS_OUT_CR, 0, 0, 0, ALU_XOR, SEQ_NEXT, 0, 0))
    } else if a == XOR_IMM + 1 {
        Some((BUS_OUT_ALU, BUS_IN_AC | BUS_IN_PS, 0, 0, 0, SEQ_JUMP, COND_UNCOND, FETCH))
    } else if a == XOR_DIR {
        Some((BUS_OUT_CR, BUS_IN_AR, 0, 0, 0, SEQ_NEXT, 0, 0))
    } else if a == XOR_DIR + 1 {
        Some((0, 0, 0, MEM_READ | MEM_WAIT, 0, SEQ_NEXT, 0, 0))
    } else if a == XOR_DIR + 2 {
        Some((BUS_OUT_DR, 0, 0, 0, ALU_XOR, SEQ_NEXT, 0, 0))
    } else if a == XOR_DIR + 3 {
        Some((BUS_OUT_ALU, BUS_IN_AC | BUS_IN_PS, 0, 0, 0, SEQ_JUMP, COND_UNCOND, FETCH))
    } else if a == CMP_IMM {
        Some((BUS_OUT_CR, 0, 0, 0, ALU_CMP, SEQ_NEXT, 0, 0))
    } else if a == CMP_IMM + 1 {
        Some((BUS_OUT_ALU, BUS_IN_PS, 0, 0, 0, SEQ_JUMP, COND_UNCOND, FETCH))
    } else if a == CMP_DIR {
        Some((BUS_OUT_CR, BUS_IN_AR, 0, 0, 0, SEQ_NEXT, 0, 0))
    } else if a == CMP_DIR + 1 {
        Some((0, 0, 0, MEM_READ | MEM_WAIT, 0, SEQ_NEXT, 0, 0))
    } else if a == CMP_DIR + 2 {
        Some((BUS_OUT_DR, 0, 0, 0, ALU_CMP, SEQ_NEXT, 0, 0))
    } else if a == CMP_DIR + 3 {
        Some((BUS_OUT_ALU, BUS_IN_PS, 0, 0, 0, SEQ_JUMP, COND_UNCOND, FETCH))
    } else {
        None
    }
}

/// The control word stored at each address that the control unit sets.
pub open spec fn microcode_entry(a: int) -> Option<u64> {
    match microcode_fields(a) {
        Some(f) => Some(spec_micro(f.0, f.1, f.2, f.3, f.4, f.5, f.6, f.7)),
        None => None,
    }
}

/// The opcode mapping ROM: the first control-word address of each opcode
/// that has one (every other opcode maps to 0, the fetch sequence).
pub open spec fn mapping_entry(op: int) -> Option<u16> {
    if op == 0x00 {
        Some(NOP_ADDR)
    } else if op == 0x01 {
        Some(HLT_ADDR)
    } else if op == 0x02 {
        Some(CLA_ADDR)
    } else if op == 0x03 {
        Some(CMA_ADDR)
    } else if op == 0x04 {
        Some(INV_ADDR)
    } else if op == 0x05 {
        Some(INC_ADDR)
    } else if op == 0x06 {
        Some(DEC_ADDR)
    } else if op == 0x07 {
        Some(ABS_ADDR)
    } else if op == 0x08 {
        Some(PUSH_ADDR)
    } else if op == 0x09 {
        Some(POP_ADDR)
    } else if op == 0x0A {
        Some(RET_ADDR)
    } else if op == 0x0B {
        Some(EXT8_ADDR)
    } else if op == 0x0C {
        Some(EXT16_ADDR)
    } else if op == 0x10 {
        Some(LD_DISPATCH)
    } else if op == 0x11 {
        Some(ST_DISPATCH)
    } else if op == 0x20 {
        Some(ADD_DISPATCH)
    } else if op == 0x21 {
        Some(ADC_DISPATCH)
    } else if op == 0x22 {
        Some(SUB_DISPATCH)
    } else if op == 0x23 {
        Some(MUL_DISPATCH)
    } else if op == 0x24 {
        Some(DIV_DISPATCH)
    } else if op == 0x25 {
        Some(MOD_DISPATCH)
    } else if op == 0x26 {
        Some(CMP_DISPATCH)
    } else if op == 0x27 {
        Some(AND_DISPATCH)
    } else if op == 0x28 {
        Some(OR_DISPATCH)
    } else if op == 0x29 {
        Some(XOR_DISPATCH)
    } else if op == 0x30 {
        Some(JMP_ADDR)
    } else if op == 0x31 {
        Some(JEQ_ADDR)
    } else if op == 0x32 {
        Some(JNE_ADDR)
    } else if op == 0x33 {
        Some(JLT_ADDR)
    } else if op == 0x34 {
        Some(JGE_ADDR)
    } else if op == 0x35 {
        Some(JCS_ADDR)
    } else if op == 0x36 {
        Some(JCC_ADDR)
    } else if op == 0x37 {
        Some(JVS_ADDR)
    } else if op == 0x38 {
        Some(JVC_ADDR)
    } else if op == 0x39 {
        Some(CALL_ADDR)
    } else {
        None
    }
}

/// The microprogram word at address `a` of the control unit as built.
pub open spec fn microcode_word(a: int) -> u64 {
    match microcode_entry(a) {
        Some(w) => w,
        None => 0,
    }
}

/// The mapping ROM entry for opcode `op` of the control unit as built.
pub open spec fn mapping_word(op: int) -> u16 {
    match mapping_entry(op) {
        Some(a) => a,
        None => 0,
    }
}

pub struct MicroProcessor {
    pub microcode: [u64; 2048],
    pub mapping_rom: [u16; 256],
    pub mpc: u16,
}

/// Whether the sequencer condition `seq_cond` holds: always, a status flag,
/// or an addressing mode (conditions 8 to 13 test whether the mode field of
/// the instruction, bits 21..23, is the condition minus 8).
pub open spec fn condition_holds(ps: ProcessorStatus, cr: u32, seq_cond: u8) -> bool {
    if seq_cond == COND_UNCOND {
        true
    } else if seq_cond == COND_Z {
        ps.z
    } else if seq_cond == COND_N {
        ps.n
    } else if seq_cond == COND_C {
        ps.c
    } else if seq_cond == COND_V {
        ps.v
    } else if seq_cond == COND_INP {
        ps.inp
    } else if 0x08 <= seq_cond <= 0x0D {
        ((cr >> 21u32) & 0x7u32) == (seq_cond - 0x08) as u32
    } else {
        false
    }
}

/// The next microprogram address after `mpc`, whose control word is
/// `word`: the next one, the jump target if the condition holds, or the
/// mapping ROM entry of the opcode in bits 24..31 of the instruction.
pub open spec fn next_address(
    mpc: u16,
    word: u64,
    mapping: Seq<u16>,
    cr: u32,
    ps: ProcessorStatus,
) -> u16 {
    let m = decode_word(word);
    if m.seq_ctrl == SEQ_JUMP {
        if condition_holds(ps, cr, m.seq_cond) {
            m.next_addr
        } else {
            mpc.wrapping_add(1)
        }
    } else if m.seq_ctrl == SEQ_MAP {
        mapping[((cr >> 24u32) & 0xFFu32) as int]
    } else {
        mpc.wrapping_add(1)
    }
}

impl MicroProcessor {
    /// The control unit with its microprogram and mapping ROM, at address 0.
    pub fn new() -> (mp: MicroProcessor)
        ensures
            forall|a: int| 0 <= a < 2048 ==> #[trigger] mp.microcode@[a] == microcode_word(a),
            forall|op: int| 0 <= op < 256 ==> #[trigger] mp.mapping_rom@[op] == mapping_word(op),
            mp.mpc == 0,
    {
        let mut mp = MicroProcessor { microcode: [0; 2048], mapping_rom: [0; 256], mpc: 0 };
        mp.init_mapping_rom();
        mp.init_microcode();
        mp
    }

    /// Whether the sequencer condition holds.
    pub fn check_condition(ps: &ProcessorStatus, cr: u32, seq_cond: u8) -> (r: bool)
        ensures
            r == condition_holds(*ps, cr, seq_cond),
    {
        match seq_cond {
            COND_UNCOND => true,
            COND_Z => ps.z,
            COND_N => ps.n,
            COND_C => ps.c,
            COND_V => ps.v,
            COND_INP => ps.inp,
            0x08..=0x0D => ((cr >> 21) & 0x7) == (seq_cond - 0x08) as u32,
            _ => false,
        }
    }

    /// Moves to the next microprogram address.
    pub fn next_mpc(&mut self, cr: u32, ps: &ProcessorStatus)
        requires
            old(self).mpc < 2048,
        ensures
            final(self).microcode == old(self).microcode,
            final(self).mapping_rom == old(self).mapping_rom,
            final(self).mpc == next_address(
                old(self).mpc,
                old(self).microcode@[old(self).mpc as int],
                old(self).mapping_rom@,
                cr,
                *ps,
            ),
    {
        let word = self.microcode[self.mpc as usize];
        let micro_instruction = MicroInstruction::from(word);
        match micro_instruction.seq_ctrl {
            SEQ_NEXT => self.mpc = self.mpc.wrapping_add(1),
            SEQ_JUMP => {
                if Self::check_condition(ps, cr, micro_instruction.seq_cond) {
                    self.mpc = micro_instruction.next_addr;
                } else {
                    self.mpc = self.mpc.wrapping_add(1);
                }
            },
            SEQ_MAP => {
                let opcode = ((cr >> 24) & 0xFF) as usize;
                proof {
                    assert((cr >> 24u32) & 0xFFu32 < 256) by (bit_vector);
                }
                self.mpc = self.mapping_rom[opcode];
            },
            _ => self.mpc = self.mpc.wrapping_add(1),
        }
    }

    fn mapping_entry(op: usize) -> (r: Option<u16>)
        ensures
            r == mapping_entry(op as int),
    {
        if op == 0x00 {
            Some(NOP_ADDR)
        } else if op == 0x01 {
            Some(HLT_ADDR)
        } else if op == 0x02 {
            Some(CLA_ADDR)
        } else if op == 0x03 {
            Some(CMA_ADDR)
        } else if op == 0x04 {
            Some(INV_ADDR)
        } else if op == 0x05 {
            Some(INC_ADDR)
        } else if op == 0x06 {
            Some(DEC_ADDR)
        } else if op == 0x07 {
            Some(ABS_ADDR)
        } else if op == 0x08 {
            Some(PUSH_ADDR)
        } else if op == 0x09 {
            Some(POP_ADDR)
        } else if op == 0x0A {
            Some(RET_ADDR)
        } else if op == 0x0B {
            Some(EXT8_ADDR)
        } else if op == 0x0C {
            Some(EXT16_ADDR)
        } else if op == 0x10 {
            Some(LD_DISPATCH)
        } else if op == 0x11 {
            Some(ST_DISPATCH)
        } else if op == 0x20 {
            Some(ADD_DISPATCH)
        } else if op == 0x21 {
            Some(ADC_DISPATCH)
        } else if op == 0x22 {
            Some(SUB_DISPATCH)
        } else if op == 0x23 {
            Some(MUL_DISPATCH)
        } else if op == 0x24 {
            Some(DIV_DISPATCH)
        } else if op == 0x25 {
            Some(MOD_DISPATCH)
        } else if op == 0x26 {
            Some(CMP_DISPATCH)
        } else if op == 0x27 {
            Some(AND_DISPATCH)
        } else if op == 0x28 {
            Some(OR_DISPATCH)
        } else if op == 0x29 {
            Some(XOR_DISPATCH)
        } else if op == 0x30 {
            Some(JMP_ADDR)
        } else if op == 0x31 {
            Some(JEQ_ADDR)
        } else if op == 0x32 {
            Some(JNE_ADDR)
        } else if op == 0x33 {
            Some(JLT_ADDR)
        } else if op == 0x34 {
            Some(JGE_ADDR)
        } else if op == 0x35 {
            Some(JCS_ADDR)
        } else if op == 0x36 {
            Some(JCC_ADDR)
        } else if op == 0x37 {
            Some(JVS_ADDR)
        } else if op == 0x38 {
            Some(JVC_ADDR)
        } else if op == 0x39 {
            Some(CALL_ADDR)
        } else {
            None
        }
    }

    fn init_mapping_rom(&mut self)
        ensures
            final(self).microcode == old(self).microcode,
            final(self).mpc == old(self).mpc,
            forall|op: int|
                0 <= op < 256 ==> #[trigger] final(self).mapping_rom@[op] == match mapping_entry(op) {
                    Some(a) => a,
                    None => old(self).mapping_rom@[op],
                },
    {
        let mut op: usize = 0;
        while op < 256
            invariant
                op <= 256,
                self.microcode == old(self).microcode,
                self.mpc == old(self).mpc,
                forall|k: int|
                    0 <= k < 256 ==> #[trigger] self.mapping_rom@[k] == if k < op {
                        match mapping_entry(k) {
                            Some(a) => a,
                            None => old(self).mapping_rom@[k],
                        }
                    } else {
                        old(self).mapping_rom@[k]
                    },
            decreases 256 - op,
        {
            match Self::mapping_entry(op) {
                Some(a) => {
                    self.mapping_rom[op] = a;
                },
                None => {},
            }
            op = op + 1;
        }
    }

    fn microcode_entry(a: u16) -> (r: Option<u64>)
        ensures
            r == microcode_entry(a as int),
    {
        if a == 0 {
            Some(micro(BUS_OUT_IP, BUS_IN_AR, 0, 0, 0, SEQ_NEXT, 0, 0))
        } else if a == 1 {
            Some(micro(0, 0, 0, MEM_READ | MEM_WAIT, 0, SEQ_NEXT, 0, 0))
        } else if a == 2 {
            Some(micro(BUS_OUT_DR, BUS_IN_CR, CNT_IP_INC, 0, 0, SEQ_NEXT, 0, 0))
        } else if a == 3 {
            Some(micro(0, 0, 0, 0, 0, SEQ_MAP, 0, 0))
        } else if a == JMP_ADDR {
            Some(micro(BUS_OUT_CR, BUS_IN_IP, 0, 0, 0, SEQ_JUMP, COND_UNCOND, FETCH))
        } else if a == JEQ_ADDR {
            Some(micro(0, 0, 0, 0, 0, SEQ_JUMP, COND_Z, JEQ_ADDR + 2))
        } else if a == JEQ_ADDR + 1 {
            Some(micro(0, 0, 0, 0, 0, SEQ_JUMP, COND_UNCOND, FETCH))
        } else if a == JEQ_ADDR + 2 {
            Some(micro(BUS_OUT_CR, BUS_IN_IP, 0, 0, 0, SEQ_JUMP, COND_UNCOND, FETCH))
        } else if a == JNE_ADDR {
            Some(micro(0, 0, 0, 0, 0, SEQ_JUMP, COND_Z, JNE_ADDR + 2))
        } else if a == JNE_ADDR + 1 {
            Some(micro(BUS_OUT_CR, BUS_IN_IP, 0, 0, 0, SEQ_JUMP, COND_UNCOND, FETCH))
        } else if a == JNE_ADDR + 2 {
            Some(micro(0, 0, 0, 0, 0, SEQ_JUMP, COND_UNCOND, FETCH))
        } else if a == JLT_ADDR {
            Some(micro(0, 0, 0, 0, 0, SEQ_JUMP, COND_N, JLT_ADDR + 2))
        } else if a == JLT_ADDR + 1 {
            Some(micro(0, 0, 0, 0, 0, SEQ_JUMP, COND_UNCOND, FETCH))
        } else if a == JLT_ADDR + 2 {
            Some(micro(BUS_OUT_CR, BUS_IN_IP, 0, 0, 0, SEQ_JUMP, COND_UNCOND, FETCH))
        } else if a == JGE_ADDR {
            Some(micro(0, 0, 0, 0, 0, SEQ_JUMP, COND_N, JGE_ADDR + 2))
        } else if a == JGE_ADDR + 1 {
            Some(micro(BUS_OUT_CR, BUS_IN_IP, 0, 0, 0, SEQ_JUMP, COND_UNCOND, FETCH))
        } else if a == JGE_ADDR + 2 {
            Some(micro(0, 0, 0, 0, 0, SEQ_JUMP, COND_UNCOND, FETCH))
        } else if a == JCS_ADDR {
            Some(micro(0, 0, 0, 0, 0, SEQ_JUMP, COND_C, JCS_ADDR + 2))
        } else if a == JCS_ADDR + 1 {
            Some(micro(0, 0, 0, 0, 0, SEQ_JUMP, COND_UNCOND, FETCH))
        } else if a == JCS_ADDR + 2 {
            Some(micro(BUS_OUT_CR, BUS_IN_IP, 0, 0, 0, SEQ_JUMP, COND_UNCOND, FETCH))
        } else if a == JCC_ADDR {
            Some(micro(0, 0, 0, 0, 0, SEQ_JUMP, COND_C, JCC_ADDR + 2))
        } else if a == JCC_ADDR + 1 {
            Some(micro(BUS_OUT_CR, BUS_IN_IP, 0, 0, 0, SEQ_JUMP, COND_UNCOND, FETCH))
        } else if a == JCC_ADDR + 2 {
            Some(micro(0, 0, 0, 0, 0, SEQ_JUMP, COND_UNCOND, FETCH))
        } else if a == JVS_ADDR {
            Some(micro(0, 0, 0, 0, 0, SEQ_JUMP, COND_V, JVS_ADDR + 2))
        } else if a == JVS_ADDR + 1 {
            Some(micro(0, 0, 0, 0, 0, SEQ_JUMP, COND_UNCOND, FETCH))
        } else if a == JVS_ADDR + 2 {
            Some(micro(BUS_OUT_CR, BUS_IN_IP, 0, 0, 0, SEQ_JUMP, COND_UNCOND, FETCH))
        } else if a == JVC_ADDR {
            Some(micro(0, 0, 0, 0, 0, SEQ_JUMP, COND_V, JVC_ADDR + 2))
        } else if a == JVC_ADDR + 1 {
            Some(micro(BUS_OUT_CR, BUS_IN_IP, 0, 0, 0, SEQ_JUMP, COND_UNCOND, FETCH))
        } else if a == JVC_ADDR + 2 {
            Some(micro(0, 0, 0, 0, 0, SEQ_JUMP, COND_UNCOND, FETCH))
        } else if a == CALL_ADDR {
            Some(micro(BUS_OUT_IP, BUS_IN_DR, CNT_SP_DEC, 0, 0, SEQ_NEXT, 0, 0))
        } else if a == CALL_ADDR + 1 {
            Some(micro(BUS_OUT_SP, BUS_IN_AR, 0, MEM_WRITE | MEM_WAIT, 0, SEQ_NEXT, 0, 0,))
        } else if a == CALL_ADDR + 2 {
            Some(micro(BUS_OUT_CR, BUS_IN_IP, 0, 0, 0, SEQ_JUMP, COND_UNCOND, FETCH))
        } else if a == NOP_ADDR {
            Some(micro(0, 0, 0, 0, 0, SEQ_JUMP, COND_UNCOND, FETCH))
        } else if a == HLT_ADDR {
            Some(micro(0, 0, 0, 0, 0, SEQ_JUMP, COND_UNCOND, HLT_ADDR))
        } else if a == CLA_ADDR {
            Some(micro(BUS_OUT_AC, 0, 0, 0, ALU_SUB, SEQ_NEXT, 0, 0))
        } else if a == CLA_ADDR + 1 {
            Some(micro(BUS_OUT_ALU, BUS_IN_AC | BUS_IN_PS, 0, 0, 0, SEQ_JUMP, COND_UNCOND, FETCH,))
        } else if a == CMA_ADDR {
            Some(micro(0, BUS_IN_AC, 0, 0, ALU_INV, SEQ_NEXT, 0, 0))
        } else if a == CMA_ADDR + 1 {
            Some(micro(0, BUS_IN_AC | BUS_IN_PS, 0, 0, ALU_DEC, SEQ_JUMP, COND_UNCOND, FETCH,))
        } else if a == INV_ADDR {
            Some(micro(0, BUS_IN_AC | BUS_IN_PS, 0, 0, ALU_INV, SEQ_JUMP, COND_UNCOND, FETCH,))
        } else if a == INC_ADDR {
            Some(micro(0, BUS_IN_AC | BUS_IN_PS, 0, 0, ALU_INC, SEQ_JUMP, COND_UNCOND, FETCH,))
        } else if a == DEC_ADDR {
            Some(micro(0, BUS_IN_AC | BUS_IN_PS, 0, 0, ALU_DEC, SEQ_JUMP, COND_UNCOND, FETCH,))
        } else if a == ABS_ADDR {
            Some(micro(0, BUS_IN_AC | BUS_IN_PS, 0, 0, ALU_ABS, SEQ_JUMP, COND_UNCOND, FETCH,))
        } else if a == EXT8_ADDR {
            Some(micro(0, BUS_IN_AC | BUS_IN_PS, 0, 0, ALU_EXT8, SEQ_JUMP, COND_UNCOND, FETCH,))
        } else if a == EXT16_ADDR {
            Some(micro(0, BUS_IN_AC | BUS_IN_PS, 0, 0, ALU_EXT16, SEQ_JUMP, COND_UNCOND, FETCH,))
        } else if a == PUSH_ADDR {
            Some(micro(BUS_OUT_AC, BUS_IN_DR, CNT_SP_DEC, 0, 0, SEQ_NEXT, 0, 0))
        } else if a == PUSH_ADDR + 1 {
            Some(micro(BUS_OUT_SP, BUS_IN_AR, 0, MEM_WRITE | MEM_WAIT, 0, SEQ_JUMP, COND_UNCOND, FETCH,))
        } else if a == POP_ADDR {
            Some(micro(BUS_OUT_SP, BUS_IN_AR, CNT_SP_INC, MEM_READ | MEM_WAIT, 0, SEQ_NEXT, 0, 0,))
        } else if a == POP_ADDR + 1 {
            Some(micro(BUS_OUT_DR, BUS_IN_AC, 0, 0, 0, SEQ_JUMP, COND_UNCOND, FETCH))
        } else if a == RET_ADDR {
            Some(micro(BUS_OUT_SP, BUS_IN_AR, CNT_SP_INC, MEM_READ | MEM_WAIT, 0, SEQ_NEXT, 0, 0,))
        } else if a == RET_ADDR + 1 {
            Some(micro(BUS_OUT_DR, BUS_IN_IP, 0, 0, 0, SEQ_JUMP, COND_UNCOND, FETCH))
        } else if a == LD_DISPATCH {
            Some(micro(0, 0, 0, 0, 0, SEQ_JUMP, COND_MODE1, LD_IMM))
        } else if a == LD_DISPATCH + 1 {
            Some(micro(0, 0, 0, 0, 0, SEQ_JUMP, COND_MODE2, LD_DIR))
        } else if a == LD_DISPATCH + 2 {
            Some(micro(0, 0, 0, 0, 0, SEQ_JUMP, COND_MODE4, LD_AINC))
        } else if a == LD_DISPATCH + 3 {
            Some(micro(0, 0, 0, 0, 0, SEQ_JUMP, COND_MODE5, LD_ADEC))
        } else if a == LD_DISPATCH + 4 {
            Some(micro(0, 0, 0, 0, 0, SEQ_JUMP, COND_UNCOND, FETCH))
        } else if a == ST_DISPATCH {
            Some(micro(0, 0, 0, 0, 0, SEQ_JUMP, COND_MODE2, ST_DIR))
        } else if a == ST_DISPATCH + 1 {
            Some(micro(0, 0, 0, 0, 0, SEQ_JUMP, COND_MODE4, ST_AINC))
        } else if a == ST_DISPATCH + 2 {
            Some(micro(0, 0, 0, 0, 0, SEQ_JUMP, COND_MODE5, ST_ADEC))
        } else if a == ST_DISPATCH + 3 {
            Some(micro(0, 0, 0, 0, 0, SEQ_JUMP, COND_UNCOND, FETCH))
        } else if a == ADD_DISPATCH {
            Some(micro(0, 0, 0, 0, 0, SEQ_JUMP, COND_MODE1, ADD_IMM))
        } else if a == ADD_DISPATCH + 1 {
            Some(micro(0, 0, 0, 0, 0, SEQ_JUMP, COND_MODE2, ADD_DIR))
        } else if a == ADD_DISPATCH + 2 {
            Some(micro(0, 0, 0, 0, 0, SEQ_JUMP, COND_UNCOND, FETCH))
        } else if a == ADC_DISPATCH {
            Some(micro(0, 0, 0, 0, 0, SEQ_JUMP, COND_MODE1, ADC_IMM))
        } else if a == ADC_DISPATCH + 1 {
            Some(micro(0, 0, 0, 0, 0, SEQ_JUMP, COND_MODE2, ADC_DIR))
        } else if a == ADC_DISPATCH + 2 {
            Some(micro(0, 0, 0, 0, 0, SEQ_JUMP, COND_UNCOND, FETCH))
        } else if a == SUB_DISPATCH {
            Some(micro(0, 0, 0, 0, 0, SEQ_JUMP, COND_MODE1, SUB_IMM))
        } else if a == SUB_DISPATCH + 1 {
            Some(micro(0, 0, 0, 0, 0, SEQ_JUMP, COND_MODE2, SUB_DIR))
        } else if a == SUB_DISPATCH + 2 {
            Some(micro(0, 0, 0, 0, 0, SEQ_JUMP, COND_UNCOND, FETCH))
        } else if a == MUL_DISPATCH {
            Some(micro(0, 0, 0, 0, 0, SEQ_JUMP, COND_MODE1, MUL_IMM))
        } else if a == MUL_DISPATCH + 1 {
            Some(micro(0, 0, 0, 0, 0, SEQ_JUMP, COND_MODE2, MUL_DIR))
        } else if a == MUL_DISPATCH + 2 {
            Some(micro(0, 0, 0, 0, 0, SEQ_JUMP, COND_UNCOND, FETCH))
        } else if a == DIV_DISPATCH {
            Some(micro(0, 0, 0, 0, 0, SEQ_JUMP, COND_MODE1, DIV_IMM))
        } else if a == DIV_DISPATCH + 1 {
            Some(micro(0, 0, 0, 0, 0, SEQ_JUMP, COND_MODE2, DIV_DIR))
        } else if a == DIV_DISPATCH + 2 {
            Some(micro(0, 0, 0, 0, 0, SEQ_JUMP, COND_UNCOND, FETCH))
        } else if a == MOD_DISPATCH {
            Some(micro(0, 0, 0, 0, 0, SEQ_JUMP, COND_MODE1, MOD_IMM))
        } else if a == MOD_DISPATCH + 1 {
            Some(micro(0, 0, 0, 0, 0, SEQ_JUMP, COND_MODE2, MOD_DIR))
        } else if a == MOD_DISPATCH + 2 {
            Some(micro(0, 0, 0, 0, 0, SEQ_JUMP, COND_UNCOND, FETCH))
        } else if a == CMP_DISPATCH {
            Some(micro(0, 0, 0, 0, 0, SEQ_JUMP, COND_MODE1, CMP_IMM))
        } else if a == CMP_DISPATCH + 1 {
            Some(micro(0, 0, 0, 0, 0, SEQ_JUMP, COND_MODE2, CMP_DIR))
        } else if a == CMP_DISPATCH + 2 {
            Some(micro(0, 0, 0, 0, 0, SEQ_JUMP, COND_UNCOND, FETCH))
        } else if a == AND_DISPATCH {
            Some(micro(0, 0, 0, 0, 0, SEQ_JUMP, COND_MODE1, AND_IMM))
        } else if a == AND_DISPATCH + 1 {
            Some(micro(0, 0, 0, 0, 0, SEQ_JUMP, COND_MODE2, AND_DIR))
        } else if a == AND_DISPATCH + 2 {
            Some(micro(0, 0, 0, 0, 0, SEQ_JUMP, COND_UNCOND, FETCH))
        } else if a == OR_DISPATCH {
            Some(micro(0, 0, 0, 0, 0, SEQ_JUMP, COND_MODE1, OR_IMM))
        } else if a == OR_DISPATCH + 1 {
            Some(micro(0, 0, 0, 0, 0, SEQ_JUMP, COND_MODE2, OR_DIR))
        } else if a == OR_DISPATCH + 2 {
            Some(micro(0, 0, 0, 0, 0, SEQ_JUMP, COND_UNCOND, FETCH))
        } else if a == XOR_DISPATCH {
            Some(micro(0, 0, 0, 0, 0, SEQ_JUMP, COND_MODE1, XOR_IMM))
        } else if a == XOR_DISPATCH + 1 {
            Some(micro(0, 0, 0, 0, 0, SEQ_JUMP, COND_MODE2, XOR_DIR))
        } else if a == XOR_DISPATCH + 2 {
            Some(micro(0, 0, 0, 0, 0, SEQ_JUMP, COND_UNCOND, FETCH))
        } else if a == LD_IMM {
            Some(micro(BUS_OUT_CR, BUS_IN_DR, 0, 0, 0, SEQ_NEXT, 0, 0))
        } else if a == LD_IMM + 1 {
            Some(micro(BUS_OUT_DR, BUS_IN_AC, 0, 0, 0, SEQ_JUMP, COND_UNCOND, FETCH))
        } else if a == LD_DIR {
            Some(micro(BUS_OUT_CR, BUS_IN_AR, 0, 0, 0, SEQ_NEXT, 0, 0))
        } else if a == LD_DIR + 1 {
            Some(micro(0, 0, 0, MEM_READ | MEM_WAIT, 0, SEQ_NEXT, 0, 0))
        } else if a == LD_DIR + 2 {
            Some(micro(BUS_OUT_DR, BUS_IN_AC, 0, 0, 0, SEQ_JUMP, COND_UNCOND, FETCH))
        } else if a == LD_AINC {
            Some(micro(BUS_OUT_CR, BUS_IN_AR, 0, 0, 0, SEQ_NEXT, 0, 0))
        } else if a == LD_AINC + 1 {
            Some(micro(0, 0, 0, MEM_READ | MEM_WAIT, 0, SEQ_NEXT, 0, 0))
        } else if a == LD_AINC + 2 {
            Some(micro(BUS_OUT_DR, BUS_IN_AC, 0, 0, 0, SEQ_NEXT, 0, 0))
        } else if a == LD_AINC + 3 {
            Some(micro(BUS_OUT_AC, BUS_IN_DR, 0, 0, ALU_INC, SEQ_NEXT, 0, 0))
        } else if a == LD_AINC + 4 {
            Some(micro(0, 0, 0, MEM_WRITE | MEM_WAIT, 0, SEQ_NEXT, 0, 0))
        } else if a == LD_AINC + 5 {
            Some(micro(BUS_OUT_AC, BUS_IN_AR, 0, 0, 0, SEQ_NEXT, 0, 0))
        } else if a == LD_AINC + 6 {
            Some(micro(0, 0, 0, MEM_READ | MEM_WAIT, 0, SEQ_NEXT, 0, 0))
        } else if a == LD_AINC + 7 {
            Some(micro(BUS_OUT_DR, BUS_IN_AC, 0, 0, 0, SEQ_JUMP, COND_UNCOND, FETCH))
        } else if a == LD_ADEC {
            Some(micro(BUS_OUT_CR, BUS_IN_AR, 0, 0, 0, SEQ_NEXT, 0, 0))
        } else if a == LD_ADEC + 1 {
            Some(micro(0, 0, 0, MEM_READ | MEM_WAIT, 0, SEQ_NEXT, 0, 0))
        } else if a == LD_ADEC + 2 {
            Some(micro(BUS_OUT_DR, BUS_IN_AC, 0, 0, 0, SEQ_NEXT, 0, 0))
        } else if a == LD_ADEC + 3 {
            Some(micro(BUS_OUT_AC, BUS_IN_DR, 0, 0, ALU_DEC, SEQ_NEXT, 0, 0))
        } else if a == LD_ADEC + 4 {
            Some(micro(0, 0, 0, MEM_WRITE | MEM_WAIT, 0, SEQ_NEXT, 0, 0))
        } else if a == LD_ADEC + 5 {
            Some(micro(BUS_OUT_DR, BUS_IN_AR, 0, 0, 0, SEQ_NEXT, 0, 0))
        } else if a == LD_ADEC + 6 {
            Some(micro(0, 0, 0, MEM_READ | MEM_WAIT, 0, SEQ_NEXT, 0, 0))
        } else if a == LD_ADEC + 7 {
            Some(micro(BUS_OUT_DR, BUS_IN_AC, 0, 0, 0, SEQ_JUMP, COND_UNCOND, FETCH))
        } else if a == ST_DIR {
            Some(micro(BUS_OUT_CR, BUS_IN_AR, 0, 0, 0, SEQ_NEXT, 0, 0))
        } else if a == ST_DIR + 1 {
            Some(micro(BUS_OUT_AC, BUS_IN_DR, 0, 0, 0, SEQ_NEXT, 0, 0))
        } else if a == ST_DIR + 2 {
            Some(micro(0, 0, 0, MEM_WRITE | MEM_WAIT, 0, SEQ_JUMP, COND_UNCOND, FETCH,))
        } else if a == ST_AINC {
            Some(micro(BUS_OUT_CR, BUS_IN_AR, 0, 0, 0, SEQ_NEXT, 0, 0))
        } else if a == ST_AINC + 1 {
            Some(micro(0, 0, 0, MEM_READ | MEM_WAIT, 0, SEQ_NEXT, 0, 0))
        } else if a == ST_AINC + 2 {
            Some(micro(BUS_OUT_DR, BUS_IN_AR, 0, 0, 0, SEQ_NEXT, 0, 0))
        } else if a == ST_AINC + 3 {
            Some(micro(BUS_OUT_AC, BUS_IN_DR, 0, 0, 0, SEQ_NEXT, 0, 0))
        } else if a == ST_AINC + 4 {
            Some(micro(0, 0, 0, MEM_WRITE | MEM_WAIT, 0, SEQ_NEXT, 0, 0))
        } else if a == ST_AINC + 5 {
            Some(micro(BUS_OUT_CR, BUS_IN_AR, 0, 0, 0, SEQ_NEXT, 0, 0))
        } else if a == ST_AINC + 6 {
            Some(micro(0, 0, 0, MEM_READ | MEM_WAIT, 0, SEQ_NEXT, 0, 0))
        } else if a == ST_AINC + 7 {
            Some(micro(BUS_OUT_DR, BUS_IN_AC, 0, 0, 0, SEQ_NEXT, 0, 0))
        } else if a == ST_AINC + 8 {
            Some(micro(BUS_OUT_AC, BUS_IN_DR, 0, 0, ALU_INC, SEQ_NEXT, 0, 0))
        } else if a == ST_AINC + 9 {
            Some(micro(0, 0, 0, MEM_WRITE | MEM_WAIT, 0, SEQ_JUMP, COND_UNCOND, FETCH,))
        } else if a == ST_ADEC {
            Some(micro(BUS_OUT_CR, BUS_IN_AR, 0, 0, 0, SEQ_NEXT, 0, 0))
        } else if a == ST_ADEC + 1 {
            Some(micro(0, 0, 0, MEM_READ | MEM_WAIT, 0, SEQ_NEXT, 0, 0))
        } else if a == ST_ADEC + 2 {
            Some(micro(BUS_OUT_DR, BUS_IN_AR, 0, 0, 0, SEQ_NEXT, 0, 0))
        } else if a == ST_ADEC + 3 {
            Some(micro(BUS_OUT_AC, BUS_IN_DR, 0, 0, 0, SEQ_NEXT, 0, 0))
        } else if a == ST_ADEC + 4 {
            Some(micro(0, 0, 0, MEM_WRITE | MEM_WAIT, 0, SEQ_NEXT, 0, 0))
        } else if a == ST_ADEC + 5 {
            Some(micro(BUS_OUT_CR, BUS_IN_AR, 0, 0, 0, SEQ_NEXT, 0, 0))
        } else if a == ST_ADEC + 6 {
            Some(micro(0, 0, 0, MEM_READ | MEM_WAIT, 0, SEQ_NEXT, 0, 0))
        } else if a == ST_ADEC + 7 {
            Some(micro(BUS_OUT_DR, BUS_IN_AC, 0, 0, 0, SEQ_NEXT, 0, 0))
        } else if a == ST_ADEC + 8 {
            Some(micro(BUS_OUT_AC, BUS_IN_DR, 0, 0, ALU_DEC, SEQ_NEXT, 0, 0))
        } else if a == ST_ADEC + 9 {
            Some(micro(0, 0, 0, MEM_WRITE | MEM_WAIT, 0, SEQ_JUMP, COND_UNCOND, FETCH,))
        } else if a == ADD_IMM {
            Some(micro(BUS_OUT_CR, 0, 0, 0, ALU_ADD, SEQ_NEXT, 0, 0))
        } else if a == ADD_IMM + 1 {
            Some(micro(BUS_OUT_ALU, BUS_IN_AC | BUS_IN_PS, 0, 0, 0, SEQ_JUMP, COND_UNCOND, FETCH))
        } else if a == ADD_DIR {
            Some(micro(BUS_OUT_CR, BUS_IN_AR, 0, 0, 0, SEQ_NEXT, 0, 0))
        } else if a == ADD_DIR + 1 {
            Some(micro(0, 0, 0, MEM_READ | MEM_WAIT, 0, SEQ_NEXT, 0, 0))
        } else if a == ADD_DIR + 2 {
            Some(micro(BUS_OUT_DR, 0, 0, 0, ALU_ADD, SEQ_NEXT, 0, 0))
        } else if a == ADD_DIR + 3 {
            Some(micro(BUS_OUT_ALU, BUS_IN_AC | BUS_IN_PS, 0, 0, 0, SEQ_JUMP, COND_UNCOND, FETCH))
        } else if a == ADC_IMM {
            Some(micro(BUS_OUT_CR, 0, 0, 0, ALU_ADC, SEQ_NEXT, 0, 0))
        } else if a == ADC_IMM + 1 {
            Some(micro(BUS_OUT_ALU, BUS_IN_AC | BUS_IN_PS, 0, 0, 0, SEQ_JUMP, COND_UNCOND, FETCH,))
        } else if a == ADC_DIR {
            Some(micro(BUS_OUT_CR, BUS_IN_AR, 0, 0, 0, SEQ_NEXT, 0, 0))
        } else if a == ADC_DIR + 1 {
            Some(micro(0, 0, 0, MEM_READ | MEM_WAIT, 0, SEQ_NEXT, 0, 0))
        } else if a == ADC_DIR + 2 {
            Some(micro(BUS_OUT_DR, 0, 0, 0, ALU_ADC, SEQ_NEXT, 0, 0))
        } else if a == ADC_DIR + 3 {
            Some(micro(BUS_OUT_ALU, BUS_IN_AC | BUS_IN_PS, 0, 0, 0, SEQ_JUMP, COND_UNCOND, FETCH,))
        } else if a == SUB_IMM {
            Some(micro(BUS_OUT_CR, 0, 0, 0, ALU_SUB, SEQ_NEXT, 0, 0))
        } else if a == SUB_IMM + 1 {
            Some(micro(BUS_OUT_ALU, BUS_IN_AC | BUS_IN_PS, 0, 0, 0, SEQ_JUMP, COND_UNCOND, FETCH))
        } else if a == SUB_DIR {
            Some(micro(BUS_OUT_CR, BUS_IN_AR, 0, 0, 0, SEQ_NEXT, 0, 0))
        } else if a == SUB_DIR + 1 {
            Some(micro(0, 0, 0, MEM_READ | MEM_WAIT, 0, SEQ_NEXT, 0, 0))
        } else if a == SUB_DIR + 2 {
            Some(micro(BUS_OUT_DR, 0, 0, 0, ALU_SUB, SEQ_NEXT, 0, 0))
        } else if a == SUB_DIR + 3 {
            Some(micro(BUS_OUT_ALU, BUS_IN_AC | BUS_IN_PS, 0, 0, 0, SEQ_JUMP, COND_UNCOND, FETCH))
        } else if a == MUL_IMM {
            Some(micro(BUS_OUT_CR, 0, 0, 0, ALU_MUL, SEQ_NEXT, 0, 0))
        } else if a == MUL_IMM + 1 {
            Some(micro(BUS_OUT_ALU, BUS_IN_AC | BUS_IN_PS, 0, 0, 0, SEQ_JUMP, COND_UNCOND, FETCH))
        } else if a == MUL_DIR {
            Some(micro(BUS_OUT_CR, BUS_IN_AR, 0, 0, 0, SEQ_NEXT, 0, 0))
        } else if a == MUL_DIR + 1 {
            Some(micro(0, 0, 0, MEM_READ | MEM_WAIT, 0, SEQ_NEXT, 0, 0))
        } else if a == MUL_DIR + 2 {
            Some(micro(BUS_OUT_DR, 0, 0, 0, ALU_MUL, SEQ_NEXT, 0, 0))
        } else if a == MUL_DIR + 3 {
            Some(micro(BUS_OUT_ALU, BUS_IN_AC | BUS_IN_PS, 0, 0, 0, SEQ_JUMP, COND_UNCOND, FETCH))
        } else if a == DIV_IMM {
            Some(micro(BUS_OUT_CR, 0, 0, 0, ALU_DIV, SEQ_NEXT, 0, 0))
        } else if a == DIV_IMM + 1 {
            Some(micro(BUS_OUT_ALU, BUS_IN_AC | BUS_IN_PS, 0, 0, 0, SEQ_JUMP, COND_UNCOND, FETCH))
        } else if a == DIV_DIR {
            Some(micro(BUS_OUT_CR, BUS_IN_AR, 0, 0, 0, SEQ_NEXT, 0, 0))
        } else if a == DIV_DIR + 1 {
            Some(micro(0, 0, 0, MEM_READ | MEM_WAIT, 0, SEQ_NEXT, 0, 0))
        } else if a == DIV_DIR + 2 {
            Some(micro(BUS_OUT_DR, 0, 0, 0, ALU_DIV, SEQ_NEXT, 0, 0))
        } else if a == DIV_DIR + 3 {
            Some(micro(BUS_OUT_ALU, BUS_IN_AC | BUS_IN_PS, 0, 0, 0, SEQ_JUMP, COND_UNCOND, FETCH))
        } else if a == MOD_IMM {
            Some(micro(BUS_OUT_CR, 0, 0, 0, ALU_MOD, SEQ_NEXT, 0, 0))
        } else if a == MOD_IMM + 1 {
            Some(micro(BUS_OUT_ALU, BUS_IN_AC | BUS_IN_PS, 0, 0, 0, SEQ_JUMP, COND_UNCOND, FETCH))
        } else if a == MOD_DIR {
            Some(micro(BUS_OUT_CR, BUS_IN_AR, 0, 0, 0, SEQ_NEXT, 0, 0))
        } else if a == MOD_DIR + 1 {
            Some(micro(0, 0, 0, MEM_READ | MEM_WAIT, 0, SEQ_NEXT, 0, 0))
        } else if a == MOD_DIR + 2 {
            Some(micro(BUS_OUT_DR, 0, 0, 0, ALU_MOD, SEQ_NEXT, 0, 0))
        } else if a == MOD_DIR + 3 {
            Some(micro(BUS_OUT_ALU, BUS_IN_AC | BUS_IN_PS, 0, 0, 0, SEQ_JUMP, COND_UNCOND, FETCH))
        } else if a == AND_IMM {
            Some(micro(BUS_OUT_CR, 0, 0, 0, ALU_AND, SEQ_NEXT, 0, 0))
        } else if a == AND_IMM + 1 {
            Some(micro(BUS_OUT_ALU, BUS_IN_AC | BUS_IN_PS, 0, 0, 0, SEQ_JUMP, COND_UNCOND, FETCH))
        } else if a == AND_DIR {
            Some(micro(BUS_OUT_CR, BUS_IN_AR, 0, 0, 0, SEQ_NEXT, 0, 0))
        } else if a == AND_DIR + 1 {
            Some(micro(0, 0, 0, MEM_READ | MEM_WAIT, 0, SEQ_NEXT, 0, 0))
        } else if a == AND_DIR + 2 {
            Some(micro(BUS_OUT_DR, 0, 0, 0, ALU_AND, SEQ_NEXT, 0, 0))
        } else if a == AND_DIR + 3 {
            Some(micro(BUS_OUT_ALU, BUS_IN_AC | BUS_IN_PS, 0, 0, 0, SEQ_JUMP, COND_UNCOND, FETCH))
        } else if a == OR_IMM {
            Some(micro(BUS_OUT_CR, 0, 0, 0, ALU_OR, SEQ_NEXT, 0, 0))
        } else if a == OR_IMM + 1 {
            Some(micro(BUS_OUT_ALU, BUS_IN_AC | BUS_IN_PS, 0, 0, 0, SEQ_JUMP, COND_UNCOND, FETCH))
        } else if a == OR_DIR {
            Some(micro(BUS_OUT_CR, BUS_IN_AR, 0, 0, 0, SEQ_NEXT, 0, 0))
        } else if a == OR_DIR + 1 {
            Some(micro(0, 0, 0, MEM_READ | MEM_WAIT, 0, SEQ_NEXT, 0, 0))
        } else if a == OR_DIR + 2 {
            Some(micro(BUS_OUT_DR, 0, 0, 0, ALU_OR, SEQ_NEXT, 0, 0))
        } else if a == OR_DIR + 3 {
            Some(micro(BUS_OUT_ALU, BUS_IN_AC | BUS_IN_PS, 0, 0, 0, SEQ_JUMP, COND_UNCOND, FETCH))
        } else if a == XOR_IMM {
            Some(micro(BUS_OUT_CR, 0, 0, 0, ALU_XOR, SEQ_NEXT, 0, 0))
        } else if a == XOR_IMM + 1 {
            Some(micro(BUS_OUT_ALU, BUS_IN_AC | BUS_IN_PS, 0, 0, 0, SEQ_JUMP, COND_UNCOND, FETCH))
        } else if a == XOR_DIR {
            Some(micro(BUS_OUT_CR, BUS_IN_AR, 0, 0, 0, SEQ_NEXT, 0, 0))
        } else if a == XOR_DIR + 1 {
            Some(micro(0, 0, 0, MEM_READ | MEM_WAIT, 0, SEQ_NEXT, 0, 0))
        } else if a == XOR_DIR + 2 {
            Some(micro(BUS_OUT_DR, 0, 0, 0, ALU_XOR, SEQ_NEXT, 0, 0))
        } else if a == XOR_DIR + 3 {
            Some(micro(BUS_OUT_ALU, BUS_IN_AC | BUS_IN_PS, 0, 0, 0, SEQ_JUMP, COND_UNCOND, FETCH))
        } else if a == CMP_IMM {
            Some(micro(BUS_OUT_CR, 0, 0, 0, ALU_CMP, SEQ_NEXT, 0, 0))
        } else if a == CMP_IMM + 1 {
            Some(micro(BUS_OUT_ALU, BUS_IN_PS, 0, 0, 0, SEQ_JUMP, COND_UNCOND, FETCH,))
        } else if a == CMP_DIR {
            Some(micro(BUS_OUT_CR, BUS_IN_AR, 0, 0, 0, SEQ_NEXT, 0, 0))
        } else if a == CMP_DIR + 1 {
            Some(micro(0, 0, 0, MEM_READ | MEM_WAIT, 0, SEQ_NEXT, 0, 0))
        } else if a == CMP_DIR + 2 {
            Some(micro(BUS_OUT_DR, 0, 0, 0, ALU_CMP, SEQ_NEXT, 0, 0))
        } else if a == CMP_DIR + 3 {
            Some(micro(BUS_OUT_ALU, BUS_IN_PS, 0, 0, 0, SEQ_JUMP, COND_UNCOND, FETCH,))
        } else {
            None
        }
    }

    fn init_microcode(&mut self)
        ensures
            final(self).mapping_rom == old(self).mapping_rom,
            final(self).mpc == old(self).mpc,
            forall|a: int|
                0 <= a < 2048 ==> #[trigger] final(self).microcode@[a] == match microcode_entry(a) {
                    Some(w) => w,
                    None => old(self).microcode@[a],
                },
    {
        let mut a: usize = 0;
        while a < 2048
            invariant
                a <= 2048,
                self.mapping_rom == old(self).mapping_rom,
                self.mpc == old(self).mpc,
                forall|k: int|
                    0 <= k < 2048 ==> #[trigger] self.microcode@[k] == if k < a {
                        match microcode_entry(k) {
                            Some(w) => w,
                            None => old(self).microcode@[k],
                        }
                    } else {
                        old(self).microcode@[k]
                    },
            decreases 2048 - a,
        {
            match Self::microcode_entry(a as u16) {
                Some(w) => {
                    self.microcode[a] = w;
                },
                None => {},
            }
            a = a + 1;
        }
    }
}

/// The opcode mapping ROM as built, as a sequence of 256 entries.
pub open spec fn mapping_rom_s() -> Seq<u16> {
    Seq::new(256, |op: int| mapping_word(op))
}

/// The address that the control unit as `MicroProcessor::new` builds it
/// moves to from `mpc` (see `next_mpc`), for the instruction `cr` and the
/// flags `ps`.
pub open spec fn built_next(mpc: int, cr: u32, ps: ProcessorStatus) -> int {
    next_address(mpc as u16, microcode_word(mpc), mapping_rom_s(), cr, ps) as int
}

/// Whether the control unit as built, started at `mpc` on instruction `cr`
/// with flags `ps`, is back at the fetch sequence (address 0) within `k`
/// moves, without passing through the halt loop on the way.
pub open spec fn returns_to_fetch(mpc: int, cr: u32, ps: ProcessorStatus, k: nat) -> bool
    decreases k,
{
    mpc == FETCH || (k > 0 && 0 <= mpc < 2048 && mpc != HLT_ADDR && returns_to_fetch(
        built_next(mpc, cr, ps),
        cr,
        ps,
        (k - 1) as nat,
    ))
}

/// Whether every path of the microprogram from `mpc`, whichever way its
/// conditions go, reaches address 0 within `k` moves through words that
/// the control unit sets, without a mapping step or the halt loop.
spec fn all_paths_fetch(mpc: int, k: nat) -> bool
    decreases k,
{
    mpc == FETCH || (k > 0 && 0 <= mpc < 2048 && mpc != HLT_ADDR && match microcode_fields(mpc) {
        Some(f) => f.5 < 4 && f.6 < 16 && f.7 < 1024 && f.5 != SEQ_MAP && if f.5 == SEQ_JUMP {
            (f.7 == FETCH || all_paths_fetch(f.7 as int, (k - 1) as nat)) && (f.6 == COND_UNCOND
                || all_paths_fetch((mpc + 1) % 0x10000, (k - 1) as nat))
        } else {
            all_paths_fetch((mpc + 1) % 0x10000, (k - 1) as nat)
        },
        None => false,
    })
}

/// The sequencing fields of a control word are those it was packed from.
proof fn lemma_sequencing_fields(bo: u8, bi: u8, cnt: u8, mem: u8, alu: u8, sc: u8, cond: u8, next: u16)
    requires
        sc < 4,
        cond < 16,
        next < 1024,
    ensures
        decode_word(spec_micro(bo, bi, cnt, mem, alu, sc, cond, next)).seq_ctrl == sc,
        decode_word(spec_micro(bo, bi, cnt, mem, alu, sc, cond, next)).seq_cond == cond,
        decode_word(spec_micro(bo, bi, cnt, mem, alu, sc, cond, next)).next_addr == next,
{
    assert(((((bo as u64) << 34u64 | (bi as u64) << 27u64 | (cnt as u64) << 24u64 | (mem as u64)
        << 21u64 | (alu as u64) << 16u64 | (sc as u64) << 14u64 | (cond as u64) << 10u64
        | next as u64) >> 14u64) & 0x03u64) == sc as u64) by (bit_vector)
        requires
            sc < 4,
            cond < 16,
            next < 1024,
    ;
    assert(((((bo as u64) << 34u64 | (bi as u64) << 27u64 | (cnt as u64) << 24u64 | (mem as u64)
        << 21u64 | (alu as u64) << 16u64 | (sc as u64) << 14u64 | (cond as u64) << 10u64
        | next as u64) >> 10u64) & 0x0Fu64) == cond as u64) by (bit_vector)
        requires
            sc < 4,
            cond < 16,
            next < 1024,
    ;
    assert((((bo as u64) << 34u64 | (bi as u64) << 27u64 | (cnt as u64) << 24u64 | (mem as u64)
        << 21u64 | (alu as u64) << 16u64 | (sc as u64) << 14u64 | (cond as u64) << 10u64
        | next as u64) & 0x3FFu64) == next as u64) by (bit_vector)
        requires
            sc < 4,
            cond < 16,
            next < 1024,
    ;
}

/// What holds of every path holds of the one that an instruction and its
/// flags pick.
proof fn lemma_paths_cover_run(mpc: int, cr: u32, ps: ProcessorStatus, k: nat)
    requires
        all_paths_fetch(mpc, k),
    ensures
        returns_to_fetch(mpc, cr, ps, k),
    decreases k,
{
    if mpc != FETCH {
        let f = microcode_fields(mpc)->0;
        lemma_sequencing_fields(f.0, f.1, f.2, f.3, f.4, f.5, f.6, f.7);
        let n = built_next(mpc, cr, ps);
        if f.5 == SEQ_JUMP && condition_holds(ps, cr, f.6) {
            assert(n == f.7 as int);
        } else {
            assert(n == (mpc + 1) % 0x10000);
        }
        lemma_paths_cover_run(n, cr, ps, (k - 1) as nat);
    }
}

/// A bound on the paths to the fetch sequence is also met by every larger
/// one.
proof fn lemma_paths_monotone(mpc: int, k: nat, k2: nat)
    requires
        all_paths_fetch(mpc, k),
        k <= k2,
    ensures
        all_paths_fetch(mpc, k2),
    decreases k,
{
    if mpc != FETCH {
        let f = microcode_fields(mpc)->0;
        if f.5 == SEQ_JUMP {
            if f.7 != FETCH {
                lemma_paths_monotone(f.7 as int, (k - 1) as nat, (k2 - 1) as nat);
            }
            if f.6 != COND_UNCOND {
                lemma_paths_monotone((mpc + 1) % 0x10000, (k - 1) as nat, (k2 - 1) as nat);
            }
        } else {
            lemma_paths_monotone((mpc + 1) % 0x10000, (k - 1) as nat, (k2 - 1) as nat);
        }
    }
}

/// The fetch sequence is reached at once.
proof fn lemma_fetch_reached()
    ensures
        forall|k: nat| #[trigger] all_paths_fetch(FETCH as int, k),
{
    assert forall|k: nat| #[trigger] all_paths_fetch(FETCH as int, k) by {
        reveal_with_fuel(all_paths_fetch, 1);
    }
}

// The routines of the microprogram, address by address, each with its
// distance from the fetch sequence, nearest first.

proof fn lemma_paths_block_0()
    ensures
        all_paths_fetch(0x30, 1),
        all_paths_fetch(0x35, 1),
        all_paths_fetch(0x36, 1),
        all_paths_fetch(0x39, 1),
        all_paths_fetch(0x3a, 1),
        all_paths_fetch(0x3d, 1),
        all_paths_fetch(0x3e, 1),
        all_paths_fetch(0x41, 1),
{
    lemma_fetch_reached();
}

proof fn lemma_paths_block_1()
    ensures
        all_paths_fetch(0x42, 1),
        all_paths_fetch(0x45, 1),
        all_paths_fetch(0x46, 1),
        all_paths_fetch(0x49, 1),
        all_paths_fetch(0x4a, 1),
        all_paths_fetch(0x4d, 1),
        all_paths_fetch(0x4e, 1),
        all_paths_fetch(0x51, 1),
{
    lemma_fetch_reached();
}

proof fn lemma_paths_block_2()
    ensures
        all_paths_fetch(0x52, 1),
        all_paths_fetch(0x56, 1),
        all_paths_fetch(0x100, 1),
        all_paths_fetch(0x103, 1),
        all_paths_fetch(0x105, 1),
        all_paths_fetch(0x106, 1),
        all_paths_fetch(0x107, 1),
        all_paths_fetch(0x108, 1),
{
    lemma_fetch_reached();
}

proof fn lemma_paths_block_3()
    ensures
        all_paths_fetch(0x109, 1),
        all_paths_fetch(0x10a, 1),
        all_paths_fetch(0x10b, 1),
        all_paths_fetch(0x111, 1),
        all_paths_fetch(0x113, 1),
        all_paths_fetch(0x115, 1),
        all_paths_fetch(0x124, 1),
        all_paths_fetch(0x128, 1),
{
    lemma_fetch_reached();
}

proof fn lemma_paths_block_4()
    ensures
        all_paths_fetch(0x132, 1),
        all_paths_fetch(0x135, 1),
        all_paths_fetch(0x138, 1),
        all_paths_fetch(0x13b, 1),
        all_paths_fetch(0x13e, 1),
        all_paths_fetch(0x141, 1),
        all_paths_fetch(0x144, 1),
        all_paths_fetch(0x147, 1),
{
    lemma_fetch_reached();
}

proof fn lemma_paths_block_5()
    ensures
        all_paths_fetch(0x14a, 1),
        all_paths_fetch(0x14d, 1),
        all_paths_fetch(0x201, 1),
        all_paths_fetch(0x204, 1),
        all_paths_fetch(0x20c, 1),
        all_paths_fetch(0x214, 1),
        all_paths_fetch(0x217, 1),
        all_paths_fetch(0x221, 1),
{
    lemma_fetch_reached();
}

proof fn lemma_paths_block_6()
    ensures
        all_paths_fetch(0x22b, 1),
        all_paths_fetch(0x301, 1),
        all_paths_fetch(0x305, 1),
        all_paths_fetch(0x309, 1),
        all_paths_fetch(0x30e, 1),
        all_paths_fetch(0x311, 1),
        all_paths_fetch(0x315, 1),
        all_paths_fetch(0x319, 1),
{
    lemma_fetch_reached();
}

proof fn lemma_paths_block_7()
    ensures
        all_paths_fetch(0x31d, 1),
        all_paths_fetch(0x321, 1),
        all_paths_fetch(0x325, 1),
        all_paths_fetch(0x329, 1),
        all_paths_fetch(0x32d, 1),
        all_paths_fetch(0x331, 1),
        all_paths_fetch(0x335, 1),
        all_paths_fetch(0x339, 1),
{
    lemma_fetch_reached();
}

proof fn lemma_paths_block_8()
    ensures
        all_paths_fetch(0x33d, 1),
        all_paths_fetch(0x341, 1),
        all_paths_fetch(0x345, 1),
        all_paths_fetch(0x349, 1),
        all_paths_fetch(0x34d, 1),
{
    lemma_fetch_reached();
}

proof fn lemma_paths_block_9()
    ensures
        all_paths_fetch(0x34, 2),
        all_paths_fetch(0x38, 2),
        all_paths_fetch(0x3c, 2),
        all_paths_fetch(0x40, 2),
        all_paths_fetch(0x44, 2),
        all_paths_fetch(0x48, 2),
        all_paths_fetch(0x4c, 2),
        all_paths_fetch(0x50, 2),
{
    lemma_paths_block_0();
    lemma_paths_block_1();
    lemma_paths_block_2();
    lemma_fetch_reached();
}

proof fn lemma_paths_block_10()
    ensures
        all_paths_fetch(0x55, 2),
        all_paths_fetch(0x102, 2),
        all_paths_fetch(0x104, 2),
        all_paths_fetch(0x110, 2),
        all_paths_fetch(0x112, 2),
        all_paths_fetch(0x114, 2),
        all_paths_fetch(0x200, 2),
        all_paths_fetch(0x203, 2),
{
    lemma_paths_block_2();
    lemma_paths_block_3();
    lemma_paths_block_5();
    lemma_fetch_reached();
}

proof fn lemma_paths_block_11()
    ensures
        all_paths_fetch(0x20b, 2),
        all_paths_fetch(0x213, 2),
        all_paths_fetch(0x216, 2),
        all_paths_fetch(0x220, 2),
        all_paths_fetch(0x22a, 2),
        all_paths_fetch(0x300, 2),
        all_paths_fetch(0x304, 2),
        all_paths_fetch(0x308, 2),
{
    lemma_paths_block_5();
    lemma_paths_block_6();
    lemma_fetch_reached();
}

proof fn lemma_paths_block_12()
    ensures
        all_paths_fetch(0x30d, 2),
        all_paths_fetch(0x310, 2),
        all_paths_fetch(0x314, 2),
        all_paths_fetch(0x318, 2),
        all_paths_fetch(0x31c, 2),
        all_paths_fetch(0x320, 2),
        all_paths_fetch(0x324, 2),
        all_paths_fetch(0x328, 2),
{
    lemma_paths_block_6();
    lemma_paths_block_7();
    lemma_fetch_reached();
}

proof fn lemma_paths_block_13()
    ensures
        all_paths_fetch(0x32c, 2),
        all_paths_fetch(0x330, 2),
        all_paths_fetch(0x334, 2),
        all_paths_fetch(0x338, 2),
        all_paths_fetch(0x33c, 2),
        all_paths_fetch(0x340, 2),
        all_paths_fetch(0x344, 2),
        all_paths_fetch(0x348, 2),
{
    lemma_paths_block_7();
    lemma_paths_block_8();
    lemma_fetch_reached();
}

proof fn lemma_paths_block_14()
    ensures
        all_paths_fetch(0x34c, 2),
{
    lemma_paths_block_8();
    lemma_fetch_reached();
}

proof fn lemma_paths_block_15()
    ensures
        all_paths_fetch(0x54, 3),
        all_paths_fetch(0x202, 3),
        all_paths_fetch(0x20a, 3),
        all_paths_fetch(0x212, 3),
        all_paths_fetch(0x215, 3),
        all_paths_fetch(0x21f, 3),
        all_paths_fetch(0x229, 3),
        all_paths_fetch(0x303, 3),
{
    lemma_paths_block_10();
    lemma_paths_block_11();
    lemma_fetch_reached();
}

proof fn lemma_paths_block_16()
    ensures
        all_paths_fetch(0x30c, 3),
        all_paths_fetch(0x313, 3),
        all_paths_fetch(0x31b, 3),
        all_paths_fetch(0x323, 3),
        all_paths_fetch(0x32b, 3),
        all_paths_fetch(0x333, 3),
        all_paths_fetch(0x33b, 3),
        all_paths_fetch(0x343, 3),
{
    lemma_paths_block_12();
    lemma_paths_block_13();
    lemma_fetch_reached();
}

proof fn lemma_paths_block_17()
    ensures
        all_paths_fetch(0x34b, 3),
{
    lemma_paths_block_14();
    lemma_fetch_reached();
}

proof fn lemma_paths_block_18()
    ensures
        all_paths_fetch(0x209, 4),
        all_paths_fetch(0x211, 4),
        all_paths_fetch(0x21e, 4),
        all_paths_fetch(0x228, 4),
        all_paths_fetch(0x302, 4),
        all_paths_fetch(0x30b, 4),
        all_paths_fetch(0x312, 4),
        all_paths_fetch(0x31a, 4),
{
    lemma_paths_block_15();
    lemma_paths_block_16();
    lemma_fetch_reached();
}

proof fn lemma_paths_block_19()
    ensures
        all_paths_fetch(0x322, 4),
        all_paths_fetch(0x32a, 4),
        all_paths_fetch(0x332, 4),
        all_paths_fetch(0x33a, 4),
        all_paths_fetch(0x342, 4),
        all_paths_fetch(0x34a, 4),
{
    lemma_paths_block_16();
    lemma_paths_block_17();
    lemma_fetch_reached();
}

proof fn lemma_paths_block_20()
    ensures
        all_paths_fetch(0x131, 5),
        all_paths_fetch(0x134, 5),
        all_paths_fetch(0x137, 5),
        all_paths_fetch(0x13a, 5),
        all_paths_fetch(0x13d, 5),
        all_paths_fetch(0x140, 5),
        all_paths_fetch(0x143, 5),
        all_paths_fetch(0x146, 5),
{
    lemma_paths_block_4();
    lemma_paths_block_18();
    lemma_paths_block_19();
    lemma_paths_monotone(0x132, 1, 4);
    lemma_paths_monotone(0x135, 1, 4);
    lemma_paths_monotone(0x138, 1, 4);
    lemma_paths_monotone(0x13b, 1, 4);
    lemma_paths_monotone(0x13e, 1, 4);
    lemma_paths_monotone(0x141, 1, 4);
    lemma_paths_monotone(0x144, 1, 4);
    lemma_paths_monotone(0x147, 1, 4);
    lemma_fetch_reached();
}

proof fn lemma_paths_block_21()
    ensures
        all_paths_fetch(0x149, 5),
        all_paths_fetch(0x14c, 5),
        all_paths_fetch(0x208, 5),
        all_paths_fetch(0x210, 5),
        all_paths_fetch(0x21d, 5),
        all_paths_fetch(0x227, 5),
{
    lemma_paths_block_5();
    lemma_paths_block_18();
    lemma_paths_block_19();
    lemma_paths_monotone(0x14a, 1, 4);
    lemma_paths_monotone(0x14d, 1, 4);
    lemma_fetch_reached();
}

proof fn lemma_paths_block_22()
    ensures
        all_paths_fetch(0x130, 6),
        all_paths_fetch(0x133, 6),
        all_paths_fetch(0x136, 6),
        all_paths_fetch(0x139, 6),
        all_paths_fetch(0x13c, 6),
        all_paths_fetch(0x13f, 6),
        all_paths_fetch(0x142, 6),
        all_paths_fetch(0x145, 6),
{
    lemma_paths_block_11();
    lemma_paths_block_12();
    lemma_paths_block_13();
    lemma_paths_block_20();
    lemma_paths_monotone(0x300, 2, 5);
    lemma_paths_monotone(0x308, 2, 5);
    lemma_paths_monotone(0x310, 2, 5);
    lemma_paths_monotone(0x318, 2, 5);
    lemma_paths_monotone(0x320, 2, 5);
    lemma_paths_monotone(0x328, 2, 5);
    lemma_paths_monotone(0x330, 2, 5);
    lemma_paths_monotone(0x348, 2, 5);
    lemma_fetch_reached();
}

proof fn lemma_paths_block_23()
    ensures
        all_paths_fetch(0x148, 6),
        all_paths_fetch(0x14b, 6),
        all_paths_fetch(0x207, 6),
        all_paths_fetch(0x20f, 6),
        all_paths_fetch(0x21c, 6),
        all_paths_fetch(0x226, 6),
{
    lemma_paths_block_13();
    lemma_paths_block_21();
    lemma_paths_monotone(0x338, 2, 5);
    lemma_paths_monotone(0x340, 2, 5);
    lemma_fetch_reached();
}

proof fn lemma_paths_block_24()
    ensures
        all_paths_fetch(0x206, 7),
        all_paths_fetch(0x20e, 7),
        all_paths_fetch(0x21b, 7),
        all_paths_fetch(0x225, 7),
{
    lemma_paths_block_23();
    lemma_fetch_reached();
}

proof fn lemma_paths_block_25()
    ensures
        all_paths_fetch(0x205, 8),
        all_paths_fetch(0x20d, 8),
        all_paths_fetch(0x21a, 8),
        all_paths_fetch(0x224, 8),
{
    lemma_paths_block_24();
    lemma_fetch_reached();
}

proof fn lemma_paths_block_26()
    ensures
        all_paths_fetch(0x123, 9),
        all_paths_fetch(0x219, 9),
        all_paths_fetch(0x223, 9),
{
    lemma_paths_block_3();
    lemma_paths_block_25();
    lemma_paths_monotone(0x124, 1, 8);
    lemma_fetch_reached();
}

proof fn lemma_paths_block_27()
    ensures
        all_paths_fetch(0x122, 10),
        all_paths_fetch(0x218, 10),
        all_paths_fetch(0x222, 10),
{
    lemma_paths_block_25();
    lemma_paths_block_26();
    lemma_paths_monotone(0x205, 8, 9);
    lemma_fetch_reached();
}

proof fn lemma_paths_block_28()
    ensures
        all_paths_fetch(0x121, 11),
        all_paths_fetch(0x127, 11),
{
    lemma_paths_block_3();
    lemma_paths_block_15();
    lemma_paths_block_27();
    lemma_paths_monotone(0x128, 1, 10);
    lemma_paths_monotone(0x202, 3, 10);
    lemma_fetch_reached();
}

proof fn lemma_paths_block_29()
    ensures
        all_paths_fetch(0x120, 12),
        all_paths_fetch(0x126, 12),
{
    lemma_paths_block_10();
    lemma_paths_block_27();
    lemma_paths_block_28();
    lemma_paths_monotone(0x200, 2, 11);
    lemma_paths_monotone(0x218, 10, 11);
    lemma_fetch_reached();
}

proof fn lemma_paths_block_30()
    ensures
        all_paths_fetch(0x125, 13),
{
    lemma_paths_block_15();
    lemma_paths_block_29();
    lemma_paths_monotone(0x215, 3, 12);
    lemma_fetch_reached();
}

/// Every routine that the mapping ROM starts, but the halt loop, ends in
/// the fetch sequence within 16 moves on every path.
proof fn lemma_microprogram_paths()
    ensures
        forall|op: int| 0 <= op < 256 && op != 0x01 ==> all_paths_fetch(#[trigger] mapping_word(op) as int, 16),
{
    lemma_paths_block_0();
    lemma_paths_block_1();
    lemma_paths_block_2();
    lemma_paths_block_3();
    lemma_paths_block_4();
    lemma_paths_block_5();
    lemma_paths_block_6();
    lemma_paths_block_7();
    lemma_paths_block_8();
    lemma_paths_block_9();
    lemma_paths_block_10();
    lemma_paths_block_11();
    lemma_paths_block_12();
    lemma_paths_block_13();
    lemma_paths_block_14();
    lemma_paths_block_15();
    lemma_paths_block_16();
    lemma_paths_block_17();
    lemma_paths_block_18();
    lemma_paths_block_19();
    lemma_paths_block_20();
    lemma_paths_block_21();
    lemma_paths_block_22();
    lemma_paths_block_23();
    lemma_paths_block_24();
    lemma_paths_block_25();
    lemma_paths_block_26();
    lemma_paths_block_27();
    lemma_paths_block_28();
    lemma_paths_block_29();
    lemma_paths_block_30();
    lemma_paths_monotone(0x100, 1, 16);
    lemma_paths_monotone(0x102, 2, 16);
    lemma_paths_monotone(0x104, 2, 16);
    lemma_paths_monotone(0x106, 1, 16);
    lemma_paths_monotone(0x107, 1, 16);
    lemma_paths_monotone(0x108, 1, 16);
    lemma_paths_monotone(0x109, 1, 16);
    lemma_paths_monotone(0x110, 2, 16);
    lemma_paths_monotone(0x112, 2, 16);
    lemma_paths_monotone(0x114, 2, 16);
    lemma_paths_monotone(0x10a, 1, 16);
    lemma_paths_monotone(0x10b, 1, 16);
    lemma_paths_monotone(0x120, 12, 16);
    lemma_paths_monotone(0x125, 13, 16);
    lemma_paths_monotone(0x130, 6, 16);
    lemma_paths_monotone(0x133, 6, 16);
    lemma_paths_monotone(0x136, 6, 16);
    lemma_paths_monotone(0x139, 6, 16);
    lemma_paths_monotone(0x13c, 6, 16);
    lemma_paths_monotone(0x13f, 6, 16);
    lemma_paths_monotone(0x142, 6, 16);
    lemma_paths_monotone(0x145, 6, 16);
    lemma_paths_monotone(0x148, 6, 16);
    lemma_paths_monotone(0x14b, 6, 16);
    lemma_paths_monotone(0x30, 1, 16);
    lemma_paths_monotone(0x34, 2, 16);
    lemma_paths_monotone(0x38, 2, 16);
    lemma_paths_monotone(0x3c, 2, 16);
    lemma_paths_monotone(0x40, 2, 16);
    lemma_paths_monotone(0x44, 2, 16);
    lemma_paths_monotone(0x48, 2, 16);
    lemma_paths_monotone(0x4c, 2, 16);
    lemma_paths_monotone(0x50, 2, 16);
    lemma_paths_monotone(0x54, 3, 16);
    lemma_fetch_reached();
}

/// Every instruction but `HLT` hands control back to the fetch sequence
/// within 16 moves of the control unit as built, whatever its operand and
/// the flags, and never enters the halt loop on the way; `HLT` maps to the
/// halt loop, which moves nowhere else.
pub proof fn lemma_instructions_return_to_fetch(op: u8, cr: u32, ps: ProcessorStatus)
    ensures
        op != 0x01 ==> returns_to_fetch(mapping_word(op as int) as int, cr, ps, 16),
        mapping_word(0x01) == HLT_ADDR,
        built_next(HLT_ADDR as int, cr, ps) == HLT_ADDR,
{
    let f = microcode_fields(HLT_ADDR as int)->0;
    lemma_sequencing_fields(f.0, f.1, f.2, f.3, f.4, f.5, f.6, f.7);
    if op != 0x01 {
        lemma_microprogram_paths();
        lemma_paths_cover_run(mapping_word(op as int) as int, cr, ps, 16);
    }
}

} // verus!
