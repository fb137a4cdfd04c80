//! The text the simulator shows of its state: instruction words in
//! assembler form and control words as register-transfer actions.
use vstd::prelude::*;

use crate::consts::{
    ALU_ABS, ALU_ADC, ALU_ADD, ALU_AND, ALU_CMP, ALU_DEC, ALU_DIV, ALU_EXT16, ALU_EXT8, ALU_INC,
    ALU_INV, ALU_MOD, ALU_MUL, ALU_OR, ALU_PASS, ALU_SUB, ALU_XOR, BUS_IN_AC, BUS_IN_AR, BUS_IN_CR,
    BUS_IN_DR, BUS_IN_IP, BUS_IN_PS, BUS_IN_SP, BUS_OUT_AC, BUS_OUT_ALU, BUS_OUT_CR, BUS_OUT_DR,
    BUS_OUT_IP, BUS_OUT_SP, CNT_IP_INC, CNT_SP_DEC, CNT_SP_INC, MEM_READ, MEM_WAIT, MEM_WRITE,
    SEQ_JUMP, SEQ_MAP, SEQ_NEXT,
};
use crate::cpu::{CPU, CpuView, current_micro, sign_extend};
use crate::microcode::{MicroInstruction, mapping_entry, mapping_word};
use crate::text::{
    dec_digits, dec_text, hex_digits, lower_hex_digits, pad_right, pad_with, push_dec_digits, push_dec_i64,
    push_hex_digits, push_lower_hex_digits, push_padded_left, push_str, string_of,
};

verus! {

/// The mnemonic of an opcode of the processor.
pub open spec fn cpu_op_name(opcode: u8) -> Seq<char> {
    if opcode == 0x00 {
        "NOP"@
    } else if opcode == 0x01 {
        "HLT"@
    } else if opcode == 0x02 {
        "CLA"@
    } else if opcode == 0x03 {
        "CMA"@
    } else if opcode == 0x04 {
        "INV"@
    } else if opcode == 0x05 {
        "INC"@
    } else if opcode == 0x06 {
        "DEC"@
    } else if opcode == 0x07 {
        "ABS"@
    } else if opcode == 0x08 {
        "PUSH"@
    } else if opcode == 0x09 {
        "POP"@
    } else if opcode == 0x0A {
        "RET"@
    } else if opcode == 0x0B {
        "EXT8"@
    } else if opcode == 0x0C {
        "EXT16"@
    } else if opcode == 0x10 {
        "LD"@
    } else if opcode == 0x11 {
        "ST"@
    } else if opcode == 0x20 {
        "ADD"@
    } else if opcode == 0x21 {
        "ADC"@
    } else if opcode == 0x22 {
        "SUB"@
    } else if opcode == 0x23 {
        "MUL"@
    } else if opcode == 0x24 {
        "DIV"@
    } else if opcode == 0x25 {
        "MOD"@
    } else if opcode == 0x26 {
        "CMP"@
    } else if opcode == 0x27 {
        "AND"@
    } else if opcode == 0x28 {
        "OR"@
    } else if opcode == 0x29 {
        "XOR"@
    } else if opcode == 0x30 {
        "JMP"@
    } else if opcode == 0x31 {
        "JEQ"@
    } else if opcode == 0x32 {
        "JNE"@
    } else if opcode == 0x33 {
        "JLT"@
    } else if opcode == 0x34 {
        "JGE"@
    } else if opcode == 0x35 {
        "JCS"@
    } else if opcode == 0x36 {
        "JCC"@
    } else if opcode == 0x37 {
        "JVS"@
    } else if opcode == 0x38 {
        "JVC"@
    } else if opcode == 0x39 {
        "CALL"@
    } else {
        "???"@
    }
}

/// `{:#X}`: "0x" and the upper-case hexadecimal digits.
pub open spec fn alt_hex(n: u32) -> Seq<char> {
    "0x"@ + hex_digits(n as nat)
}

/// An instruction word in assembler form.
pub open spec fn disasm_text(word: u32) -> Seq<char> {
    let opcode = ((word >> 24u32) & 0xFFu32) as u8;
    let mode = ((word >> 21u32) & 7u32) as u8;
    let operand = word & 0x1FFFFFu32;
    let name = cpu_op_name(opcode);
    if opcode <= 0x0C || mode == 0 {
        name
    } else if mode == 1 {
        name + " #"@ + dec_text(sign_extend(operand) as int)
    } else if mode == 2 {
        name + " ["@ + alt_hex(operand) + "]"@
    } else if mode == 3 {
        name + " [SP+"@ + alt_hex(operand) + "]"@
    } else if mode == 4 {
        name + " ("@ + alt_hex(operand) + ")+"@
    } else if mode == 5 {
        name + " -("@ + alt_hex(operand) + ")"@
    } else {
        name + " ?mode"@ + dec_digits(mode as nat)
    }
}

/// The name of an ALU operation.
pub open spec fn alu_name(op: u8) -> Seq<char> {
    if op == ALU_ADD {
        "ADD"@
    } else if op == ALU_SUB {
        "SUB"@
    } else if op == ALU_MUL {
        "MUL"@
    } else if op == ALU_DIV {
        "DIV"@
    } else if op == ALU_MOD {
        "MOD"@
    } else if op == ALU_CMP {
        "CMP"@
    } else if op == ALU_AND {
        "AND"@
    } else if op == ALU_OR {
        "OR"@
    } else if op == ALU_XOR {
        "XOR"@
    } else if op == ALU_INV {
        "INV"@
    } else if op == ALU_ABS {
        "ABS"@
    } else if op == ALU_INC {
        "INC"@
    } else if op == ALU_DEC {
        "DEC"@
    } else if op == ALU_EXT8 {
        "EXT8"@
    } else if op == ALU_EXT16 {
        "EXT16"@
    } else if op == ALU_ADC {
        "ADC"@
    } else {
        "???"@
    }
}

pub open spec fn add_if(parts: Seq<Seq<char>>, b: bool, t: Seq<char>) -> Seq<Seq<char>> {
    if b {
        parts.push(t)
    } else {
        parts
    }
}

/// The bus source of a control word.
pub open spec fn source_parts(m: MicroInstruction) -> Seq<Seq<char>> {
    if m.bus_out == BUS_OUT_AC {
        seq!["AC->bus"@]
    } else if m.bus_out == BUS_OUT_DR {
        seq!["DR->bus"@]
    } else if m.bus_out == BUS_OUT_IP {
        seq!["IP->bus"@]
    } else if m.bus_out == BUS_OUT_SP {
        seq!["SP->bus"@]
    } else if m.bus_out == BUS_OUT_CR {
        seq!["CR->bus"@]
    } else if m.bus_out == BUS_OUT_ALU {
        seq!["ALU->bus"@]
    } else {
        Seq::empty()
    }
}

/// `p` followed by the bus destinations of a control word.
pub open spec fn dest_parts(p: Seq<Seq<char>>, m: MicroInstruction) -> Seq<Seq<char>> {
    let p1 = add_if(p, m.bus_in & BUS_IN_AC != 0, "AC<-bus"@);
    let p2 = add_if(p1, m.bus_in & BUS_IN_DR != 0, "DR<-bus"@);
    let p3 = add_if(p2, m.bus_in & BUS_IN_AR != 0, "AR<-bus"@);
    let p4 = add_if(p3, m.bus_in & BUS_IN_IP != 0, "IP<-bus"@);
    let p5 = add_if(p4, m.bus_in & BUS_IN_SP != 0, "SP<-bus"@);
    let p6 = add_if(p5, m.bus_in & BUS_IN_CR != 0, "CR<-bus"@);
    add_if(p6, m.bus_in & BUS_IN_PS != 0, "PS<-ALU"@)
}

/// `p` followed by the counter and memory actions of a control word.
pub open spec fn count_mem_parts(p: Seq<Seq<char>>, m: MicroInstruction) -> Seq<Seq<char>> {
    let p1 = add_if(p, m.cnt & CNT_IP_INC != 0, "IP++"@);
    let p2 = add_if(p1, m.cnt & CNT_SP_INC != 0, "SP++"@);
    let p3 = add_if(p2, m.cnt & CNT_SP_DEC != 0, "SP--"@);
    let p4 = add_if(p3, m.mem & MEM_READ != 0, "Rd"@);
    let p5 = add_if(p4, m.mem & MEM_WRITE != 0, "Wr"@);
    add_if(p5, m.mem & MEM_WAIT != 0, "Wait"@)
}

/// `p` followed by the ALU operation and the sequencing of a control word.
pub open spec fn alu_seq_parts(p: Seq<Seq<char>>, m: MicroInstruction) -> Seq<Seq<char>> {
    let p1 = add_if(p, m.alu != ALU_PASS, alu_name(m.alu));
    if m.seq_ctrl == SEQ_NEXT {
        p1.push("NEXT"@)
    } else if m.seq_ctrl == SEQ_JUMP {
        p1.push("JMP"@)
    } else if m.seq_ctrl == SEQ_MAP {
        p1.push("MAP"@)
    } else {
        p1
    }
}

/// The actions of a control word, in the order: bus source, bus
/// destinations, counters, memory, ALU operation, sequencing.
pub open spec fn micro_parts(m: MicroInstruction) -> Seq<Seq<char>> {
    alu_seq_parts(count_mem_parts(dest_parts(source_parts(m), m), m), m)
}

/// Words joined by single spaces.
pub open spec fn join_words(parts: Seq<Seq<char>>) -> Seq<char>
    decreases parts.len(),
{
    if parts.len() == 0 {
        Seq::empty()
    } else if parts.len() == 1 {
        parts[0]
    } else {
        join_words(parts.drop_last()) + " "@ + parts.last()
    }
}

/// A control word as register-transfer actions.
pub open spec fn micro_text(m: MicroInstruction) -> Seq<char> {
    join_words(micro_parts(m))
}

/// `{:#010x}`: "0x" and eight lower-case hexadecimal digits.
pub open spec fn hex_word(n: u32) -> Seq<char> {
    "0x"@ + pad_with(lower_hex_digits(n as nat), 8, '0')
}

pub open spec fn flag_text(b: bool) -> Seq<char> {
    if b {
        "1"@
    } else {
        "0"@
    }
}

/// The trace line of a tick: the tick count, the microprogram address and
/// its actions, the registers, the flags and the instruction register with
/// its instruction.
pub open spec fn trace_text(c: CpuView) -> Seq<char> {
    "TICK "@ + pad_with(dec_digits(c.ticks as nat), 6, ' ') + " | MPC=0x"@ + pad_with(
        lower_hex_digits(c.mpc as nat),
        3,
        '0',
    ) + " "@ + pad_right(micro_text(current_micro(c)), 30) + " | AC="@ + hex_word(c.ac as u32)
        + " DR="@ + hex_word(c.dr as u32) + " AR="@ + hex_word(c.ar) + " IP="@ + hex_word(c.ip)
        + " SP="@ + hex_word(c.sp) + " | I"@ + flag_text(c.ps.inp) + "Z"@ + flag_text(c.ps.z) + "N"@
        + flag_text(c.ps.n) + "C"@ + flag_text(c.ps.c) + "V"@ + flag_text(c.ps.v) + " | CR="@
        + hex_word(c.cr) + " "@ + disasm_text(c.cr)
}

/// Appends `{:#010x}` of `n`.
pub fn push_hex_word(out: &mut Vec<char>, n: u32)
    ensures
        final(out)@ == old(out)@ + hex_word(n),
{
    let ghost start = out@;
    push_str(out, "0x");
    let mut h: Vec<char> = Vec::new();
    push_lower_hex_digits(&mut h, n as u64);
    push_padded_left(out, &h, 8, '0');
    assert(out@ =~= start + hex_word(n));
}

pub fn push_flag(out: &mut Vec<char>, b: bool)
    ensures
        final(out)@ == old(out)@ + flag_text(b),
{
    if b {
        push_str(out, "1");
    } else {
        push_str(out, "0");
    }
}

fn push_part(parts: &mut Vec<&'static str>, b: bool, t: &'static str)
    ensures
        final(parts)@.map_values(|p: &str| p@) == add_if(old(parts)@.map_values(|p: &str| p@), b, t@),
{
    let ghost before = parts@;
    if b {
        parts.push(t);
        assert(parts@.map_values(|p: &str| p@) =~= before.map_values(|p: &str| p@).push(t@));
    }
}

/// Joins words with single spaces.
fn join(parts: &Vec<&'static str>) -> (r: String)
    ensures
        r@ == join_words(parts@.map_values(|p: &str| p@)),
{
    let ghost all = parts@.map_values(|p: &str| p@);
    let mut out: Vec<char> = Vec::new();
    let mut i: usize = 0;
    while i < parts.len()
        invariant
            i <= parts@.len(),
            all == parts@.map_values(|p: &str| p@),
            out@ == join_words(all.take(i as int)),
        decreases parts@.len() - i,
    {
        let ghost before = out@;
        assert(all.take(i + 1).drop_last() =~= all.take(i as int));
        if i > 0 {
            push_str(&mut out, " ");
        }
        push_str(&mut out, parts[i]);
        if i == 0 {
            assert(out@ =~= join_words(all.take(1)));
        } else {
            assert(out@ =~= join_words(all.take(i + 1)));
        }
        i = i + 1;
    }
    assert(all.take(i as int) =~= all);
    string_of(&out)
}

impl CPU {
    /// The mnemonic of an opcode.
    pub fn opcode_name(opcode: u8) -> (r: &'static str)
        ensures
            r@ == cpu_op_name(opcode),
    {
        match opcode {
            0x00 => "NOP",
            0x01 => "HLT",
            0x02 => "CLA",
            0x03 => "CMA",
            0x04 => "INV",
            0x05 => "INC",
            0x06 => "DEC",
            0x07 => "ABS",
            0x08 => "PUSH",
            0x09 => "POP",
            0x0A => "RET",
            0x0B => "EXT8",
            0x0C => "EXT16",
            0x10 => "LD",
            0x11 => "ST",
            0x20 => "ADD",
            0x21 => "ADC",
            0x22 => "SUB",
            0x23 => "MUL",
            0x24 => "DIV",
            0x25 => "MOD",
            0x26 => "CMP",
            0x27 => "AND",
            0x28 => "OR",
            0x29 => "XOR",
            0x30 => "JMP",
            0x31 => "JEQ",
            0x32 => "JNE",
            0x33 => "JLT",
            0x34 => "JGE",
            0x35 => "JCS",
            0x36 => "JCC",
            0x37 => "JVS",
            0x38 => "JVC",
            0x39 => "CALL",
            _ => "???",
        }
    }

    /// An instruction word in assembler form.
    pub fn disassemble(word: u32) -> (r: String)
        ensures
            r@ == disasm_text(word),
    {
        let opcode = ((word >> 24) & 0xFF) as u8;
        let mode = ((word >> 21) & 0x7) as u8;
        let operand = word & 0x1FFFFF;
        let name = Self::opcode_name(opcode);
        let mut out: Vec<char> = Vec::new();
        push_str(&mut out, name);
        if opcode <= 0x0C || mode == 0 {
        } else if mode == 1 {
            push_str(&mut out, " #");
            push_dec_i64(&mut out, Self::sign_extend_21(operand) as i64);
        } else if mode == 2 {
            push_str(&mut out, " [0x");
            push_hex_digits(&mut out, operand as u64);
            push_str(&mut out, "]");
        } else if mode == 3 {
            push_str(&mut out, " [SP+0x");
            push_hex_digits(&mut out, operand as u64);
            push_str(&mut out, "]");
        } else if mode == 4 {
            push_str(&mut out, " (0x");
            push_hex_digits(&mut out, operand as u64);
            push_str(&mut out, ")+");
        } else if mode == 5 {
            push_str(&mut out, " -(0x");
            push_hex_digits(&mut out, operand as u64);
            push_str(&mut out, ")");
        } else {
            push_str(&mut out, " ?mode");
            push_dec_digits(&mut out, mode as u64);
        }
        proof {
            reveal_strlit(" [0x");
            reveal_strlit(" [SP+0x");
            reveal_strlit(" (0x");
            reveal_strlit(" -(0x");
            reveal_strlit(" [");
            reveal_strlit(" [SP+");
            reveal_strlit(" (");
            reveal_strlit(" -(");
            reveal_strlit("0x");
        }
        assert(out@ =~= disasm_text(word));
        string_of(&out)
    }

    /// A control word as register-transfer actions.
    pub fn micro_action(micro: &MicroInstruction) -> (r: String)
        ensures
            r@ == micro_text(*micro),
    {
        let mut parts: Vec<&'static str> = Vec::new();
        push_source(&mut parts, micro);
        push_dests(&mut parts, micro);
        push_count_mem(&mut parts, micro);
        push_alu_seq(&mut parts, micro);
        join(&parts)
    }
}

fn push_source(parts: &mut Vec<&'static str>, micro: &MicroInstruction)
    requires
        old(parts)@.len() == 0,
    ensures
        final(parts)@.map_values(|p: &str| p@) == source_parts(*micro),
{
    let first = if micro.bus_out == BUS_OUT_AC {
        "AC->bus"
    } else if micro.bus_out == BUS_OUT_DR {
        "DR->bus"
    } else if micro.bus_out == BUS_OUT_IP {
        "IP->bus"
    } else if micro.bus_out == BUS_OUT_SP {
        "SP->bus"
    } else if micro.bus_out == BUS_OUT_CR {
        "CR->bus"
    } else {
        "ALU->bus"
    };
    let known = micro.bus_out == BUS_OUT_AC || micro.bus_out == BUS_OUT_DR || micro.bus_out
        == BUS_OUT_IP || micro.bus_out == BUS_OUT_SP || micro.bus_out == BUS_OUT_CR
        || micro.bus_out == BUS_OUT_ALU;
    push_part(parts, known, first);
    assert(parts@.map_values(|p: &str| p@) =~= source_parts(*micro));
}

fn push_dests(parts: &mut Vec<&'static str>, micro: &MicroInstruction)
    ensures
        final(parts)@.map_values(|p: &str| p@) == dest_parts(old(parts)@.map_values(|p: &str| p@), *micro),
{
    push_part(parts, micro.bus_in & BUS_IN_AC != 0, "AC<-bus");
    push_part(parts, micro.bus_in & BUS_IN_DR != 0, "DR<-bus");
    push_part(parts, micro.bus_in & BUS_IN_AR != 0, "AR<-bus");
    push_part(parts, micro.bus_in & BUS_IN_IP != 0, "IP<-bus");
    push_part(parts, micro.bus_in & BUS_IN_SP != 0, "SP<-bus");
    push_part(parts, micro.bus_in & BUS_IN_CR != 0, "CR<-bus");
    push_part(parts, micro.bus_in & BUS_IN_PS != 0, "PS<-ALU");
}

fn push_count_mem(parts: &mut Vec<&'static str>, micro: &MicroInstruction)
    ensures
        final(parts)@.map_values(|p: &str| p@) == count_mem_parts(
            old(parts)@.map_values(|p: &str| p@),
            *micro,
        ),
{
    push_part(parts, micro.cnt & CNT_IP_INC != 0, "IP++");
    push_part(parts, micro.cnt & CNT_SP_INC != 0, "SP++");
    push_part(parts, micro.cnt & CNT_SP_DEC != 0, "SP--");
    push_part(parts, micro.mem & MEM_READ != 0, "Rd");
    push_part(parts, micro.mem & MEM_WRITE != 0, "Wr");
    push_part(parts, micro.mem & MEM_WAIT != 0, "Wait");
}

fn push_alu_seq(parts: &mut Vec<&'static str>, micro: &MicroInstruction)
    ensures
        final(parts)@.map_values(|p: &str| p@) == alu_seq_parts(
            old(parts)@.map_values(|p: &str| p@),
            *micro,
        ),
{
    let op = match micro.alu {
        ALU_ADD => "ADD",
        ALU_SUB => "SUB",
        ALU_MUL => "MUL",
        ALU_DIV => "DIV",
        ALU_MOD => "MOD",
        ALU_CMP => "CMP",
        ALU_AND => "AND",
        ALU_OR => "OR",
        ALU_XOR => "XOR",
        ALU_INV => "INV",
        ALU_ABS => "ABS",
        ALU_INC => "INC",
        ALU_DEC => "DEC",
        ALU_EXT8 => "EXT8",
        ALU_EXT16 => "EXT16",
        ALU_ADC => "ADC",
        _ => "???",
    };
    push_part(parts, micro.alu != ALU_PASS, op);
    let seq_word = if micro.seq_ctrl == SEQ_NEXT {
        "NEXT"
    } else if micro.seq_ctrl == SEQ_JUMP {
        "JMP"
    } else {
        "MAP"
    };
    push_part(
        parts,
        micro.seq_ctrl == SEQ_NEXT || micro.seq_ctrl == SEQ_JUMP || micro.seq_ctrl == SEQ_MAP,
        seq_word,
    );
}

/// An opcode has a routine in the mapping ROM exactly when it has a
/// mnemonic; every other opcode maps to address 0, the fetch sequence.
pub proof fn lemma_mapped_iff_named(op: u8)
    ensures
        (mapping_word(op as int) != 0) == (cpu_op_name(op) != "???"@),
{
    reveal_strlit("???");
    reveal_strlit("NOP");
    reveal_strlit("HLT");
    reveal_strlit("CLA");
    reveal_strlit("CMA");
    reveal_strlit("INV");
    reveal_strlit("INC");
    reveal_strlit("DEC");
    reveal_strlit("ABS");
    reveal_strlit("PUSH");
    reveal_strlit("POP");
    reveal_strlit("RET");
    reveal_strlit("EXT8");
    reveal_strlit("EXT16");
    reveal_strlit("LD");
    reveal_strlit("ST");
    reveal_strlit("ADD");
    reveal_strlit("ADC");
    reveal_strlit("SUB");
    reveal_strlit("MUL");
    reveal_strlit("DIV");
    reveal_strlit("MOD");
    reveal_strlit("CMP");
    reveal_strlit("AND");
    reveal_strlit("OR");
    reveal_strlit("XOR");
    reveal_strlit("JMP");
    reveal_strlit("JEQ");
    reveal_strlit("JNE");
    reveal_strlit("JLT");
    reveal_strlit("JGE");
    reveal_strlit("JCS");
    reveal_strlit("JCC");
    reveal_strlit("JVS");
    reveal_strlit("JVC");
    reveal_strlit("CALL");
    if mapping_entry(op as int) is Some {
        assert(mapping_word(op as int) != 0);
        assert(cpu_op_name(op)[0] != '?');
    } else {
        assert(mapping_word(op as int) == 0);
        assert(cpu_op_name(op) == "???"@);
    }
}

} // verus!
