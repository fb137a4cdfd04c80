//! The processor: registers, ALU, bus and the clocked execution of the
//! microprogram against the memory controller.
#![allow(clippy::upper_case_acronyms, non_snake_case)]
use vstd::prelude::*;

use crate::consts::{
    ALU_ABS, ALU_ADC, ALU_ADD, ALU_AND, ALU_CMP, ALU_DEC, ALU_DIV, ALU_EXT16, ALU_EXT8, ALU_INC,
    ALU_INV, ALU_MOD, ALU_MUL, ALU_OR, ALU_PASS, ALU_SUB, ALU_XOR, BUS_IN_AC, BUS_IN_AR, BUS_IN_CR,
    BUS_IN_DR, BUS_IN_IP, BUS_IN_PS, BUS_IN_SP, BUS_OUT_AC, BUS_OUT_ALU, BUS_OUT_CR, BUS_OUT_DR,
    BUS_OUT_IP, BUS_OUT_SP, CNT_IP_INC, CNT_SP_DEC, CNT_SP_INC, COND_UNCOND, MEM_READ, MEM_WAIT,
    MEM_WRITE, ProcessorStatus, RAM_WORDS, IN_PORT, OUT_PORT, SEQ_JUMP,
};
use crate::mem::{MemController, MemView, mem_read, mem_tick, mem_write, mem_load, valid_addr};
use crate::microcode::{
    HLT_ADDR, MicroInstruction, MicroProcessor, decode_word, microcode_word, mapping_word,
    next_address,
};
use crate::arith::{abs_int, div_i32, out_of_i32, rem_i32, trunc_div, trunc_rem};
use crate::trace::{push_flag, push_hex_word, trace_text};
use crate::text::{chars_of, push_dec_digits, push_lower_hex_digits, push_padded_left, push_padded_right, push_str, string_of};

verus! {

/// What the ALU computes: a value and the flags zero, negative, carry and
/// overflow.
#[derive(Clone, Copy, Debug, PartialEq, Eq, Structural)]
pub struct AluResult {
    pub value: i32,
    pub z: bool,
    pub n: bool,
    pub c: bool,
    pub v: bool,
}

struct Registers {
    AC: i32,
    DR: i32,
    CR: u32,
    AR: u32,
    SP: u32,
    IP: u32,
    PS: ProcessorStatus,
}

pub struct CPU {
    mpu: MicroProcessor,
    registers: Registers,
    mem_controller: MemController,
    ticks: u64,
    halted: bool,
    alu_latch: Option<AluResult>,
    tracing: bool,
}

/// The whole state of the processor as a mathematical value.
pub struct CpuView {
    pub ac: i32,
    pub dr: i32,
    pub cr: u32,
    pub ar: u32,
    pub sp: u32,
    pub ip: u32,
    pub ps: ProcessorStatus,
    pub mpc: u16,
    pub microcode: Seq<u64>,
    pub mapping: Seq<u16>,
    pub mem: MemView,
    pub ticks: u64,
    pub halted: bool,
    pub latch: Option<AluResult>,
    pub tracing: bool,
}

// ---------------------------------------------------------------------------
// The ALU
// ---------------------------------------------------------------------------

/// A result with the zero and negative flags of its value.
pub open spec fn with_flags(value: i32, c: bool, v: bool) -> AluResult {
    AluResult { value, z: value == 0, n: value < 0, c, v }
}

/// The ALU operations that abort: an add-with-carry whose operand (the bus
/// plus the carry) does not fit, and `i32::MIN` divided by -1 (quotient or
/// remainder).
pub open spec fn alu_faults(op: u8, ac: i32, bus: i32, carry: bool) -> bool {
    ||| op == ALU_ADC && carry && bus == i32::MAX
    ||| (op == ALU_DIV || op == ALU_MOD) && ac == i32::MIN && bus == -1
}

/// What the ALU computes for operation `op` from the accumulator, the bus
/// and the carry flag.
#[verifier::opaque]
pub open spec fn alu(op: u8, ac: i32, bus: i32, carry: bool) -> AluResult {
    if op == ALU_ADC {
        let operand = bus + if carry {
            1int
        } else {
            0int
        };
        let o = out_of_i32(ac + operand);
        with_flags((ac + operand) as i32, o, o)
    } else if op == ALU_PASS {
        with_flags(bus, false, false)
    } else if op == ALU_ADD || op == ALU_INC {
        let operand: int = if op == ALU_INC {
            1
        } else {
            bus as int
        };
        let o = out_of_i32(ac + operand);
        with_flags((ac + operand) as i32, o, o)
    } else if op == ALU_SUB || op == ALU_CMP || op == ALU_DEC {
        let operand: int = if op == ALU_DEC {
            1
        } else {
            bus as int
        };
        let o = out_of_i32(ac - operand);
        with_flags((ac - operand) as i32, o, o)
    } else if op == ALU_MUL {
        with_flags((ac * bus) as i32, false, false)
    } else if op == ALU_DIV {
        with_flags(
            if bus == 0 {
                0
            } else {
                trunc_div(ac as int, bus as int) as i32
            },
            false,
            false,
        )
    } else if op == ALU_MOD {
        with_flags(
            if bus == 0 {
                0
            } else {
                trunc_rem(ac as int, bus as int) as i32
            },
            false,
            false,
        )
    } else if op == ALU_AND {
        with_flags(ac & bus, false, false)
    } else if op == ALU_OR {
        with_flags(ac | bus, false, false)
    } else if op == ALU_XOR {
        with_flags(ac ^ bus, false, false)
    } else if op == ALU_INV {
        with_flags((-ac) as i32, ac == 0, ac == i32::MIN)
    } else if op == ALU_ABS {
        with_flags(abs_int(ac as int) as i32, false, ac == i32::MIN)
    } else if op == ALU_EXT8 {
        with_flags((ac as i8) as i32, false, false)
    } else if op == ALU_EXT16 {
        with_flags((ac as i16) as i32, false, false)
    } else {
        AluResult { value: 0, z: true, n: false, c: false, v: false }
    }
}

/// The 21-bit immediate `val` sign-extended to 32 bits.
pub open spec fn sign_extend(val: u32) -> i32 {
    if val & 0x100000u32 != 0 {
        (val | 0xFFE00000u32) as i32
    } else {
        val as i32
    }
}

// ---------------------------------------------------------------------------
// One clock tick
// ---------------------------------------------------------------------------

/// The value that the register selected by `bus_out` drives on the bus
/// (the first selected one in the order AC, DR, IP, SP, CR, ALU).
#[verifier::opaque]
pub open spec fn drive(c: CpuView, bus_out: u8) -> i32 {
    if bus_out & BUS_OUT_AC != 0 {
        c.ac
    } else if bus_out & BUS_OUT_DR != 0 {
        c.dr
    } else if bus_out & BUS_OUT_IP != 0 {
        c.ip as i32
    } else if bus_out & BUS_OUT_SP != 0 {
        c.sp as i32
    } else if bus_out & BUS_OUT_CR != 0 {
        sign_extend(c.cr & 0x1FFFFFu32)
    } else if bus_out & BUS_OUT_ALU != 0 {
        match c.latch {
            Some(r) => r.value,
            None => 0,
        }
    } else {
        0
    }
}

/// The control word at the current microprogram address.
pub open spec fn current_micro(c: CpuView) -> MicroInstruction {
    decode_word(c.microcode[c.mpc as int])
}

/// Whether the tick only waits for the memory.
pub open spec fn waits(c: CpuView) -> bool {
    current_micro(c).mem & MEM_WAIT != 0 && c.mem.wait != 0
}

/// The value on the internal bus and the flags that go with it.
#[verifier::opaque]
pub open spec fn bus_result(c: CpuView, m: MicroInstruction) -> AluResult {
    let bus = drive(c, m.bus_out);
    if m.alu != ALU_PASS {
        alu(m.alu, c.ac, bus, c.ps.c)
    } else if m.bus_out & BUS_OUT_ALU != 0 {
        match c.latch {
            Some(l) => l,
            None => AluResult { value: 0, z: true, n: false, c: false, v: false },
        }
    } else {
        AluResult { value: bus, z: bus == 0, n: bus < 0, c: false, v: false }
    }
}

/// The address register after the bus transfer.
pub open spec fn next_ar(c: CpuView) -> u32 {
    transfer(c, current_micro(c)).ar
}

/// The bus transfer of a tick: the bus value (through the ALU when the
/// control word selects an operation, which also latches the result) is
/// written to the selected registers and, when selected, to the flags.
pub open spec fn transfer(c: CpuView, m: MicroInstruction) -> CpuView {
    let r = bus_result(c, m);
    let wv = r.value;
    CpuView {
        ac: if m.bus_in & BUS_IN_AC != 0 {
            wv
        } else {
            c.ac
        },
        dr: if m.bus_in & BUS_IN_DR != 0 {
            wv
        } else {
            c.dr
        },
        ar: if m.bus_in & BUS_IN_AR != 0 {
            wv as u32
        } else {
            c.ar
        },
        ip: if m.bus_in & BUS_IN_IP != 0 {
            wv as u32
        } else {
            c.ip
        },
        sp: if m.bus_in & BUS_IN_SP != 0 {
            wv as u32
        } else {
            c.sp
        },
        cr: if m.bus_in & BUS_IN_CR != 0 {
            wv as u32
        } else {
            c.cr
        },
        ps: if m.bus_in & BUS_IN_PS != 0 {
            ProcessorStatus { z: r.z, n: r.n, c: r.c, v: r.v, ..c.ps }
        } else {
            c.ps
        },
        latch: if m.alu != ALU_PASS {
            Some(alu(m.alu, c.ac, drive(c, m.bus_out), c.ps.c))
        } else {
            c.latch
        },
        ..c
    }
}

/// The memory access of a tick: a read into DR (unless DR took the bus
/// value), then a write of DR, both at AR.
pub open spec fn memory_access(c: CpuView, m: MicroInstruction) -> CpuView {
    let (mem1, d) = if m.mem & MEM_READ != 0 {
        mem_read(c.mem, c.ar)
    } else {
        (c.mem, c.dr)
    };
    let dr = if m.mem & MEM_READ != 0 && m.bus_in & BUS_IN_DR == 0 {
        d
    } else {
        c.dr
    };
    let mem2 = if m.mem & MEM_WRITE != 0 {
        mem_write(mem1, c.ar, dr)
    } else {
        mem1
    };
    CpuView { dr, mem: mem2, ..c }
}

/// The counters of a tick: IP up by 4, SP up or down by 4 (wrapping).
pub open spec fn count(c: CpuView, m: MicroInstruction) -> CpuView {
    let sp1 = if m.cnt & CNT_SP_INC != 0 {
        c.sp.wrapping_add(4)
    } else {
        c.sp
    };
    CpuView {
        ip: if m.cnt & CNT_IP_INC != 0 {
            c.ip.wrapping_add(4)
        } else {
            c.ip
        },
        sp: if m.cnt & CNT_SP_DEC != 0 {
            sp1.wrapping_sub(4)
        } else {
            sp1
        },
        ..c
    }
}

/// Everything a tick that does not wait does before the sequencer moves on.
pub open spec fn datapath(c: CpuView) -> CpuView {
    let m = current_micro(c);
    count(memory_access(transfer(c, m), m), m)
}

/// Whether the microprogram word at `HLT_ADDR` jumps to itself
/// unconditionally.
pub open spec fn halt_loop(microcode: Seq<u64>) -> bool {
    let w = decode_word(microcode[HLT_ADDR as int]);
    w.seq_ctrl == SEQ_JUMP && w.seq_cond == COND_UNCOND && w.next_addr == HLT_ADDR
}

/// One clock tick of the processor.
pub open spec fn cpu_step(c: CpuView) -> CpuView {
    if c.halted {
        c
    } else if waits(c) {
        CpuView { mem: mem_tick(c.mem), ticks: (c.ticks + 1) as u64, ..c }
    } else {
        let d = datapath(c);
        if current_micro(c).mem & MEM_WAIT != 0 && d.mem.wait != 0 {
            CpuView { ticks: (c.ticks + 1) as u64, ..d }
        } else {
            let ps = ProcessorStatus { inp: d.mem.input.len() > 0, ..d.ps };
            let mpc = next_address(c.mpc, c.microcode[c.mpc as int], c.mapping, d.cr, ps);
            CpuView {
                ps,
                mpc,
                halted: mpc == HLT_ADDR && halt_loop(c.microcode),
                ticks: (c.ticks + 1) as u64,
                ..d
            }
        }
    }
}

/// The states from which a tick aborts: a microprogram address past the
/// microprogram, an ALU operation that aborts, a memory access to an address
/// that is neither a port nor in RAM, or a tick counter that cannot count
/// one more tick.
pub open spec fn step_faults(c: CpuView) -> bool {
    &&& !c.halted
    &&& {
        ||| c.mpc >= 2048
        ||| c.ticks == u64::MAX
        ||| !waits(c) && {
            let m = current_micro(c);
            ||| m.alu != ALU_PASS && alu_faults(m.alu, c.ac, drive(c, m.bus_out), c.ps.c)
            ||| (m.mem & MEM_READ != 0 || m.mem & MEM_WRITE != 0) && !valid_addr(next_ar(c))
        }
    }
}

/// The state after ticking until the processor halts, a tick would abort,
/// or the tick counter is full.
pub open spec fn run_until_halt(c: CpuView) -> CpuView
    decreases u64::MAX - c.ticks,
{
    if c.halted || step_faults(c) || c.ticks == u64::MAX {
        c
    } else if cpu_step(c).ticks > c.ticks {
        run_until_halt(cpu_step(c))
    } else {
        c
    }
}



// ---------------------------------------------------------------------------
// Laws of the clock
// ---------------------------------------------------------------------------

/// A halted processor stays as it is.
pub proof fn lemma_halted_stays(c: CpuView)
    requires
        c.halted,
    ensures
        cpu_step(c) == c,
{
}

/// A tick of a running processor counts exactly one tick, and leaves the
/// microprogram and the mapping ROM as they are.
pub proof fn lemma_tick_counts(c: CpuView)
    requires
        !c.halted,
        c.ticks < u64::MAX,
    ensures
        cpu_step(c).ticks == c.ticks + 1,
        cpu_step(c).microcode == c.microcode,
        cpu_step(c).mapping == c.mapping,
{
}

/// A tick only appends to the output: what was written to the output port
/// stays.
pub proof fn lemma_output_only_grows(c: CpuView)
    ensures
        c.mem.output.is_prefix_of(cpu_step(c).mem.output),
{
    let m = current_micro(c);
    let t = transfer(c, m);
    let (m1, d) = if m.mem & MEM_READ != 0 {
        mem_read(t.mem, t.ar)
    } else {
        (t.mem, t.dr)
    };
    assert(m1.output == c.mem.output);
    assert(c.mem.output.is_prefix_of(cpu_step(c).mem.output)) by {
        assert(c.mem.output.is_prefix_of(c.mem.output.push(0))) by {
            assert(c.mem.output.push(0).subrange(0, c.mem.output.len() as int) =~= c.mem.output);
        }
        assert(c.mem.output.subrange(0, c.mem.output.len() as int) =~= c.mem.output);
        assert forall|v: i32| #[trigger] c.mem.output.push(v).subrange(0, c.mem.output.len() as int)
            =~= c.mem.output by {}
    }
}

/// Running to the end only appends to the output.
pub proof fn lemma_run_output_only_grows(c: CpuView)
    ensures
        c.mem.output.is_prefix_of(run_until_halt(c).mem.output),
    decreases u64::MAX - c.ticks,
{
    if c.halted || step_faults(c) || c.ticks == u64::MAX {
        assert(c.mem.output.subrange(0, c.mem.output.len() as int) =~= c.mem.output);
    } else if cpu_step(c).ticks > c.ticks {
        lemma_output_only_grows(c);
        lemma_run_output_only_grows(cpu_step(c));
        let a = c.mem.output;
        let b = cpu_step(c).mem.output;
        let r = run_until_halt(cpu_step(c)).mem.output;
        assert(r.subrange(0, a.len() as int) =~= r.subrange(0, b.len() as int).subrange(0, a.len() as int));
    } else {
        assert(c.mem.output.subrange(0, c.mem.output.len() as int) =~= c.mem.output);
    }
}

/// Where the run stops: halted, before a tick that would abort, or with the
/// tick counter full.
pub proof fn lemma_run_stops(c: CpuView)
    ensures
        ({
            let r = run_until_halt(c);
            r.halted || step_faults(r) || r.ticks == u64::MAX
        }),
    decreases u64::MAX - c.ticks,
{
    if c.halted || step_faults(c) || c.ticks == u64::MAX {
    } else {
        lemma_tick_counts(c);
        lemma_run_stops(cpu_step(c));
    }
}


/// The zero and negative flags of every ALU result describe its value.
pub proof fn lemma_alu_flags(op: u8, ac: i32, bus: i32, carry: bool)
    ensures
        alu(op, ac, bus, carry).z == (alu(op, ac, bus, carry).value == 0),
        alu(op, ac, bus, carry).n == (alu(op, ac, bus, carry).value < 0),
{
    reveal(alu);
}

/// The operations without a carry (multiplication, division, the bitwise
/// and the sign-extending ones, and the pass-through) clear carry and
/// overflow; addition and subtraction set both exactly when the exact result
/// leaves `i32`, and their value is that result wrapped to 32 bits.
pub proof fn lemma_alu_carry(op: u8, ac: i32, bus: i32, carry: bool)
    ensures
        (op == ALU_PASS || op == ALU_MUL || op == ALU_DIV || op == ALU_MOD || op == ALU_AND || op
            == ALU_OR || op == ALU_XOR || op == ALU_EXT8 || op == ALU_EXT16) ==> !alu(
            op,
            ac,
            bus,
            carry,
        ).c && !alu(op, ac, bus, carry).v,
        op == ALU_ADD ==> alu(op, ac, bus, carry).c == out_of_i32(ac + bus) && alu(
            op,
            ac,
            bus,
            carry,
        ).v == out_of_i32(ac + bus) && alu(op, ac, bus, carry).value == (ac + bus) as i32,
        (op == ALU_SUB || op == ALU_CMP) ==> alu(op, ac, bus, carry).c == out_of_i32(ac - bus)
            && alu(op, ac, bus, carry).v == out_of_i32(ac - bus) && alu(op, ac, bus, carry).value
            == (ac - bus) as i32,
{
    reveal(alu);
}

/// What each ALU operation computes from the accumulator `ac`, the bus
/// value `bus` and the carry: sum and difference wrapped to 32 bits
/// (`CMP` computes the difference too); bitwise and, or and exclusive or; the bus
/// value passed through; product, increment, decrement, negation and the
/// sum with the carry, wrapped to 32 bits; the quotient and remainder
/// rounded toward zero (0 for a zero divisor); the absolute value
/// (wrapped); the low 8 or 16 bits sign-extended.
pub proof fn lemma_alu_values(ac: i32, bus: i32, carry: bool)
    ensures
        alu(ALU_ADD, ac, bus, carry).value == (ac + bus) as i32,
        alu(ALU_SUB, ac, bus, carry).value == (ac - bus) as i32,
        alu(ALU_CMP, ac, bus, carry).value == (ac - bus) as i32,
        alu(ALU_AND, ac, bus, carry).value == ac & bus,
        alu(ALU_OR, ac, bus, carry).value == ac | bus,
        alu(ALU_XOR, ac, bus, carry).value == ac ^ bus,
        alu(ALU_PASS, ac, bus, carry).value == bus,
        alu(ALU_MUL, ac, bus, carry).value == (ac * bus) as i32,
        alu(ALU_INC, ac, bus, carry).value == (ac + 1) as i32,
        alu(ALU_DEC, ac, bus, carry).value == (ac - 1) as i32,
        alu(ALU_INV, ac, bus, carry).value == (-ac) as i32,
        alu(ALU_ADC, ac, bus, carry).value == (ac + bus + if carry { 1int } else { 0int }) as i32,
        bus != 0 ==> alu(ALU_DIV, ac, bus, carry).value == trunc_div(ac as int, bus as int) as i32,
        bus != 0 ==> alu(ALU_MOD, ac, bus, carry).value == trunc_rem(ac as int, bus as int) as i32,
        alu(ALU_DIV, ac, 0, carry).value == 0,
        alu(ALU_MOD, ac, 0, carry).value == 0,
        alu(ALU_ABS, ac, bus, carry).value == abs_int(ac as int) as i32,
        alu(ALU_EXT8, ac, bus, carry).value == (ac as i8) as i32,
        alu(ALU_EXT16, ac, bus, carry).value == (ac as i16) as i32,
{
    reveal(alu);
}

/// Exclusive or with the same bus value twice gives the accumulator back,
/// and exclusive or is what or has that and lacks.
pub proof fn lemma_alu_xor_laws(ac: i32, bus: i32, carry: bool)
    ensures
        alu(ALU_XOR, alu(ALU_XOR, ac, bus, carry).value, bus, carry).value == ac,
        alu(ALU_XOR, ac, bus, carry).value == alu(ALU_OR, ac, bus, carry).value & !alu(
            ALU_AND,
            ac,
            bus,
            carry,
        ).value,
        alu(ALU_XOR, ac, ac, carry).value == 0,
{
    lemma_alu_values(ac, bus, carry);
    lemma_alu_values(ac ^ bus, bus, carry);
    lemma_alu_values(ac, ac, carry);
    assert((ac ^ bus) ^ bus == ac) by (bit_vector);
    assert(ac ^ bus == (ac | bus) & !(ac & bus)) by (bit_vector);
    assert(ac ^ ac == 0) by (bit_vector);
}

/// Only `ADC` reads the carry, and `CMP` computes what `SUB` does.
pub proof fn lemma_alu_carry_only_adc(op: u8, ac: i32, bus: i32, carry: bool)
    ensures
        op != ALU_ADC ==> alu(op, ac, bus, carry) == alu(op, ac, bus, false),
        alu(ALU_CMP, ac, bus, carry) == alu(ALU_SUB, ac, bus, carry),
{
    reveal(alu);
}

/// A tick that waits for the memory only counts down the memory's wait and
/// counts the tick.
pub proof fn lemma_wait_tick(c: CpuView)
    requires
        !c.halted,
        waits(c),
    ensures
        cpu_step(c) == (CpuView { mem: mem_tick(c.mem), ticks: (c.ticks + 1) as u64, ..c }),
{
}

/// `n` ticks.
pub open spec fn ticks_from(c: CpuView, n: nat) -> CpuView
    decreases n,
{
    if n == 0 {
        c
    } else {
        ticks_from(cpu_step(c), (n - 1) as nat)
    }
}

/// Once halted, the processor stays as it is through any number of ticks.
pub proof fn lemma_halted_forever(c: CpuView, n: nat)
    requires
        c.halted,
    ensures
        ticks_from(c, n) == c,
    decreases n,
{
    if n > 0 {
        lemma_halted_forever(cpu_step(c), (n - 1) as nat);
    }
}

/// A halted processor sits in the halt loop of the microprogram.
pub open spec fn halt_invariant(c: CpuView) -> bool {
    c.halted ==> c.mpc == HLT_ADDR
}

/// Every tick keeps a halted processor in the halt loop, so every state
/// reached by ticks from one that is not halted (such as the processor at
/// reset) keeps it too.
pub proof fn lemma_halt_invariant(c: CpuView, n: nat)
    requires
        halt_invariant(c),
    ensures
        halt_invariant(cpu_step(c)),
        halt_invariant(ticks_from(c, n)),
    decreases n,
{
    if n > 0 {
        lemma_halt_invariant(cpu_step(c), (n - 1) as nat);
    }
}

/// The values a tick writes to the output port: the data register (after
/// the tick's read) when the tick writes and the address register points at
/// the port.
pub open spec fn out_written(c: CpuView) -> Seq<i32> {
    let m = current_micro(c);
    let t = transfer(c, m);
    if !c.halted && !waits(c) && m.mem & MEM_WRITE != 0 && t.ar == OUT_PORT {
        seq![memory_access(t, m).dr]
    } else {
        Seq::empty()
    }
}

/// The output grows by exactly what the tick writes to the output port.
pub proof fn lemma_output_is_port_writes(c: CpuView)
    ensures
        cpu_step(c).mem.output == c.mem.output + out_written(c),
{
    let m = current_micro(c);
    let t = transfer(c, m);
    assert(t.mem == c.mem);
    if !c.halted && !waits(c) {
        if m.mem & MEM_READ != 0 {
            assert(mem_read(t.mem, t.ar).0.output == c.mem.output);
        }
    }
    assert(c.mem.output + Seq::<i32>::empty() =~= c.mem.output);
}

/// The values that `n` ticks from `c` write to the output port, in order.
pub open spec fn out_written_over(c: CpuView, n: nat) -> Seq<i32>
    decreases n,
{
    if n == 0 {
        Seq::empty()
    } else {
        out_written(c) + out_written_over(cpu_step(c), (n - 1) as nat)
    }
}

/// Over any number of ticks, the output is what it was followed by the
/// values written to the output port, in the order written.
pub proof fn lemma_output_is_port_writes_over_ticks(c: CpuView, n: nat)
    ensures
        ticks_from(c, n).mem.output == c.mem.output + out_written_over(c, n),
    decreases n,
{
    if n == 0 {
        assert(c.mem.output + Seq::<i32>::empty() =~= c.mem.output);
    } else {
        lemma_output_is_port_writes(c);
        lemma_output_is_port_writes_over_ticks(cpu_step(c), (n - 1) as nat);
        assert(c.mem.output + out_written(c) + out_written_over(cpu_step(c), (n - 1) as nat) =~= c.mem.output
            + out_written_over(c, n));
    }
}

/// Over any number of ticks the output only grows.
pub proof fn lemma_output_grows_over_ticks(c: CpuView, n: nat)
    ensures
        c.mem.output.is_prefix_of(ticks_from(c, n).mem.output),
    decreases n,
{
    if n == 0 {
        assert(c.mem.output.subrange(0, c.mem.output.len() as int) =~= c.mem.output);
    } else {
        lemma_output_only_grows(c);
        lemma_output_grows_over_ticks(cpu_step(c), (n - 1) as nat);
        let a = c.mem.output;
        let b = cpu_step(c).mem.output;
        let r = ticks_from(c, n).mem.output;
        assert(r.subrange(0, a.len() as int) =~= r.subrange(0, b.len() as int).subrange(0, a.len() as int));
    }
}

/// Tracing does not change what a tick does.
#[verifier::rlimit(50)]
pub proof fn lemma_tracing_is_invisible(c: CpuView, t: bool)
    ensures
        cpu_step(CpuView { tracing: t, ..c }) == (CpuView { tracing: t, ..cpu_step(c) }),
        step_faults(CpuView { tracing: t, ..c }) == step_faults(c),
{
    reveal(drive);
    reveal(bus_result);
}

/// Tracing does not change where a run ends.
pub proof fn lemma_tracing_run_invisible(c: CpuView, t: bool)
    ensures
        run_until_halt(CpuView { tracing: t, ..c }) == (CpuView { tracing: t, ..run_until_halt(c) }),
    decreases u64::MAX - c.ticks,
{
    lemma_tracing_is_invisible(c, t);
    if !(c.halted || step_faults(c) || c.ticks == u64::MAX) && cpu_step(c).ticks > c.ticks {
        lemma_tracing_run_invisible(cpu_step(c), t);
        assert(CpuView { tracing: t, ..cpu_step(c) } == cpu_step(CpuView { tracing: t, ..c }));
    }
}

// ---------------------------------------------------------------------------
// The processor
// ---------------------------------------------------------------------------

impl CPU {
    /// The state as a mathematical value.
    pub closed spec fn view(&self) -> CpuView {
        CpuView {
            ac: self.registers.AC,
            dr: self.registers.DR,
            cr: self.registers.CR,
            ar: self.registers.AR,
            sp: self.registers.SP,
            ip: self.registers.IP,
            ps: self.registers.PS,
            mpc: self.mpu.mpc,
            microcode: self.mpu.microcode@,
            mapping: self.mpu.mapping_rom@,
            mem: self.mem_controller.view(),
            ticks: self.ticks,
            halted: self.halted,
            latch: self.alu_latch,
            tracing: self.tracing,
        }
    }

    pub closed spec fn wf(&self) -> bool {
        &&& self.mem_controller.wf()
        &&& halt_invariant(self.view())
    }

    /// A processor at reset: registers cleared, the stack pointer at the top
    /// of RAM, the instruction pointer at 8, the microprogram at its start,
    /// memory zeroed, tracing on.
    pub fn new() -> (r: CPU)
        ensures
            r.wf(),
            r.view().ac == 0 && r.view().dr == 0 && r.view().cr == 0 && r.view().ar == 0,
            r.view().sp == RAM_WORDS * 4,
            r.view().ip == 8,
            r.view().ps == (ProcessorStatus { inp: false, z: false, n: false, c: false, v: false }),
            r.view().mpc == 0,
            forall|a: int| 0 <= a < 2048 ==> #[trigger] r.view().microcode[a] == microcode_word(a),
            forall|op: int| 0 <= op < 256 ==> #[trigger] r.view().mapping[op] == mapping_word(op),
            r.view().mem.ram == Seq::new(RAM_WORDS as nat, |_i: int| 0i32),
            forall|i: int| 0 <= i < 128 ==> !(#[trigger] r.view().mem.lines[i]).valid,
            r.view().mem.input == Seq::<i32>::empty(),
            r.view().mem.output == Seq::<i32>::empty(),
            r.view().mem.wait == 0,
            r.view().ticks == 0,
            !r.view().halted,
            r.view().latch is None,
            r.view().tracing,
    {
        CPU {
            mpu: MicroProcessor::new(),
            registers: Registers {
                AC: 0,
                DR: 0,
                CR: 0,
                AR: 0,
                SP: (RAM_WORDS * 4) as u32,
                IP: 8,
                PS: ProcessorStatus { inp: false, z: false, n: false, c: false, v: false },
            },
            mem_controller: MemController::new(),
            ticks: 0,
            halted: false,
            alu_latch: None,
            tracing: true,
        }
    }

    /// Writes `data` into RAM from byte address `byte_base` on.
    pub fn load_program(&mut self, byte_base: u32, data: &[i32])
        requires
            old(self).wf(),
            byte_base as int / 4 + data@.len() <= RAM_WORDS,
        ensures
            final(self).wf(),
            final(self).view() == (CpuView {
                mem: mem_load(old(self).view().mem, byte_base, data@),
                ..old(self).view()
            }),
    {
        self.mem_controller.load_ram(byte_base, data);
    }

    /// Sets the instruction pointer.
    pub fn set_ip(&mut self, ip: u32)
        ensures
            final(self).wf() == old(self).wf(),
            final(self).view() == (CpuView { ip, ..old(self).view() }),
    {
        self.registers.IP = ip;
    }

    pub fn is_halted(&self) -> (r: bool)
        ensures
            r == self.view().halted,
    {
        self.halted
    }

    pub fn ticks(&self) -> (r: u64)
        ensures
            r == self.view().ticks,
    {
        self.ticks
    }

    /// The values written to the output port so far.
    pub fn get_output(&self) -> (r: &[i32])
        ensures
            r@ == self.view().mem.output,
    {
        self.mem_controller.output()
    }

    /// Queues a value for the input port.
    pub fn add_input(&mut self, val: i32)
        ensures
            final(self).wf() == old(self).wf(),
            final(self).view() == (CpuView {
                mem: MemView { input: old(self).view().mem.input.push(val), ..old(self).view().mem },
                ..old(self).view()
            }),
    {
        self.mem_controller.push_input(val);
    }

    pub fn get_ac(&self) -> (r: i32)
        ensures
            r == self.view().ac,
    {
        self.registers.AC
    }

    pub fn get_mpc(&self) -> (r: u16)
        ensures
            r == self.view().mpc,
    {
        self.mpu.mpc
    }

    pub fn get_cr(&self) -> (r: u32)
        ensures
            r == self.view().cr,
    {
        self.registers.CR
    }

    pub fn set_tracing(&mut self, enabled: bool)
        ensures
            final(self).wf() == old(self).wf(),
            final(self).view() == (CpuView { tracing: enabled, ..old(self).view() }),
    {
        self.tracing = enabled;
    }

    /// The trace line of the next tick (see `trace_text`).
    pub fn trace_line(&self) -> (r: String)
        requires
            self.view().mpc < 2048,
        ensures
            r@ == trace_text(self.view()),
    {
        let micro = MicroInstruction::from(self.mpu.microcode[self.mpu.mpc as usize]);
        let mut out: Vec<char> = Vec::new();
        push_str(&mut out, "TICK ");
        let mut t: Vec<char> = Vec::new();
        push_dec_digits(&mut t, self.ticks);
        push_padded_left(&mut out, &t, 6, ' ');
        push_str(&mut out, " | MPC=0x");
        let mut h: Vec<char> = Vec::new();
        push_lower_hex_digits(&mut h, self.mpu.mpc as u64);
        push_padded_left(&mut out, &h, 3, '0');
        push_str(&mut out, " ");
        let action = Self::micro_action(&micro);
        let action_chars = chars_of(action.as_str());
        push_padded_right(&mut out, &action_chars, 30);
        push_str(&mut out, " | AC=");
        push_hex_word(&mut out, self.registers.AC as u32);
        push_str(&mut out, " DR=");
        push_hex_word(&mut out, self.registers.DR as u32);
        push_str(&mut out, " AR=");
        push_hex_word(&mut out, self.registers.AR);
        push_str(&mut out, " IP=");
        push_hex_word(&mut out, self.registers.IP);
        push_str(&mut out, " SP=");
        push_hex_word(&mut out, self.registers.SP);
        push_str(&mut out, " | I");
        push_flag(&mut out, self.registers.PS.inp);
        push_str(&mut out, "Z");
        push_flag(&mut out, self.registers.PS.z);
        push_str(&mut out, "N");
        push_flag(&mut out, self.registers.PS.n);
        push_str(&mut out, "C");
        push_flag(&mut out, self.registers.PS.c);
        push_str(&mut out, "V");
        push_flag(&mut out, self.registers.PS.v);
        push_str(&mut out, " | CR=");
        push_hex_word(&mut out, self.registers.CR);
        push_str(&mut out, " ");
        let insn = Self::disassemble(self.registers.CR);
        push_str(&mut out, insn.as_str());
        assert(out@ =~= trace_text(self.view()));
        string_of(&out)
    }

    /// Whether a trace line is to be printed before each tick.
    pub fn is_tracing(&self) -> (r: bool)
        ensures
            r == self.view().tracing,
    {
        self.tracing
    }

    pub(crate) fn sign_extend_21(val: u32) -> (r: i32)
        ensures
            r == sign_extend(val),
    {
        if val & 0x100000 != 0 {
            (val | 0xFFE00000) as i32
        } else {
            val as i32
        }
    }

    fn flags(value: i32, c: bool, v: bool) -> (r: AluResult)
        ensures
            r == with_flags(value, c, v),
    {
        AluResult { value, z: value == 0, n: value < 0, c, v }
    }

    fn alu_execute(op: u8, ac: i32, bus: i32, carry: bool) -> (r: AluResult)
        requires
            !alu_faults(op, ac, bus, carry),
        ensures
            r == alu(op, ac, bus, carry),
    {
        reveal(alu);
        match op {
            ALU_ADC => {
                let operand = bus + if carry {
                    1
                } else {
                    0
                };
                let wide = ac as i64 + operand as i64;
                let o = wide < i32::MIN as i64 || wide > i32::MAX as i64;
                Self::flags(wide as i32, o, o)
            },
            ALU_PASS => Self::flags(bus, false, false),
            ALU_ADD | ALU_INC => {
                let operand = if op == ALU_INC {
                    1
                } else {
                    bus
                };
                let wide = ac as i64 + operand as i64;
                let o = wide < i32::MIN as i64 || wide > i32::MAX as i64;
                Self::flags(wide as i32, o, o)
            },
            ALU_SUB | ALU_CMP | ALU_DEC => {
                let operand = if op == ALU_DEC {
                    1
                } else {
                    bus
                };
                let wide = ac as i64 - operand as i64;
                let o = wide < i32::MIN as i64 || wide > i32::MAX as i64;
                Self::flags(wide as i32, o, o)
            },
            ALU_MUL => {
                assert(-0x4000_0000_0000_0000 <= ac as int * bus as int <= 0x4000_0000_0000_0000)
                    by (nonlinear_arith)
                    requires
                        i32::MIN <= ac <= i32::MAX,
                        i32::MIN <= bus <= i32::MAX,
                ;
                let wide = ac as i64 * bus as i64;
                Self::flags(wide as i32, false, false)
            },
            ALU_DIV => {
                let value = if bus == 0 {
                    0
                } else {
                    div_i32(ac, bus)
                };
                Self::flags(value, false, false)
            },
            ALU_MOD => {
                let value = if bus == 0 {
                    0
                } else {
                    rem_i32(ac, bus)
                };
                Self::flags(value, false, false)
            },
            ALU_AND => Self::flags(ac & bus, false, false),
            ALU_OR => Self::flags(ac | bus, false, false),
            ALU_XOR => Self::flags(ac ^ bus, false, false),
            ALU_INV => {
                let wide = -(ac as i64);
                Self::flags(wide as i32, ac == 0, ac == i32::MIN)
            },
            ALU_ABS => {
                let wide = if ac < 0 {
                    -(ac as i64)
                } else {
                    ac as i64
                };
                Self::flags(wide as i32, false, ac == i32::MIN)
            },
            ALU_EXT8 => Self::flags((ac as i8) as i32, false, false),
            ALU_EXT16 => Self::flags((ac as i16) as i32, false, false),
            _ => AluResult { value: 0, z: true, n: false, c: false, v: false },
        }
    }

    fn drive_bus(&self, bus_out: u8) -> (r: i32)
        ensures
            r == drive(self.view(), bus_out),
    {
        reveal(drive);
        if bus_out & BUS_OUT_AC != 0 {
            self.registers.AC
        } else if bus_out & BUS_OUT_DR != 0 {
            self.registers.DR
        } else if bus_out & BUS_OUT_IP != 0 {
            self.registers.IP as i32
        } else if bus_out & BUS_OUT_SP != 0 {
            self.registers.SP as i32
        } else if bus_out & BUS_OUT_CR != 0 {
            Self::sign_extend_21(self.registers.CR & 0x1FFFFF)
        } else if bus_out & BUS_OUT_ALU != 0 {
            match &self.alu_latch {
                Some(r) => r.value,
                None => 0,
            }
        } else {
            0
        }
    }

    /// Whether the next tick would abort (see `step_faults`).
    pub fn step_faults(&self) -> (r: bool)
        requires
            self.wf(),
        ensures
            r == step_faults(self.view()),
    {
        if self.halted {
            return false;
        }
        if self.mpu.mpc >= 2048 || self.ticks == u64::MAX {
            return true;
        }
        let micro = MicroInstruction::from(self.mpu.microcode[self.mpu.mpc as usize]);
        if (micro.mem & MEM_WAIT) != 0 && !self.mem_controller.is_ready() {
            return false;
        }
        let bus_value = self.drive_bus(micro.bus_out);
        if micro.alu != ALU_PASS {
            let carry = self.registers.PS.c;
            let ac = self.registers.AC;
            if (micro.alu == ALU_ADC && carry && bus_value == i32::MAX) || ((micro.alu == ALU_DIV
                || micro.alu == ALU_MOD) && ac == i32::MIN && bus_value == -1) {
                return true;
            }
        }
        if (micro.mem & MEM_READ) != 0 || (micro.mem & MEM_WRITE) != 0 {
            let ar = if (micro.bus_in & BUS_IN_AR) != 0 {
                let r = self.bus_value(&micro);
                r.value as u32
            } else {
                self.registers.AR
            };
            return !(ar == IN_PORT || ar == OUT_PORT || (ar as usize) < RAM_WORDS * 4);
        }
        false
    }

    /// The value on the bus with its flags.
    fn bus_value(&self, micro: &MicroInstruction) -> (r: AluResult)
        requires
            !(micro.alu != ALU_PASS && alu_faults(
                micro.alu,
                self.view().ac,
                drive(self.view(), micro.bus_out),
                self.view().ps.c,
            )),
        ensures
            r == bus_result(self.view(), *micro),
            micro.alu != ALU_PASS ==> r == alu(
                micro.alu,
                self.view().ac,
                drive(self.view(), micro.bus_out),
                self.view().ps.c,
            ),
    {
        reveal(bus_result);
        let bus_value = self.drive_bus(micro.bus_out);
        if micro.alu != ALU_PASS {
            Self::alu_execute(micro.alu, self.registers.AC, bus_value, self.registers.PS.c)
        } else if (micro.bus_out & BUS_OUT_ALU) != 0 {
            match &self.alu_latch {
                Some(latch) => *latch,
                None => AluResult { value: 0, z: true, n: false, c: false, v: false },
            }
        } else {
            AluResult { value: bus_value, z: bus_value == 0, n: bus_value < 0, c: false, v: false }
        }
    }

    fn transfer(&mut self, micro: &MicroInstruction)
        requires
            old(self).wf(),
            old(self).view().mpc < 2048,
            *micro == current_micro(old(self).view()),
            !(micro.alu != ALU_PASS && alu_faults(
                micro.alu,
                old(self).view().ac,
                drive(old(self).view(), micro.bus_out),
                old(self).view().ps.c,
            )),
        ensures
            final(self).wf(),
            final(self).view() == transfer(old(self).view(), *micro),
    {
        let r = self.bus_value(micro);
        let wv = r.value;
        let bus_in = micro.bus_in;
        let ps = if (bus_in & BUS_IN_PS) != 0 {
            ProcessorStatus { inp: self.registers.PS.inp, z: r.z, n: r.n, c: r.c, v: r.v }
        } else {
            self.registers.PS
        };
        let regs = Registers {
            AC: if (bus_in & BUS_IN_AC) != 0 { wv } else { self.registers.AC },
            DR: if (bus_in & BUS_IN_DR) != 0 { wv } else { self.registers.DR },
            CR: if (bus_in & BUS_IN_CR) != 0 { wv as u32 } else { self.registers.CR },
            AR: if (bus_in & BUS_IN_AR) != 0 { wv as u32 } else { self.registers.AR },
            SP: if (bus_in & BUS_IN_SP) != 0 { wv as u32 } else { self.registers.SP },
            IP: if (bus_in & BUS_IN_IP) != 0 { wv as u32 } else { self.registers.IP },
            PS: ps,
        };
        self.registers = regs;
        if micro.alu != ALU_PASS {
            self.alu_latch = Some(r);
        }
    }

    fn memory_access(&mut self, micro: &MicroInstruction)
        requires
            old(self).wf(),
            (micro.mem & MEM_READ != 0 || micro.mem & MEM_WRITE != 0) ==> valid_addr(old(self).view().ar),
        ensures
            final(self).wf(),
            final(self).view() == memory_access(old(self).view(), *micro),
    {
        if (micro.mem & MEM_READ) != 0 {
            let data = self.mem_controller.read(self.registers.AR);
            if (micro.bus_in & BUS_IN_DR) == 0 {
                self.registers.DR = data;
            }
        }
        if (micro.mem & MEM_WRITE) != 0 {
            self.mem_controller.write(self.registers.AR, self.registers.DR);
        }
    }

    fn count(&mut self, micro: &MicroInstruction)
        ensures
            final(self).wf() == old(self).wf(),
            final(self).view() == count(old(self).view(), *micro),
    {
        if (micro.cnt & CNT_IP_INC) != 0 {
            self.registers.IP = self.registers.IP.wrapping_add(4);
        }
        if (micro.cnt & CNT_SP_INC) != 0 {
            self.registers.SP = self.registers.SP.wrapping_add(4);
        }
        if (micro.cnt & CNT_SP_DEC) != 0 {
            self.registers.SP = self.registers.SP.wrapping_sub(4);
        }
    }

    /// One clock tick (for states from which it does not abort, see
    /// `step_faults`).
    pub fn step(&mut self)
        requires
            old(self).wf(),
            !step_faults(old(self).view()),
        ensures
            final(self).wf(),
            final(self).view() == cpu_step(old(self).view()),
    {
        if self.halted {
            return ;
        }
        let ghost c = self.view();
        let micro = MicroInstruction::from(self.mpu.microcode[self.mpu.mpc as usize]);
        if (micro.mem & MEM_WAIT) != 0 && !self.mem_controller.is_ready() {
            self.mem_controller.tick();
            self.ticks = self.ticks + 1;
            return ;
        }
        self.transfer(&micro);
        self.memory_access(&micro);
        self.count(&micro);
        assert(self.view() == datapath(c));
        if (micro.mem & MEM_WAIT) != 0 && !self.mem_controller.is_ready() {
            self.ticks = self.ticks + 1;
            return ;
        }
        self.registers.PS.inp = self.mem_controller.input_pending();
        let cr = self.registers.CR;
        let ps = self.registers.PS;
        self.mpu.next_mpc(cr, &ps);
        if self.mpu.mpc == HLT_ADDR {
            let next_word = MicroInstruction::from(self.mpu.microcode[HLT_ADDR as usize]);
            if next_word.seq_ctrl == SEQ_JUMP && next_word.seq_cond == COND_UNCOND
                && next_word.next_addr == HLT_ADDR {
                self.halted = true;
            }
        }
        self.ticks = self.ticks + 1;
    }

    /// Ticks until the processor halts, a tick would abort (see
    /// `step_faults`), or the tick counter is full.
    pub fn run(&mut self)
        requires
            old(self).wf(),
        ensures
            final(self).wf(),
            final(self).view() == run_until_halt(old(self).view()),
    {
        loop
            invariant
                self.wf(),
                run_until_halt(self.view()) == run_until_halt(old(self).view()),
            decreases u64::MAX - self.ticks,
        {
            if self.halted || self.ticks == u64::MAX || self.step_faults() {
                return ;
            }
            let ghost before = self.view();
            self.step();
            assert(self.view().ticks == before.ticks + 1);
        }
    }
}

} // verus!
