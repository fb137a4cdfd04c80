use lib::binary::{image_bytes, image_words};
use lib::codegen::Codegen;
use lib::consts::{ProcessorStatus, ALU_ADD, ALU_PASS, BUS_IN_AC, BUS_IN_DR, BUS_OUT_AC, BUS_OUT_DR, MEM_WAIT, MEM_WRITE, SEQ_JUMP, SEQ_NEXT};
use lib::cpu::CPU;
use lib::fold::optimize_tree;
use lib::input::{output_text, parse_input};
use lib::lexer::Lexer;
use lib::mem::MemController;
use lib::microcode::{MicroInstruction, MicroProcessor};
use lib::parser::Parser;

fn compile(src: &str) -> Vec<u32> {
    let tokens = Lexer::new(src).parse().expect("lexes");
    let tree = Parser::new(tokens).parse_program().expect("parses");
    Codegen::new().generate(&optimize_tree(tree)).expect("compiles").0
}

fn run(src: &str, input: &[i32]) -> (Vec<i32>, CPU) {
    let words: Vec<i32> = compile(src).iter().map(|w| *w as i32).collect();
    let mut cpu = CPU::new();
    cpu.set_tracing(false);
    cpu.load_program(8, &words);
    for v in input {
        cpu.add_input(*v);
    }
    cpu.run();
    assert!(cpu.is_halted(), "the program halts");
    (cpu.get_output().to_vec(), cpu)
}

#[test]
fn runs_a_program_that_prints_a_constant() {
    let (out, _) = run("fn main() { cout << 7; }", &[]);
    assert_eq!(out, vec![7]);
}

#[test]
fn runs_arithmetic_on_variables() {
    let src = "fn main() { i32 a = 7; i32 b = -7; cout << a / 2 << a % 2 << b / 2 << b % 2 << a * b << a - b; }";
    let (out, _) = run(src, &[]);
    assert_eq!(out, vec![3, 1, -3, -1, -49, 14]);
}

#[test]
fn runs_loops_conditions_and_calls() {
    let src = "fn add(i32 a, i32 b) -> i32 { return a + b; }
fn main() {
    i32 s = 0;
    for (i32 i = 0; i < 5; i = i + 1) { s = s + i; }
    cout << s;
    cout << add(2, 3);
    if s > 100 { cout << 1; } else { cout << 0; }
    i32 n = 3;
    while n > 0 { n = n - 1; }
    cout << n;
}";
    let (out, _) = run(src, &[]);
    assert_eq!(out, vec![10, 5, 0, 0]);
}

#[test]
fn reads_input_and_uses_arrays() {
    let src = "fn main() { i32 a[3]; i32 x; cin >> x; a[1] = x * 2; cout << a[1]; cout << \"ok\"; }";
    let (out, _) = run(src, &[21]);
    assert_eq!(out[0], 42);
}

#[test]
fn a_halted_processor_stays_halted() {
    let (_, mut cpu) = run("fn main() { cout << 1; }", &[]);
    let ticks = cpu.ticks();
    cpu.step();
    cpu.run();
    assert_eq!(cpu.ticks(), ticks);
    assert!(cpu.is_halted());
    assert_eq!(cpu.get_output(), &[1]);
}

#[test]
fn each_tick_counts_once_and_output_only_grows() {
    let words: Vec<i32> = compile("fn main() { cout << 1; cout << 2; }").iter().map(|w| *w as i32).collect();
    let mut cpu = CPU::new();
    cpu.set_tracing(false);
    cpu.load_program(8, &words);
    let mut seen: Vec<i32> = Vec::new();
    while !cpu.is_halted() {
        assert!(!cpu.step_faults());
        let before = cpu.ticks();
        cpu.step();
        assert_eq!(cpu.ticks(), before + 1);
        let out = cpu.get_output().to_vec();
        assert!(out.starts_with(&seen));
        seen = out;
    }
    assert_eq!(seen, vec![1, 2]);
}

#[test]
fn a_fresh_processor_is_at_reset() {
    let cpu = CPU::new();
    assert_eq!(cpu.ticks(), 0);
    assert_eq!(cpu.get_mpc(), 0);
    assert_eq!(cpu.get_ac(), 0);
    assert_eq!(cpu.get_cr(), 0);
    assert!(cpu.is_tracing());
    assert!(!cpu.is_halted());
    let line = cpu.trace_line();
    assert!(line.starts_with("TICK      0 | MPC=0x000 "), "{}", line);
    assert!(line.contains(" | AC=0x00000000 DR=0x00000000 AR=0x00000000 IP=0x00000008 SP=0x01000000 | I0Z0N0C0V0 | CR=0x00000000 NOP"), "{}", line);
}

#[test]
fn disassembles_instruction_words() {
    assert_eq!(CPU::disassemble(0x10200007), "LD #7");
    assert_eq!(CPU::disassemble(0x103FFFFF), "LD #-1");
    assert_eq!(CPU::disassemble(0x11400004), "ST [0x4]");
    assert_eq!(CPU::disassemble(0x2060001F), "ADD [SP+0x1F]");
    assert_eq!(CPU::disassemble(0x10800010), "LD (0x10)+");
    assert_eq!(CPU::disassemble(0x10A00010), "LD -(0x10)");
    assert_eq!(CPU::disassemble(0x10C00000), "LD ?mode6");
    assert_eq!(CPU::disassemble(0x01000000), "HLT");
    assert_eq!(CPU::disassemble(0x0B400010), "EXT8");
    assert_eq!(CPU::disassemble(0x7F000000), "???");
    assert_eq!(CPU::opcode_name(0x39), "CALL");
}

#[test]
fn describes_control_words() {
    let m = MicroInstruction {
        bus_out: BUS_OUT_AC,
        bus_in: BUS_IN_DR,
        cnt: 0,
        mem: MEM_WRITE | MEM_WAIT,
        alu: ALU_PASS,
        seq_ctrl: SEQ_NEXT,
        seq_cond: 0,
        next_addr: 0,
    };
    assert_eq!(CPU::micro_action(&m), "AC->bus DR<-bus Wr Wait NEXT");
    let m = MicroInstruction {
        bus_out: BUS_OUT_DR,
        bus_in: BUS_IN_AC,
        cnt: 0,
        mem: 0,
        alu: ALU_ADD,
        seq_ctrl: SEQ_JUMP,
        seq_cond: 0,
        next_addr: 5,
    };
    assert_eq!(CPU::micro_action(&m), "DR->bus AC<-bus ADD JMP");
    let m = MicroInstruction {
        bus_out: 0,
        bus_in: 0,
        cnt: 0,
        mem: 0,
        alu: ALU_PASS,
        seq_ctrl: 3,
        seq_cond: 0,
        next_addr: 0,
    };
    assert_eq!(CPU::micro_action(&m), "");
}

#[test]
fn the_cache_gives_back_what_was_written() {
    let mut m = MemController::new();
    m.write(0x100, 42);
    assert_eq!(m.read(0x100), 42);
    m.write(0x100 + 4096 * 4, 7);
    m.write(0x104, -5);
    assert_eq!(m.read(0x100), 42);
    assert_eq!(m.read(0x104), -5);
    assert_eq!(m.read(0x100 + 4096 * 4), 7);
    // a line that maps to the same index with another tag evicts and writes back
    m.write(0x100 + 8192 * 3, 9);
    assert_eq!(m.read(0x100), 42);
    assert_eq!(m.read(0x100 + 8192 * 3), 9);
    assert_eq!(m.read(0x200), 0);
}

#[test]
fn the_ports_stream_values() {
    let mut m = MemController::new();
    assert_eq!(m.read(0), 0);
    m.in_stream.push(3);
    m.in_stream.push(4);
    assert_eq!(m.read(0), 3);
    assert_eq!(m.read(0), 4);
    assert_eq!(m.read(4), 0);
    m.write(4, 11);
    m.write(0, 12);
    assert_eq!(m.out_stream, vec![11]);
}

#[test]
fn a_miss_takes_the_miss_time() {
    let mut m = MemController::new();
    assert!(m.is_ready());
    m.read(0x40);
    assert!(!m.is_ready());
    let mut ticks = 0;
    while !m.tick() {
        ticks += 1;
    }
    assert_eq!(ticks, 8);
    m.read(0x44);
    assert!(m.is_ready());
}

#[test]
fn loads_words_into_ram() {
    let mut m = MemController::new();
    m.load_ram(8, &[5, 6, 7]);
    assert_eq!(m.read(8), 5);
    assert_eq!(m.read(12), 6);
    assert_eq!(m.read(16), 7);
}

#[test]
fn the_microprogram_tables_are_built() {
    let mp = MicroProcessor::new();
    assert_eq!(mp.mpc, 0);
    assert_eq!(mp.microcode.len(), 2048);
    assert_eq!(mp.mapping_rom.len(), 256);
}

#[test]
fn reads_input_files() {
    assert_eq!(parse_input("[1, 2, 'a', -3]\n"), Some(vec![1, 2, 97, -3]));
    assert_eq!(parse_input("  \n "), Some(vec![]));
    assert_eq!(parse_input("4 5,6"), Some(vec![4, 5, 6]));
    assert_eq!(parse_input("'x"), Some(vec![]));
    assert_eq!(parse_input("- 1"), Some(vec![1]));
    assert_eq!(parse_input("2147483648, -2147483648"), Some(vec![i32::MIN]));
    assert_eq!(parse_input("[]"), Some(vec![]));
    assert_eq!(parse_input("[7"), None);
    assert_eq!(parse_input("abc"), None);
}

#[test]
fn reports_output_values() {
    let text = output_text(&[65, 10, 0, 0x263A, -1]);
    assert_eq!(
        text,
        "65\n0x00000041\nA\n10\n0x0000000A\n<space/\\n/\\t>\n0\n0x00000000\n<invalid>\n9786\n0x0000263A\n<U+263A>\n-1\n0xFFFFFFFF\n<invalid>"
    );
    assert_eq!(output_text(&[]), "");
}

#[test]
fn binary_images_read_back() {
    let words = vec![0x12345678u32, 0xFFFFFFFF, 0];
    let bytes = image_bytes(&words);
    assert_eq!(&bytes[0..4], &[0x78, 0x56, 0x34, 0x12]);
    assert_eq!(image_words(&bytes), vec![0x12345678, -1, 0]);
    let mut odd = bytes.clone();
    odd.push(1);
    assert_eq!(image_words(&odd).len(), 3);
}

#[test]
fn runs_boolean_conditions() {
    let src = "fn main() {
    i32 a = 3;
    i32 b = 0;
    if a > 1 && b == 0 { cout << 1; } else { cout << 2; }
    if a < 1 || b != 0 { cout << 3; } else { cout << 4; }
    if !(a == 3) { cout << 5; } else { cout << 6; }
    cout << (a >= 3);
    cout << (a <= 2);
    cout << (a <= 5);
    cout << !b;
    cout << |b - a|;
}";
    let (out, _) = run(src, &[]);
    // `<=` compiles to the jump of `>=` (JGE), as in the code generator's
    // table: 3 <= 2 prints 1 and 3 <= 5 prints 0.
    assert_eq!(out, vec![1, 4, 6, 1, 1, 0, 1, 3]);
}

#[test]
fn runs_recursive_style_calls_and_nested_loops() {
    let src = "fn sq(i32 x) -> i32 { return x * x; }
fn main() {
    i32 t = 0;
    for (i32 i = 1; i < 4; i = i + 1) {
        for (i32 j = 0; j < i; j = j + 1) { t = t + sq(j); }
    }
    cout << t;
}";
    let (out, _) = run(src, &[]);
    // i=1: 0; i=2: 0+1; i=3: 0+1+4
    assert_eq!(out, vec![6]);
}

#[test]
fn mapped_opcodes_are_the_named_ones() {
    let mp = MicroProcessor::new();
    for op in 0..=255u8 {
        assert_eq!(mp.mapping_rom[op as usize] != 0, CPU::opcode_name(op) != "???", "opcode {:#x}", op);
    }
    assert_eq!(mp.mapping_rom[0x01], 0x101);
    assert_eq!(mp.mapping_rom[0x10], 0x120);
    assert_eq!(mp.mapping_rom[0x39], 0x054);
    assert_eq!(mp.mapping_rom[0x0D], 0);
}

#[test]
fn every_instruction_but_halt_returns_to_fetch() {
    let flags = [false, true];
    for op in 0..=255u8 {
        for mode in 0..8u32 {
            for &z in &flags {
                for &n in &flags {
                    let cr = ((op as u32) << 24) | (mode << 21) | 0x40;
                    let ps = ProcessorStatus { inp: false, z, n, c: n, v: z };
                    let mut mp = MicroProcessor::new();
                    mp.mpc = mp.mapping_rom[op as usize];
                    if op == 0x01 {
                        assert_eq!(mp.mpc, 0x101);
                        mp.next_mpc(cr, &ps);
                        assert_eq!(mp.mpc, 0x101);
                        continue;
                    }
                    let mut moves = 0;
                    while mp.mpc != 0 {
                        assert_ne!(mp.mpc, 0x101);
                        mp.next_mpc(cr, &ps);
                        moves += 1;
                        assert!(moves <= 16, "opcode {:#x} mode {}", op, mode);
                    }
                }
            }
        }
    }
}

#[test]
fn written_values_read_back() {
    let values = vec![-2147483648, 0, 2147483647, 12, -7];
    let text: String = values.iter().map(|v| format!("{},", v)).collect();
    assert_eq!(parse_input(&text), Some(values));
    assert_eq!(parse_input(""), Some(vec![]));
}

#[test]
fn bracketed_input_with_quoted_characters_reads_back() {
    assert_eq!(parse_input("[1, 'a'\n-3\t,  0x]"), None);
    assert_eq!(parse_input("[1, 'a'\n-3]"), Some(vec![1, 97, -3]));
    assert_eq!(parse_input("[]"), Some(vec![]));
    assert_eq!(parse_input("7 ' ' 8"), Some(vec![7, 32, 8]));
}

#[test]
fn a_halted_processor_sits_in_the_halt_loop() {
    let (_, cpu) = run("fn main() { cout << 3; }", &[]);
    assert!(cpu.is_halted());
    assert_eq!(cpu.get_mpc(), 0x101);
}
