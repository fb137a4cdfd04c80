//! The code generator: a syntax tree in, a memory image and a listing out.
//!
//! The generator's state is modelled by `Cg`; every step of the generator is
//! a spec function on `Cg`, and each executable step is proved to compute
//! it.  A step that the arithmetic of the state cannot hold (a counter or an
//! address past `u32::MAX`), or that meets an operation with too few
//! operands, fails: the model marks the state as failed (`ok` false) and the
//! executable step reports `false`.
use vstd::prelude::*;

use crate::cpu::sign_extend;
use crate::parser::{Expression, Ops, SExpr, SValue, Value, arg_pairs_view, expr_view, opt_view};
use crate::text::{
    chars_eq, chars_eq_str, chars_of, contains, contains_seq, dec_digits, hex_text, parse_u32,
    lemma_parse_u32_read_back, parse_u32_text, push_chars, push_dec_digits, push_hex, push_str, starts_with, string_of,
};

verus! {

pub const CODE_BASE: u32 = 8;

pub const IN_PORT: u32 = 0x0000;
pub const OUT_PORT: u32 = 0x0004;

pub const OP_HLT: u8 = 0x01;
pub const OP_CLA: u8 = 0x02;
pub const OP_INV: u8 = 0x04;
pub const OP_INC: u8 = 0x05;
pub const OP_DEC: u8 = 0x06;
pub const OP_ABS: u8 = 0x07;
pub const OP_PUSH: u8 = 0x08;
pub const OP_POP: u8 = 0x09;
pub const OP_RET: u8 = 0x0A;
pub const OP_LD: u8 = 0x10;
pub const OP_ST: u8 = 0x11;
pub const OP_ADD: u8 = 0x20;
pub const OP_SUB: u8 = 0x22;
pub const OP_MUL: u8 = 0x23;
pub const OP_DIV: u8 = 0x24;
pub const OP_MOD: u8 = 0x25;
pub const OP_CMP: u8 = 0x26;
pub const OP_AND: u8 = 0x27;
pub const OP_OR: u8 = 0x28;
pub const OP_XOR: u8 = 0x29;
pub const OP_JMP: u8 = 0x30;
pub const OP_JEQ: u8 = 0x31;
pub const OP_JNE: u8 = 0x32;
pub const OP_JLT: u8 = 0x33;
pub const OP_JGE: u8 = 0x34;
pub const OP_CALL: u8 = 0x39;

pub const MODE_DIRECT: u8 = 2;
pub const MODE_AUTO_INC: u8 = 4;

// ---------------------------------------------------------------------------
// Instruction words and their text
// ---------------------------------------------------------------------------

/// The instruction word: opcode in bits 24..31, mode from bit 21, operand in
/// bits 0..20.
pub open spec fn encode_word(opcode: u8, mode: u8, operand: u32) -> u32 {
    ((opcode as u32) << 24u32) | ((mode as u32) << 21u32) | (operand & 0x1FFFFFu32)
}

/// The mnemonic of an opcode.
pub open spec fn op_name(opcode: u32) -> Seq<char> {
    if opcode == 0x01 {
        "HLT"@
    } else if opcode == 0x02 {
        "CLA"@
    } else if opcode == 0x04 {
        "INV"@
    } else if opcode == 0x05 {
        "INC"@
    } else if opcode == 0x06 {
        "DEC"@
    } else if opcode == 0x07 {
        "ABS"@
    } else if opcode == 0x08 {
        "PUSH"@
    } else if opcode == 0x09 {
        "POP"@
    } else if opcode == 0x0A {
        "RET"@
    } else if opcode == 0x10 {
        "LD"@
    } else if opcode == 0x11 {
        "ST"@
    } else if opcode == 0x20 {
        "ADD"@
    } else if opcode == 0x22 {
        "SUB"@
    } else if opcode == 0x23 {
        "MUL"@
    } else if opcode == 0x24 {
        "DIV"@
    } else if opcode == 0x25 {
        "MOD"@
    } else if opcode == 0x26 {
        "CMP"@
    } else if opcode == 0x27 {
        "AND"@
    } else if opcode == 0x28 {
        "OR"@
    } else if opcode == 0x29 {
        "XOR"@
    } else if opcode == 0x30 {
        "JMP"@
    } else if opcode == 0x31 {
        "JEQ"@
    } else if opcode == 0x32 {
        "JNE"@
    } else if opcode == 0x33 {
        "JLT"@
    } else if opcode == 0x34 {
        "JGE"@
    } else if opcode == 0x39 {
        "CALL"@
    } else {
        "???"@
    }
}

/// The assembler text of an instruction word.
pub open spec fn mnemonic_text(ins: u32) -> Seq<char> {
    let opcode = (ins >> 24u32) & 0xFFu32;
    let mode = (ins >> 21u32) & 7u32;
    let operand = ins & 0x1FFFFFu32;
    let name = op_name(opcode);
    if mode == 0 {
        name
    } else if mode == 1 {
        name + " #"@ + dec_digits(operand as nat)
    } else if mode == 2 {
        name + " [0x"@ + hex_text(operand as nat, 5) + "]"@
    } else if mode == 3 {
        name + " [SP+0x"@ + hex_text(operand as nat, 5) + "]"@
    } else if mode == 4 {
        name + " (0x"@ + hex_text(operand as nat, 5) + ")+"@
    } else if mode == 5 {
        name + " -(0x"@ + hex_text(operand as nat, 5) + ")"@
    } else {
        name + " ?"@ + dec_digits(mode as nat) + "? 0x"@ + hex_text(operand as nat, 5)
    }
}

/// A listing line for an instruction: its byte address, its word and its
/// mnemonic.
pub open spec fn line_head(addr: u32, ins: u32) -> Seq<char> {
    "0x"@ + hex_text(addr as nat, 4) + "  0x"@ + hex_text(ins as nat, 8) + "  "@
        + mnemonic_text(ins)
}

// ---------------------------------------------------------------------------
// The generator's state
// ---------------------------------------------------------------------------

/// A variable: its address (set once the data is laid out), its type name
/// and its size in words.
pub struct VarInfo {
    pub addr: u32,
    pub typ: Seq<char>,
    pub size: u32,
}

/// An instruction whose operand waits for the address of `symbol`
/// (plus `offset`).
pub struct FixupInfo {
    pub address: u32,
    pub symbol: Seq<char>,
    pub offset: u32,
}

/// The state of the generator as a mathematical value.  The symbol tables
/// are association lists in the order of first insertion.
#[verifier::ext_equal]
pub struct Cg {
    pub ok: bool,
    pub instructions: Seq<u32>,
    pub data: Seq<u32>,
    pub vars: Seq<(Seq<char>, VarInfo)>,
    pub strings: Seq<(Seq<char>, u32)>,
    pub labels: Seq<(Seq<char>, u32)>,
    pub fixups: Seq<FixupInfo>,
    pub bss: Seq<(Seq<char>, u32)>,
    pub label_counter: u32,
    pub temp_counter: u32,
    pub code_address: u32,
    pub data_address: u32,
    pub in_main: bool,
    pub listing: Seq<Seq<char>>,
}

/// The trees of a list of children, as `expr_view` gives them.
pub open spec fn kids(items: Seq<Expression>) -> Seq<SExpr> {
    Seq::new(
        items.len(),
        |i: int|
            if 0 <= i < items.len() {
                expr_view(items[i])
            } else {
                SExpr::Block(Seq::empty())
            },
    )
}

/// The text of each line.
pub open spec fn lines_view(v: Seq<String>) -> Seq<Seq<char>> {
    v.map_values(|l: String| l@)
}

/// The keys of an association list.
pub open spec fn keys_of<V>(t: Seq<(Seq<char>, V)>) -> Seq<Seq<char>> {
    t.map_values(|e: (Seq<char>, V)| e.0)
}

/// The value stored under `k`.
pub open spec fn lookup<V>(t: Seq<(Seq<char>, V)>, k: Seq<char>) -> Option<V> {
    match keys_of(t).index_of_first(k) {
        Some(i) => Some(t[i].1),
        None => None,
    }
}

/// `t` with `v` stored under `k` (in place if `k` is there, else at the end).
pub open spec fn insert<V>(t: Seq<(Seq<char>, V)>, k: Seq<char>, v: V) -> Seq<(Seq<char>, V)> {
    match keys_of(t).index_of_first(k) {
        Some(i) => t.update(i, (k, v)),
        None => t.push((k, v)),
    }
}

/// The generator at the start.
pub open spec fn cg_init() -> Cg {
    Cg {
        ok: true,
        instructions: Seq::empty(),
        data: Seq::empty(),
        vars: Seq::empty(),
        strings: Seq::empty(),
        labels: Seq::empty(),
        fixups: Seq::empty(),
        bss: Seq::empty(),
        label_counter: 0,
        temp_counter: 0,
        code_address: 0,
        data_address: 0,
        in_main: false,
        listing: Seq::empty(),
    }
}

/// The failed state.
pub open spec fn fail(s: Cg) -> Cg {
    Cg { ok: false, ..s }
}

/// Appends an instruction word and its listing line `line`.
pub open spec fn put_word(s: Cg, ins: u32, line: Seq<char>) -> Cg {
    Cg {
        listing: s.listing.push(line),
        instructions: s.instructions.push(ins),
        code_address: (s.code_address + 4) as u32,
        ..s
    }
}

/// The address that the next instruction will have in memory.
pub open spec fn here(s: Cg) -> u32 {
    (s.code_address + CODE_BASE) as u32
}

pub open spec fn room(s: Cg) -> bool {
    s.code_address + CODE_BASE <= u32::MAX
}

/// `emit`: one instruction with a known operand.
pub open spec fn emit_s(s: Cg, opcode: u8, mode: u8, operand: u32) -> Cg {
    if !s.ok {
        s
    } else if !room(s) {
        fail(s)
    } else {
        let ins = encode_word(opcode, mode, operand);
        put_word(s, ins, line_head(here(s), ins))
    }
}

/// An instruction whose operand is patched later with the address of
/// `symbol`; `tail` follows the mnemonic in the listing line.
pub open spec fn emit_ref_s(
    s: Cg,
    opcode: u8,
    mode: u8,
    operand: u32,
    symbol: Seq<char>,
    offset: u32,
    tail: Seq<char>,
) -> Cg {
    if !s.ok {
        s
    } else if !room(s) {
        fail(s)
    } else {
        let ins = encode_word(opcode, mode, operand);
        let f = FixupInfo { address: s.instructions.len() as u32, symbol, offset };
        Cg { fixups: s.fixups.push(f), ..put_word(s, ins, line_head(here(s), ins) + tail) }
    }
}

/// `emit_variable_ref`: a direct access to `symbol + offset`.
pub open spec fn var_ref_s(s: Cg, opcode: u8, symbol: Seq<char>, offset: u32) -> Cg {
    emit_ref_s(
        s,
        opcode,
        MODE_DIRECT,
        offset,
        symbol,
        offset,
        " "@ + symbol + " (fixup +"@ + dec_digits(offset as nat) + ")"@,
    )
}

/// `emit_immediate_ref`: the address of `symbol` as an immediate operand.
pub open spec fn imm_ref_s(s: Cg, opcode: u8, symbol: Seq<char>) -> Cg {
    emit_ref_s(s, opcode, 1, 0, symbol, 0, " #"@ + symbol + " (fixup)"@)
}

/// `emit_auto_inc_ref`: an access through the pointer stored at `symbol`,
/// which is then advanced.
pub open spec fn auto_inc_ref_s(s: Cg, opcode: u8, symbol: Seq<char>) -> Cg {
    emit_ref_s(s, opcode, MODE_AUTO_INC, 0, symbol, 0, " ("@ + symbol + ")+ (fixup)"@)
}

/// `jump`: a direct jump to a label, resolved now if the label is known.
pub open spec fn jump_s(s: Cg, opcode: u8, target: Seq<char>) -> Cg {
    match lookup(s.labels, target) {
        Some(a) => emit_s(s, opcode, MODE_DIRECT, a),
        None => emit_ref_s(s, opcode, MODE_DIRECT, 0, target, 0, " "@ + target + " (fixup)"@),
    }
}

/// `label_here`: the label `name` at the current address.
pub open spec fn label_s(s: Cg, name: Seq<char>) -> Cg {
    if !s.ok {
        s
    } else if !room(s) {
        fail(s)
    } else {
        Cg {
            labels: insert(s.labels, name, here(s)),
            listing: s.listing.push("0x"@ + hex_text(here(s) as nat, 4) + "  "@ + name + ":"@),
            ..s
        }
    }
}

/// `new_label`: a fresh label name.
pub open spec fn new_label_s(s: Cg) -> (Cg, Seq<char>) {
    let name = ".L"@ + dec_digits(s.label_counter as nat);
    if !s.ok {
        (s, name)
    } else if s.label_counter == u32::MAX {
        (fail(s), name)
    } else {
        (Cg { label_counter: (s.label_counter + 1) as u32, ..s }, name)
    }
}

/// A variable of type `i32` and one word.
pub open spec fn word_var() -> VarInfo {
    VarInfo { addr: 0, typ: "i32"@, size: 1 }
}

/// `new_temp`: a fresh one-word variable.
pub open spec fn new_temp_s(s: Cg) -> (Cg, Seq<char>) {
    let name = "__t"@ + dec_digits(s.temp_counter as nat);
    if !s.ok {
        (s, name)
    } else if s.temp_counter == u32::MAX {
        (fail(s), name)
    } else {
        (
            Cg {
                temp_counter: (s.temp_counter + 1) as u32,
                bss: s.bss.push((name, 1u32)),
                vars: insert(s.vars, name, word_var()),
                ..s
            },
            name,
        )
    }
}

/// Declares `name` unless it is already declared.
pub open spec fn declare_s(s: Cg, name: Seq<char>, info: VarInfo) -> Cg {
    if !s.ok || lookup(s.vars, name) is Some {
        s
    } else {
        Cg { vars: insert(s.vars, name, info), bss: s.bss.push((name, info.size)), ..s }
    }
}

// ---------------------------------------------------------------------------
// Symbol collection
// ---------------------------------------------------------------------------

/// Appends a word to the data.
pub open spec fn put_data_s(s: Cg, w: u32) -> Cg {
    if !s.ok {
        s
    } else if s.data_address + 4 > u32::MAX {
        fail(s)
    } else {
        Cg { data: s.data.push(w), data_address: (s.data_address + 4) as u32, ..s }
    }
}

/// Appends the characters of `t` to the data, one word each.
pub open spec fn put_chars_s(s: Cg, t: Seq<char>) -> Cg
    decreases t.len(),
{
    if !s.ok || t.len() == 0 {
        s
    } else {
        put_chars_s(put_data_s(s, t[0] as u32), t.subrange(1, t.len() as int))
    }
}

/// Lays out the string literal `t` (its characters and a terminating zero)
/// and records where it starts.
pub open spec fn add_string_s(s: Cg, t: Seq<char>) -> Cg {
    let s1 = put_data_s(put_chars_s(s, t), 0);
    if !s1.ok {
        s1
    } else {
        Cg { strings: insert(s1.strings, t, s.data_address), ..s1 }
    }
}

/// Declares function parameters, in order.
pub open spec fn declare_args_s(s: Cg, args: Seq<(Seq<char>, Seq<char>)>) -> Cg
    decreases args.len(),
{
    if !s.ok || args.len() == 0 {
        s
    } else {
        declare_args_s(
            declare_s(s, args[0].1, VarInfo { addr: 0, typ: args[0].0, size: 1 }),
            args.subrange(1, args.len() as int),
        )
    }
}

/// The size in words of a declared variable: a literal size, else one word.
pub open spec fn decl_size(size: Option<Box<SExpr>>) -> u32 {
    match size {
        Some(b) => match *b {
            SExpr::Atom(SValue::Integer(n)) => n as u32,
            _ => 1,
        },
        None => 1,
    }
}

pub open spec fn collect_opt_s(s: Cg, x: Option<Box<SExpr>>) -> Cg
    decreases x,
{
    match x {
        Some(b) => collect_s(s, *b),
        None => s,
    }
}

/// `collect_symbols`: declares the variables and parameters of a tree and
/// lays out its string literals, in the order of a walk of the tree.
pub open spec fn collect_s(s: Cg, e: SExpr) -> Cg
    decreases e,
{
    if !s.ok {
        s
    } else {
        match e {
            SExpr::Block(items) => collect_all_s(s, items),
            SExpr::VarDecl { typ, name, init, size } => {
                let s1 = declare_s(s, name, VarInfo { addr: 0, typ, size: decl_size(size) });
                collect_opt_s(collect_opt_s(s1, init), size)
            },
            SExpr::FuncDecl { args, body, .. } => collect_s(declare_args_s(s, args), *body),
            SExpr::Cout(items) => collect_all_s(s, items),
            SExpr::Cin(items) => collect_all_s(s, items),
            SExpr::Return(x) => collect_opt_s(s, x),
            SExpr::If { cond, then_br, else_br } => collect_opt_s(
                collect_s(collect_s(s, *cond), *then_br),
                else_br,
            ),
            SExpr::While { cond, body } => collect_s(collect_s(s, *cond), *body),
            SExpr::For { init, cond, step, body } => collect_s(
                collect_s(collect_s(collect_s(s, *init), *cond), *step),
                *body,
            ),
            SExpr::Operation(_, items) => collect_all_s(s, items),
            SExpr::FuncCall { caller, args } => collect_all_s(collect_s(s, *caller), args),
            SExpr::ArrayIndex { arr, index } => collect_s(collect_s(s, *arr), *index),
            SExpr::ArrayInit(items) => collect_all_s(s, items),
            SExpr::Absolute(x) => collect_s(s, *x),
            SExpr::Atom(SValue::String(t)) => if lookup(s.strings, t) is Some {
                s
            } else {
                add_string_s(s, t)
            },
            SExpr::Atom(_) => s,
        }
    }
}

/// `collect_s` over a list of trees, in order.
pub open spec fn collect_all_s(s: Cg, items: Seq<SExpr>) -> Cg
    decreases items,
{
    if !s.ok || items.len() == 0 {
        s
    } else {
        collect_all_s(collect_s(s, items[0]), items.subrange(1, items.len() as int))
    }
}

/// The tree of a node with a list of children, in terms of `kids`.
pub proof fn lemma_kids(e: Expression)
    ensures
        match e {
            Expression::Block(items) => e@ == SExpr::Block(kids(items@)),
            Expression::Operation(op, items) => e@ == SExpr::Operation(op, kids(items@)),
            Expression::Cout(items) => e@ == SExpr::Cout(kids(items@)),
            Expression::Cin(items) => e@ == SExpr::Cin(kids(items@)),
            Expression::ArrayInit(items) => e@ == SExpr::ArrayInit(kids(items@)),
            Expression::FuncCall { caller, args } => e@ == (SExpr::FuncCall {
                caller: Box::new(expr_view(*caller)),
                args: kids(args@),
            }),
            _ => true,
        },
{
    match e {
        Expression::Block(items) => {
            assert(kids(items@) =~= expr_view(e)->Block_0);
        },
        Expression::Operation(op, items) => {
            assert(kids(items@) =~= expr_view(e)->Operation_1);
        },
        Expression::Cout(items) => {
            assert(kids(items@) =~= expr_view(e)->Cout_0);
        },
        Expression::Cin(items) => {
            assert(kids(items@) =~= expr_view(e)->Cin_0);
        },
        Expression::ArrayInit(items) => {
            assert(kids(items@) =~= expr_view(e)->ArrayInit_0);
        },
        Expression::FuncCall { caller, args } => {
            assert(kids(args@) =~= expr_view(e)->FuncCall_args);
        },
        _ => {},
    }
}

/// The tree of a leaf is the leaf's value, and only a leaf gives a leaf.
pub proof fn lemma_atom_view(e: Expression)
    ensures
        match e {
            Expression::Atom(v) => e@ == SExpr::Atom(v@),
            _ => !(e@ is Atom),
        },
{
}

/// A failed state stays failed through symbol collection.
proof fn lemma_collect_failed()
    ensures
        forall|s: Cg, e: SExpr| !s.ok ==> #[trigger] collect_s(s, e) == s,
        forall|s: Cg, x: Option<Box<SExpr>>| !s.ok ==> #[trigger] collect_opt_s(s, x) == s,
        forall|s: Cg, items: Seq<SExpr>| !s.ok ==> #[trigger] collect_all_s(s, items) == s,
{
    assert forall|s: Cg, e: SExpr| !s.ok implies #[trigger] collect_s(s, e) == s by {}
    assert forall|s: Cg, x: Option<Box<SExpr>>| !s.ok implies #[trigger] collect_opt_s(s, x) == s by {
        match x {
            Some(b) => {
                assert(collect_s(s, *b) == s);
            },
            None => {},
        }
    }
    assert forall|s: Cg, items: Seq<SExpr>| !s.ok implies #[trigger] collect_all_s(s, items) == s by {}
}

// ---------------------------------------------------------------------------
// Compilation
// ---------------------------------------------------------------------------

/// The trees that `compile_statement` handles itself (the others it hands
/// to `compile_expression`, and the other way round).
pub open spec fn stmt_kind(e: SExpr) -> bool {
    match e {
        SExpr::Block(_) => true,
        SExpr::VarDecl { .. } => true,
        SExpr::FuncDecl { .. } => true,
        SExpr::If { .. } => true,
        SExpr::While { .. } => true,
        SExpr::For { .. } => true,
        SExpr::Cout(_) => true,
        SExpr::Cin(_) => true,
        SExpr::Return(_) => true,
        SExpr::Operation(op, _) => op == Ops::Assign || op == Ops::Inc || op == Ops::Dec,
        _ => false,
    }
}

pub open spec fn stmt_rank(e: SExpr) -> int {
    if stmt_kind(e) {
        1
    } else {
        2
    }
}

pub open spec fn expr_rank(e: SExpr) -> int {
    if stmt_kind(e) {
        2
    } else {
        1
    }
}

/// The operators that compile to one ALU instruction.
pub open spec fn is_arith(op: Ops) -> bool {
    op == Ops::Add || op == Ops::Sub || op == Ops::Mul || op == Ops::Div || op == Ops::Rem
        || op == Ops::And || op == Ops::BitAnd || op == Ops::Or || op == Ops::BitOr
        || op == Ops::Xor
}

/// The comparison operators.
pub open spec fn is_relation(op: Ops) -> bool {
    op == Ops::Eq || op == Ops::NotEq || op == Ops::Less || op == Ops::LessEq
        || op == Ops::Greater || op == Ops::GreaterEq
}

/// The ALU opcode of an operator (`ADD` for the others).
pub open spec fn binary_op(op: Ops) -> u8 {
    if op == Ops::Add {
        OP_ADD
    } else if op == Ops::Sub {
        OP_SUB
    } else if op == Ops::Mul {
        OP_MUL
    } else if op == Ops::Div {
        OP_DIV
    } else if op == Ops::Rem {
        OP_MOD
    } else if op == Ops::And || op == Ops::BitAnd {
        OP_AND
    } else if op == Ops::Or || op == Ops::BitOr {
        OP_OR
    } else if op == Ops::Xor {
        OP_XOR
    } else {
        OP_ADD
    }
}

/// The conditional jump of a comparison, and whether its operands swap.
pub open spec fn relation_jump(op: Ops) -> (u8, bool) {
    if op == Ops::Eq {
        (OP_JEQ, false)
    } else if op == Ops::NotEq {
        (OP_JNE, false)
    } else if op == Ops::Less {
        (OP_JLT, false)
    } else if op == Ops::LessEq {
        (OP_JGE, false)
    } else if op == Ops::Greater {
        (OP_JLT, true)
    } else {
        (OP_JGE, true)
    }
}

/// A variable of more than one word.
pub open spec fn is_array(v: Option<VarInfo>) -> bool {
    v matches Some(i) && i.size > 1
}

/// A one-word variable of type `ptr`.
pub open spec fn is_ptr(v: Option<VarInfo>) -> bool {
    v matches Some(i) && i.typ == "ptr"@ && i.size == 1
}

/// Loads (or, with another opcode, combines with) the value of a variable:
/// its address when it is an array.
pub open spec fn var_value_s(s: Cg, opcode: u8, name: Seq<char>) -> Cg {
    if is_array(lookup(s.vars, name)) {
        imm_ref_s(s, opcode, name)
    } else {
        var_ref_s(s, opcode, name, 0)
    }
}

/// The address of element `index` of array `name` into a fresh temporary
/// (which is returned): the base (loaded from the variable when it is a
/// pointer), plus four times the index.
pub open spec fn element_address_s(s: Cg, name: Seq<char>, index: SExpr) -> (Cg, Seq<char>)
    decreases index, 4int,
{
    let (s1, t) = new_temp_s(s);
    let s2 = if is_ptr(lookup(s1.vars, name)) {
        var_ref_s(s1, OP_LD, name, 0)
    } else {
        imm_ref_s(s1, OP_LD, name)
    };
    let s3 = var_ref_s(s2, OP_ST, t, 0);
    let s4 = expr_s(s3, index);
    let s5 = emit_s(s4, OP_MUL, 1, 4);
    (var_ref_s(var_ref_s(s5, OP_ADD, t, 0), OP_ST, t, 0), t)
}

/// Materialises a truth value: 1 at `t`, 0 at `f`, both continuing at `e`.
pub open spec fn bool_value_s(s: Cg, t: Seq<char>, f: Seq<char>, e: Seq<char>) -> Cg {
    let s1 = emit_s(label_s(s, t), OP_LD, 1, 1);
    let s2 = label_s(jump_s(s1, OP_JMP, e), f);
    label_s(emit_s(s2, OP_LD, 1, 0), e)
}

/// Three fresh labels.
pub open spec fn three_labels_s(s: Cg) -> (Cg, Seq<char>, Seq<char>, Seq<char>) {
    let (s1, a) = new_label_s(s);
    let (s2, b) = new_label_s(s1);
    let (s3, c) = new_label_s(s2);
    (s3, a, b, c)
}

/// Reads input words into the variables of a `cin` list (other items are
/// skipped).
pub open spec fn cin_all_s(s: Cg, items: Seq<SExpr>) -> Cg
    decreases items.len(),
{
    if !s.ok || items.len() == 0 {
        s
    } else {
        let s1 = match items[0] {
            SExpr::Atom(SValue::Variable(v)) => var_ref_s(
                emit_s(s, OP_LD, MODE_DIRECT, IN_PORT),
                OP_ST,
                v,
                0,
            ),
            _ => s,
        };
        cin_all_s(s1, items.subrange(1, items.len() as int))
    }
}

/// Pops the arguments of a call into the parameters, in order.
pub open spec fn pop_args_s(s: Cg, args: Seq<(Seq<char>, Seq<char>)>) -> Cg
    decreases args.len(),
{
    if !s.ok || args.len() == 0 {
        s
    } else {
        pop_args_s(
            var_ref_s(emit_s(s, OP_POP, 0, 0), OP_ST, args[0].1, 0),
            args.subrange(1, args.len() as int),
        )
    }
}

/// The entry of a function with parameters: the return address is saved
/// in a temporary while the arguments are popped, then pushed back.
pub open spec fn prologue_s(s: Cg, args: Seq<(Seq<char>, Seq<char>)>) -> Cg {
    let (s1, t) = new_temp_s(s);
    let s2 = var_ref_s(emit_s(s1, OP_POP, 0, 0), OP_ST, t, 0);
    let s3 = pop_args_s(s2, args);
    emit_s(var_ref_s(s3, OP_LD, t, 0), OP_PUSH, 0, 0)
}

/// The data words of an array initialiser: integers and characters as they
/// are, the integers of a nested initialiser, 0 for anything else.
pub open spec fn array_init_s(s: Cg, items: Seq<SExpr>) -> Cg
    decreases items.len(),
{
    if !s.ok || items.len() == 0 {
        s
    } else {
        let s1 = match items[0] {
            SExpr::Atom(SValue::Integer(n)) => put_data_s(s, n as u32),
            SExpr::Atom(SValue::Char(c)) => put_data_s(s, c as u32),
            SExpr::ArrayInit(inner) => put_ints_s(s, inner),
            _ => put_data_s(s, 0),
        };
        array_init_s(s1, items.subrange(1, items.len() as int))
    }
}

/// The integer literals of a nested initialiser.
pub open spec fn put_ints_s(s: Cg, items: Seq<SExpr>) -> Cg
    decreases items.len(),
{
    if !s.ok || items.len() == 0 {
        s
    } else {
        let s1 = match items[0] {
            SExpr::Atom(SValue::Integer(n)) => put_data_s(s, n as u32),
            _ => s,
        };
        put_ints_s(s1, items.subrange(1, items.len() as int))
    }
}

/// `compile_statement`.
pub open spec fn stmt_s(s: Cg, e: SExpr) -> Cg
    decreases e, stmt_rank(e),
{
    if !s.ok {
        s
    } else {
        match e {
            SExpr::Block(items) => stmt_all_s(s, items),
            SExpr::VarDecl { name, init, .. } => {
                let s1 = declare_s(s, name, word_var());
                match init {
                    Some(x) => var_ref_s(expr_s(s1, *x), OP_ST, name, 0),
                    None => s1,
                }
            },
            SExpr::FuncDecl { name, args, body, .. } => {
                let s1 = label_s(declare_args_s(s, args), "fn_"@ + name);
                let s2 = Cg { in_main: name == "main"@, ..s1 };
                let s3 = if name != "main"@ && args.len() > 0 {
                    prologue_s(s2, args)
                } else {
                    s2
                };
                let s4 = stmt_s(s3, *body);
                let s5 = Cg { in_main: false, ..s4 };
                if name != "main"@ {
                    emit_s(s5, OP_RET, 0, 0)
                } else {
                    s5
                }
            },
            SExpr::If { cond, then_br, else_br } => {
                let (s1, tl, el, nl) = three_labels_s(s);
                let fl = if else_br is Some {
                    el
                } else {
                    nl
                };
                let s2 = cond_s(s1, *cond, tl, fl);
                let s3 = jump_s(stmt_s(label_s(s2, tl), *then_br), OP_JMP, nl);
                let s4 = match else_br {
                    Some(b) => stmt_s(label_s(s3, el), *b),
                    None => s3,
                };
                label_s(s4, nl)
            },
            SExpr::While { cond, body } => {
                let (s1, ll, bl, nl) = three_labels_s(s);
                let s2 = cond_s(label_s(s1, ll), *cond, bl, nl);
                let s3 = stmt_s(label_s(s2, bl), *body);
                label_s(jump_s(s3, OP_JMP, ll), nl)
            },
            SExpr::For { init, cond, step, body } => {
                let (s1, ll, bl, nl) = three_labels_s(stmt_s(s, *init));
                let s2 = cond_s(label_s(s1, ll), *cond, bl, nl);
                let s3 = stmt_s(stmt_s(label_s(s2, bl), *body), *step);
                label_s(jump_s(s3, OP_JMP, ll), nl)
            },
            SExpr::Cout(items) => cout_all_s(s, items),
            SExpr::Cin(items) => cin_all_s(s, items),
            SExpr::Return(x) => {
                let s1 = match x {
                    Some(b) => expr_s(s, *b),
                    None => emit_s(s, OP_CLA, 0, 0),
                };
                if !s1.in_main {
                    emit_s(s1, OP_RET, 0, 0)
                } else {
                    s1
                }
            },
            SExpr::Operation(op, items) => {
                if op == Ops::Assign {
                    if items.len() < 2 {
                        fail(s)
                    } else {
                        assign_s(s, items)
                    }
                } else if op == Ops::Inc || op == Ops::Dec {
                    if items.len() < 1 {
                        fail(s)
                    } else {
                        incdec_s(s, items[0], op == Ops::Inc)
                    }
                } else {
                    expr_s(s, e)
                }
            },
            _ => expr_s(s, e),
        }
    }
}

/// `compile_statement` over a list, in order.
pub open spec fn stmt_all_s(s: Cg, items: Seq<SExpr>) -> Cg
    decreases items, 0int,
{
    if !s.ok || items.len() == 0 {
        s
    } else {
        stmt_all_s(stmt_s(s, items[0]), items.subrange(1, items.len() as int))
    }
}

/// Each item of a `cout` list, stored to the output port.
pub open spec fn cout_all_s(s: Cg, items: Seq<SExpr>) -> Cg
    decreases items, 0int,
{
    if !s.ok || items.len() == 0 {
        s
    } else {
        cout_all_s(
            emit_s(expr_s(s, items[0]), OP_ST, MODE_DIRECT, OUT_PORT),
            items.subrange(1, items.len() as int),
        )
    }
}

/// The arguments of a call, pushed last first.
pub open spec fn push_args_s(s: Cg, args: Seq<SExpr>) -> Cg
    decreases args, 0int,
{
    if !s.ok || args.len() == 0 {
        s
    } else {
        push_args_s(
            emit_s(expr_s(s, args[args.len() - 1]), OP_PUSH, 0, 0),
            args.subrange(0, args.len() - 1),
        )
    }
}

/// `compile_assign` of `items[0] = items[1]`.
pub open spec fn assign_s(s: Cg, items: Seq<SExpr>) -> Cg
    decreases items, 0int,
{
    if !s.ok || items.len() < 2 {
        s
    } else {
        match items[0] {
            SExpr::Atom(SValue::Variable(v)) => var_ref_s(expr_s(s, items[1]), OP_ST, v, 0),
            SExpr::ArrayIndex { arr, index } => match *arr {
                SExpr::Atom(SValue::Variable(n)) => {
                    let (s1, t) = element_address_s(s, n, *index);
                    auto_inc_ref_s(expr_s(s1, items[1]), OP_ST, t)
                },
                _ => s,
            },
            _ => s,
        }
    }
}

/// `compile_increment_or_decrement`.
pub open spec fn incdec_s(s: Cg, left: SExpr, increment: bool) -> Cg {
    match left {
        SExpr::Atom(SValue::Variable(x)) => {
            let s1 = var_ref_s(s, OP_LD, x, 0);
            let s2 = emit_s(
                s1,
                if increment {
                    OP_INC
                } else {
                    OP_DEC
                },
                0,
                0,
            );
            var_ref_s(s2, OP_ST, x, 0)
        },
        _ => s,
    }
}

/// `compile_expression`: code that leaves the value of `e` in the
/// accumulator.
pub open spec fn expr_s(s: Cg, e: SExpr) -> Cg
    decreases e, expr_rank(e),
{
    if !s.ok {
        s
    } else {
        match e {
            SExpr::Atom(SValue::Integer(n)) => emit_s(s, OP_LD, 1, n as u32),
            SExpr::Atom(SValue::Char(c)) => emit_s(s, OP_LD, 1, c as u32),
            SExpr::Atom(SValue::Boolean(b)) => emit_s(
                s,
                OP_LD,
                1,
                if b {
                    1
                } else {
                    0
                },
            ),
            SExpr::Atom(SValue::Variable(name)) => var_value_s(s, OP_LD, name),
            SExpr::Atom(SValue::String(t)) => {
                let off: u32 = match lookup(s.strings, t) {
                    Some(o) => o,
                    None => 0,
                };
                let sym = "@str_"@ + dec_digits(off as nat);
                emit_ref_s(s, OP_LD, 1, 0, sym, 0, " "@ + sym + " (fixup)"@)
            },
            SExpr::Operation(op, items) => {
                if op == Ops::Neg {
                    if items.len() < 1 {
                        fail(s)
                    } else {
                        emit_s(expr_s(s, items[0]), OP_INV, 0, 0)
                    }
                } else if op == Ops::Not {
                    if items.len() < 1 {
                        fail(s)
                    } else {
                        let s1 = emit_s(expr_s(s, items[0]), OP_CMP, 1, 0);
                        let (s2, tl, fl, nl) = three_labels_s(s1);
                        let s3 = jump_s(jump_s(s2, OP_JEQ, tl), OP_JMP, fl);
                        bool_value_s(s3, tl, fl, nl)
                    }
                } else if is_arith(op) {
                    if items.len() < 1 {
                        fail(s)
                    } else {
                        let s1 = expr_s(s, items[0]);
                        if items.len() > 1 {
                            second_s(s1, items[1], binary_op(op))
                        } else {
                            s1
                        }
                    }
                } else if is_relation(op) {
                    let (s1, tl, fl, nl) = three_labels_s(s);
                    bool_value_s(comparison_s(s1, op, items, tl, fl), tl, fl, nl)
                } else {
                    stmt_s(s, e)
                }
            },
            SExpr::Absolute(x) => emit_s(expr_s(s, *x), OP_ABS, 0, 0),
            SExpr::ArrayIndex { arr, index } => match *arr {
                SExpr::Atom(SValue::Variable(n)) => {
                    let (s1, t) = element_address_s(s, n, *index);
                    auto_inc_ref_s(s1, OP_LD, t)
                },
                _ => s,
            },
            SExpr::FuncCall { caller, args } => match *caller {
                SExpr::Atom(SValue::Variable(f)) => jump_s(
                    push_args_s(s, args),
                    OP_CALL,
                    "fn_"@ + f,
                ),
                _ => s,
            },
            SExpr::ArrayInit(items) => emit_s(array_init_s(s, items), OP_LD, 1, s.data_address),
            _ => stmt_s(s, e),
        }
    }
}

/// `compile_second_operand`: combines the accumulator with `e` by `opcode`,
/// through a temporary when `e` is not a literal or a variable.
pub open spec fn second_s(s: Cg, e: SExpr, opcode: u8) -> Cg
    decreases e, 3int,
{
    if !s.ok {
        s
    } else {
        match e {
            SExpr::Atom(SValue::Integer(n)) => emit_s(s, opcode, 1, n as u32),
            SExpr::Atom(SValue::Char(c)) => emit_s(s, opcode, 1, c as u32),
            SExpr::Atom(SValue::Variable(name)) => var_value_s(s, opcode, name),
            _ => {
                let (s1, t) = new_temp_s(s);
                let s2 = expr_s(var_ref_s(s1, OP_ST, t, 0), e);
                var_ref_s(s2, opcode, t, 0)
            },
        }
    }
}

/// `compile_condition`: jumps to `t` when `e` holds, else to `f`.
pub open spec fn cond_s(s: Cg, e: SExpr, t: Seq<char>, f: Seq<char>) -> Cg
    decreases e, 4int,
{
    if !s.ok {
        s
    } else {
        match e {
            SExpr::Atom(SValue::Boolean(b)) => jump_s(
                s,
                OP_JMP,
                if b {
                    t
                } else {
                    f
                },
            ),
            SExpr::Operation(op, items) => {
                if is_relation(op) {
                    comparison_s(s, op, items, t, f)
                } else if op == Ops::And || op == Ops::Or {
                    if items.len() < 2 {
                        fail(s)
                    } else {
                        let (s1, nl) = new_label_s(s);
                        let s2 = if op == Ops::And {
                            cond_s(s1, items[0], nl, f)
                        } else {
                            cond_s(s1, items[0], t, nl)
                        };
                        cond_s(label_s(s2, nl), items[1], t, f)
                    }
                } else if op == Ops::Not {
                    if items.len() < 1 {
                        fail(s)
                    } else {
                        cond_s(s, items[0], f, t)
                    }
                } else {
                    test_s(s, e, t, f)
                }
            },
            _ => test_s(s, e, t, f),
        }
    }
}

/// A negated condition compiles as the condition with its two targets
/// swapped, so a doubly negated one compiles as the condition itself.
pub proof fn lemma_negated_condition(s: Cg, e: SExpr, t: Seq<char>, f: Seq<char>)
    ensures
        cond_s(s, SExpr::Operation(Ops::Not, seq![e]), t, f) == cond_s(s, e, f, t),
        cond_s(s, SExpr::Operation(Ops::Not, seq![SExpr::Operation(Ops::Not, seq![e])]), t, f)
            == cond_s(s, e, t, f),
{
    let n = SExpr::Operation(Ops::Not, seq![e]);
    assert(seq![e][0] == e);
    assert(seq![n][0] == n);
    assert(cond_s(s, n, f, t) == cond_s(s, e, t, f));
    assert(cond_s(s, SExpr::Operation(Ops::Not, seq![n]), t, f) == cond_s(s, n, f, t));
}

/// A condition by value: computes `e` and jumps on whether it is non-zero.
pub open spec fn test_s(s: Cg, e: SExpr, t: Seq<char>, f: Seq<char>) -> Cg
    decreases e, 3int,
{
    let s1 = emit_s(expr_s(s, e), OP_CMP, 1, 0);
    jump_s(jump_s(s1, OP_JNE, t), OP_JMP, f)
}

/// `compile_comparison`: compares `items[0]` with `items[1]` and jumps to
/// `t` when the comparison holds, else to `f`.
pub open spec fn comparison_s(s: Cg, op: Ops, items: Seq<SExpr>, t: Seq<char>, f: Seq<char>) -> Cg
    decreases items, 0int,
{
    if !s.ok || !is_relation(op) {
        s
    } else if items.len() < 2 {
        fail(s)
    } else {
        let (jop, swap) = relation_jump(op);
        let s1 = if swap {
            second_s(expr_s(s, items[1]), items[0], OP_CMP)
        } else {
            second_s(expr_s(s, items[0]), items[1], OP_CMP)
        };
        jump_s(jump_s(s1, jop, t), OP_JMP, f)
    }
}

/// A failed state stays failed through compilation.
proof fn lemma_compile_failed()
    ensures
        forall|s: Cg, e: SExpr| !s.ok ==> #[trigger] stmt_s(s, e) == s,
        forall|s: Cg, e: SExpr| !s.ok ==> #[trigger] expr_s(s, e) == s,
        forall|s: Cg, e: SExpr, op: u8| !s.ok ==> #[trigger] second_s(s, e, op) == s,
        forall|s: Cg, e: SExpr, t: Seq<char>, f: Seq<char>| !s.ok ==> #[trigger] cond_s(s, e, t, f) == s,
        forall|s: Cg, e: SExpr, t: Seq<char>, f: Seq<char>| !s.ok ==> #[trigger] test_s(s, e, t, f) == s,
        forall|s: Cg, op: Ops, items: Seq<SExpr>, t: Seq<char>, f: Seq<char>|
            !s.ok ==> #[trigger] comparison_s(s, op, items, t, f) == s,
        forall|s: Cg, items: Seq<SExpr>| !s.ok ==> #[trigger] stmt_all_s(s, items) == s,
        forall|s: Cg, items: Seq<SExpr>| !s.ok ==> #[trigger] cout_all_s(s, items) == s,
        forall|s: Cg, items: Seq<SExpr>| !s.ok ==> #[trigger] cin_all_s(s, items) == s,
        forall|s: Cg, items: Seq<SExpr>| !s.ok ==> #[trigger] push_args_s(s, items) == s,
        forall|s: Cg, items: Seq<SExpr>| !s.ok ==> #[trigger] assign_s(s, items) == s,
        forall|s: Cg, items: Seq<SExpr>| !s.ok ==> #[trigger] array_init_s(s, items) == s,
        forall|s: Cg, items: Seq<SExpr>| !s.ok ==> #[trigger] put_ints_s(s, items) == s,
        forall|s: Cg, l: SExpr, inc: bool| !s.ok ==> #[trigger] incdec_s(s, l, inc) == s,
        forall|s: Cg, args: Seq<(Seq<char>, Seq<char>)>| !s.ok ==> #[trigger] pop_args_s(s, args) == s,
        forall|s: Cg, args: Seq<(Seq<char>, Seq<char>)>| !s.ok ==> #[trigger] prologue_s(s, args) == s,
        forall|s: Cg, args: Seq<(Seq<char>, Seq<char>)>| !s.ok ==> #[trigger] declare_args_s(s, args) == s,
        forall|s: Cg, n: Seq<char>, i: SExpr| !s.ok ==> #[trigger] element_address_s(s, n, i).0 == s,
        forall|s: Cg, t: Seq<char>, f: Seq<char>, e: Seq<char>| !s.ok ==> #[trigger] bool_value_s(s, t, f, e) == s,
        forall|s: Cg| !s.ok ==> #[trigger] three_labels_s(s).0 == s,
        forall|s: Cg, w: u32| !s.ok ==> #[trigger] put_data_s(s, w) == s,
        forall|s: Cg, op: u8, n: Seq<char>| !s.ok ==> #[trigger] var_value_s(s, op, n) == s,
{
    assert forall|s: Cg, e: SExpr| !s.ok implies #[trigger] stmt_s(s, e) == s by {}
    assert forall|s: Cg, e: SExpr| !s.ok implies #[trigger] expr_s(s, e) == s by {}
    assert forall|s: Cg, e: SExpr, op: u8| !s.ok implies #[trigger] second_s(s, e, op) == s by {}
    assert forall|s: Cg, e: SExpr, t: Seq<char>, f: Seq<char>| !s.ok implies #[trigger] cond_s(s, e, t, f) == s by {}
    assert forall|s: Cg, e: SExpr, t: Seq<char>, f: Seq<char>| !s.ok implies #[trigger] test_s(s, e, t, f) == s by {
        assert(expr_s(s, e) == s);
    }
    assert forall|s: Cg, op: Ops, items: Seq<SExpr>, t: Seq<char>, f: Seq<char>|
        !s.ok implies #[trigger] comparison_s(s, op, items, t, f) == s by {}
    assert forall|s: Cg, items: Seq<SExpr>| !s.ok implies #[trigger] stmt_all_s(s, items) == s by {}
    assert forall|s: Cg, items: Seq<SExpr>| !s.ok implies #[trigger] cout_all_s(s, items) == s by {}
    assert forall|s: Cg, items: Seq<SExpr>| !s.ok implies #[trigger] cin_all_s(s, items) == s by {}
    assert forall|s: Cg, items: Seq<SExpr>| !s.ok implies #[trigger] push_args_s(s, items) == s by {}
    assert forall|s: Cg, items: Seq<SExpr>| !s.ok implies #[trigger] assign_s(s, items) == s by {}
    assert forall|s: Cg, items: Seq<SExpr>| !s.ok implies #[trigger] array_init_s(s, items) == s by {}
    assert forall|s: Cg, items: Seq<SExpr>| !s.ok implies #[trigger] put_ints_s(s, items) == s by {}
    assert forall|s: Cg, l: SExpr, inc: bool| !s.ok implies #[trigger] incdec_s(s, l, inc) == s by {}
    assert forall|s: Cg, args: Seq<(Seq<char>, Seq<char>)>| !s.ok implies #[trigger] pop_args_s(s, args) == s by {}
    assert forall|s: Cg, args: Seq<(Seq<char>, Seq<char>)>| !s.ok implies #[trigger] prologue_s(s, args) == s by {
        assert(pop_args_s(s, args) == s);
    }
    assert forall|s: Cg, args: Seq<(Seq<char>, Seq<char>)>| !s.ok implies #[trigger] declare_args_s(s, args) == s by {}
    assert forall|s: Cg, n: Seq<char>, i: SExpr| !s.ok implies #[trigger] element_address_s(s, n, i).0 == s by {
        let (s1, t) = new_temp_s(s);
        assert(s1 == s);
        let s2 = if is_ptr(lookup(s1.vars, n)) {
            var_ref_s(s1, OP_LD, n, 0)
        } else {
            imm_ref_s(s1, OP_LD, n)
        };
        assert(s2 == s);
        assert(expr_s(var_ref_s(s2, OP_ST, t, 0), i) == s);
    }
    assert forall|s: Cg, t: Seq<char>, f: Seq<char>, e: Seq<char>| !s.ok implies #[trigger] bool_value_s(s, t, f, e) == s by {}
    assert forall|s: Cg| !s.ok implies #[trigger] three_labels_s(s).0 == s by {}
    assert forall|s: Cg, w: u32| !s.ok implies #[trigger] put_data_s(s, w) == s by {}
    assert forall|s: Cg, op: u8, n: Seq<char>| !s.ok implies #[trigger] var_value_s(s, op, n) == s by {}
}

// ---------------------------------------------------------------------------
// The memory image
// ---------------------------------------------------------------------------

/// The variable table with the address of `name` set to `a`.
pub open spec fn set_addr(vars: Seq<(Seq<char>, VarInfo)>, name: Seq<char>, a: u32) -> Seq<(Seq<char>, VarInfo)> {
    match keys_of(vars).index_of_first(name) {
        Some(i) => vars.update(i, (vars[i].0, VarInfo { addr: a, ..vars[i].1 })),
        None => vars,
    }
}

/// Lays out the uninitialised variables from address `addr` on, in the
/// order they were declared; gives the variable table with their addresses
/// and the address after the last, or nothing when an address passes
/// `u32::MAX`.
pub open spec fn layout_bss_s(
    vars: Seq<(Seq<char>, VarInfo)>,
    bss: Seq<(Seq<char>, u32)>,
    addr: u32,
) -> Option<(Seq<(Seq<char>, VarInfo)>, u32)>
    decreases bss.len(),
{
    if bss.len() == 0 {
        Some((vars, addr))
    } else if bss[0].1 * 4 > u32::MAX || addr + bss[0].1 * 4 > u32::MAX {
        None
    } else {
        layout_bss_s(
            set_addr(vars, bss[0].0, addr),
            bss.subrange(1, bss.len() as int),
            (addr + bss[0].1 * 4) as u32,
        )
    }
}

/// The offset that a string symbol `@str_N` names: `N` as `parse::<u32>`
/// reads it, 0 when it does not read.
pub open spec fn str_offset(sym: Seq<char>) -> int {
    match parse_u32_text(sym.subrange(5, sym.len() as int)) {
        Some(n) => n as int,
        None => 0,
    }
}

/// The address a fixup symbol stands for: a label, a variable, or a string
/// literal (after the code); nothing for an unknown symbol.
pub open spec fn fixup_base(
    labels: Seq<(Seq<char>, u32)>,
    vars: Seq<(Seq<char>, VarInfo)>,
    code_bytes: int,
    sym: Seq<char>,
) -> Option<int> {
    match lookup(labels, sym) {
        Some(a) => Some(a as int),
        None => match lookup(vars, sym) {
            Some(v) => Some(v.addr as int),
            None => if sym.len() >= 5 && sym.take(5) == "@str_"@ {
                Some(code_bytes + CODE_BASE + str_offset(sym))
            } else {
                None
            },
        },
    }
}

/// A listing line that starts with `prefix` and mentions a fixup.
pub open spec fn line_matches(line: Seq<char>, prefix: Seq<char>) -> bool {
    prefix.len() <= line.len() && line.take(prefix.len() as int) == prefix && contains_seq(
        line,
        "fixup"@,
    )
}

/// The first line from `from` on that `line_matches`.
pub open spec fn first_match(lines: Seq<Seq<char>>, prefix: Seq<char>, from: int) -> Option<int>
    decreases lines.len() - from,
{
    if from < 0 || from >= lines.len() {
        None
    } else if line_matches(lines[from], prefix) {
        Some(from)
    } else {
        first_match(lines, prefix, from + 1)
    }
}

/// Patches the operand of the instruction at word `address` to `target`
/// (keeping its opcode and mode) and rewrites its listing line.
pub open spec fn patch_s(
    ins: Seq<u32>,
    listing: Seq<Seq<char>>,
    address: u32,
    target: u32,
) -> (Seq<u32>, Seq<Seq<char>>) {
    let old_word = ins[address as int];
    let opcode = (old_word >> 24u32) as u8;
    let mode = (old_word >> 21u32) as u8;
    let new_word = encode_word(opcode, mode & 7u8, target);
    let at = (address * 4 + CODE_BASE) as u32;
    let prefix = "0x"@ + hex_text(at as nat, 4);
    let l = match first_match(listing, prefix, 0) {
        Some(j) => listing.update(j, line_head(at, new_word)),
        None => listing,
    };
    (ins.update(address as int, new_word), l)
}

/// Resolves the fixups in order; nothing when an address passes `u32::MAX`.
pub open spec fn fixups_s(
    labels: Seq<(Seq<char>, u32)>,
    vars: Seq<(Seq<char>, VarInfo)>,
    code_bytes: int,
    fixups: Seq<FixupInfo>,
    ins: Seq<u32>,
    listing: Seq<Seq<char>>,
) -> Option<(Seq<u32>, Seq<Seq<char>>)>
    decreases fixups.len(),
{
    if fixups.len() == 0 {
        Some((ins, listing))
    } else {
        let f = fixups[0];
        let rest = fixups.subrange(1, fixups.len() as int);
        match fixup_base(labels, vars, code_bytes, f.symbol) {
            None => fixups_s(labels, vars, code_bytes, rest, ins, listing),
            Some(b) => if b + f.offset > u32::MAX {
                None
            } else {
                let (i2, l2) = patch_s(ins, listing, f.address, (b + f.offset) as u32);
                fixups_s(labels, vars, code_bytes, rest, i2, l2)
            },
        }
    }
}

/// The generator's state once a program is compiled: its symbols collected
/// (twice, the second time over fresh data), a jump to `fn_main`, the
/// program, and `HLT`.
pub open spec fn compile_program_s(s0: Cg, program: SExpr) -> Cg {
    let s1 = collect_s(s0, program);
    let s2 = Cg { data_address: 0, data: Seq::empty(), strings: Seq::empty(), ..s1 };
    emit_s(stmt_s(jump_s(collect_s(s2, program), OP_JMP, "fn_main"@), program), OP_HLT, 0, 0)
}

/// What `generate` gives from state `s0`: the memory image (code, data,
/// zeroed variables) and the listing, or nothing where the generator
/// cannot finish (an address past `u32::MAX`, an operation without its
/// operands).
pub open spec fn generate_from(s0: Cg, program: SExpr) -> Option<(Seq<u32>, Seq<Seq<char>>)> {
    let s = compile_program_s(s0, program);
    let code_bytes = 4 * s.instructions.len() as int;
    let start = code_bytes + 4 * s.data.len() + CODE_BASE;
    if !s.ok || start > u32::MAX {
        None
    } else {
        match layout_bss_s(s.vars, s.bss, start as u32) {
            None => None,
            Some((vars, end)) => match fixups_s(
                s.labels,
                vars,
                code_bytes,
                s.fixups,
                s.instructions,
                s.listing,
            ) {
                None => None,
                Some((ins, listing)) => Some(
                    (ins + s.data + Seq::new(((end - start) / 4) as nat, |_i: int| 0u32), listing),
                ),
            },
        }
    }
}

/// The layout ends no lower than it starts.
proof fn lemma_layout_grows(vars: Seq<(Seq<char>, VarInfo)>, bss: Seq<(Seq<char>, u32)>, addr: u32)
    ensures
        layout_bss_s(vars, bss, addr) matches Some((_, e)) ==> addr <= e,
    decreases bss.len(),
{
    if bss.len() > 0 && !(bss[0].1 * 4 > u32::MAX || addr + bss[0].1 * 4 > u32::MAX) {
        lemma_layout_grows(
            set_addr(vars, bss[0].0, addr),
            bss.subrange(1, bss.len() as int),
            (addr + bss[0].1 * 4) as u32,
        );
    }
}

/// The symbol of a string literal names the literal's offset: a fixup of
/// `@str_N` (with no label or variable of that name) resolves to the
/// address of the data at offset `N`, right after the code.
pub proof fn lemma_string_symbol(
    labels: Seq<(Seq<char>, u32)>,
    vars: Seq<(Seq<char>, VarInfo)>,
    code_bytes: int,
    off: u32,
)
    requires
        lookup(labels, "@str_"@ + dec_digits(off as nat)) is None,
        lookup(vars, "@str_"@ + dec_digits(off as nat)) is None,
    ensures
        fixup_base(labels, vars, code_bytes, "@str_"@ + dec_digits(off as nat)) == Some(
            code_bytes + CODE_BASE + off,
        ),
{
    reveal_strlit("@str_");
    let sym = "@str_"@ + dec_digits(off as nat);
    assert(sym.take(5) =~= "@str_"@);
    assert(sym.subrange(5, sym.len() as int) =~= dec_digits(off as nat));
    lemma_parse_u32_read_back(off);
}

/// Reading the fields back from an instruction word gives what was
/// encoded: the opcode, the mode (below 8) and the low 21 bits of the
/// operand.
pub proof fn lemma_encode_fields(opcode: u8, mode: u8, operand: u32)
    requires
        mode < 8,
    ensures
        (encode_word(opcode, mode, operand) >> 24u32) & 0xFFu32 == opcode as u32,
        (encode_word(opcode, mode, operand) >> 21u32) & 7u32 == mode as u32,
        encode_word(opcode, mode, operand) & 0x1FFFFFu32 == operand & 0x1FFFFFu32,
{
    let o = opcode as u32;
    let m = mode as u32;
    assert(o < 256 && m < 8);
    assert((((o << 24u32) | (m << 21u32) | (operand & 0x1FFFFFu32)) >> 24u32) & 0xFFu32 == o
        && (((o << 24u32) | (m << 21u32) | (operand & 0x1FFFFFu32)) >> 21u32) & 7u32 == m
        && ((o << 24u32) | (m << 21u32) | (operand & 0x1FFFFFu32)) & 0x1FFFFFu32 == operand
        & 0x1FFFFFu32) by (bit_vector)
        requires
            o < 256,
            m < 8,
    ;
}

/// An immediate operand in the 21-bit range comes back, sign-extended as
/// the processor reads it, as the value that was encoded.
pub proof fn lemma_immediate_round_trip(opcode: u8, v: i32)
    requires
        -0x100000 <= v < 0x100000,
    ensures
        sign_extend(encode_word(opcode, 1, v as u32) & 0x1FFFFFu32) == v,
{
    lemma_encode_fields(opcode, 1, v as u32);
    let w = v as u32;
    assert((w & 0x1FFFFFu32) & 0x100000u32 != 0 ==> ((w & 0x1FFFFFu32) | 0xFFE00000u32) as i32 == v)
        by (bit_vector)
        requires
            w == v as u32,
            -0x100000 <= v < 0x100000,
    ;
    assert((w & 0x1FFFFFu32) & 0x100000u32 == 0 ==> (w & 0x1FFFFFu32) as i32 == v) by (bit_vector)
        requires
            w == v as u32,
            -0x100000 <= v < 0x100000,
    ;
}

/// The words of the uninitialised variables, one entry per declaration.
pub open spec fn total_size(bss: Seq<(Seq<char>, u32)>) -> int
    decreases bss.len(),
{
    if bss.len() == 0 {
        0
    } else {
        bss[0].1 as int + total_size(bss.subrange(1, bss.len() as int))
    }
}

/// The layout of the variables ends four bytes per word after it starts.
pub proof fn lemma_layout_end(vars: Seq<(Seq<char>, VarInfo)>, bss: Seq<(Seq<char>, u32)>, addr: u32)
    ensures
        layout_bss_s(vars, bss, addr) matches Some((_, e)) ==> e == addr + 4 * total_size(bss),
    decreases bss.len(),
{
    if bss.len() > 0 && !(bss[0].1 * 4 > u32::MAX || addr + bss[0].1 * 4 > u32::MAX) {
        lemma_layout_end(
            set_addr(vars, bss[0].0, addr),
            bss.subrange(1, bss.len() as int),
            (addr + bss[0].1 * 4) as u32,
        );
    }
}

/// Setting an address keeps the names of the table.
proof fn lemma_set_addr_keys(vars: Seq<(Seq<char>, VarInfo)>, m: Seq<char>, a: u32)
    ensures
        keys_of(set_addr(vars, m, a)) == keys_of(vars),
{
    keys_of(vars).index_of_first_ensures(m);
    assert(keys_of(set_addr(vars, m, a)) =~= keys_of(vars));
}

/// Setting the address of `m` changes what `m` finds, and nothing else.
proof fn lemma_set_addr_lookup(vars: Seq<(Seq<char>, VarInfo)>, m: Seq<char>, a: u32, n: Seq<char>)
    ensures
        lookup(set_addr(vars, m, a), n) == (if n == m && lookup(vars, n) is Some {
            Some(VarInfo { addr: a, ..lookup(vars, n)->0 })
        } else {
            lookup(vars, n)
        }),
{
    lemma_set_addr_keys(vars, m, a);
    keys_of(vars).index_of_first_ensures(m);
    keys_of(vars).index_of_first_ensures(n);
}

/// The layout keeps the names of the table, and what a name that is not
/// laid out finds.
proof fn lemma_layout_keeps(vars: Seq<(Seq<char>, VarInfo)>, bss: Seq<(Seq<char>, u32)>, addr: u32, n: Seq<char>)
    ensures
        layout_bss_s(vars, bss, addr) matches Some((vs, _)) ==> keys_of(vs) == keys_of(vars)
            && (!keys_of(bss).contains(n) ==> lookup(vs, n) == lookup(vars, n)),
    decreases bss.len(),
{
    if bss.len() > 0 && !(bss[0].1 * 4 > u32::MAX || addr + bss[0].1 * 4 > u32::MAX) {
        let tail = bss.subrange(1, bss.len() as int);
        let v1 = set_addr(vars, bss[0].0, addr);
        lemma_set_addr_keys(vars, bss[0].0, addr);
        lemma_layout_keeps(v1, tail, (addr + bss[0].1 * 4) as u32, n);
        if !keys_of(bss).contains(n) {
            assert(keys_of(bss)[0] == bss[0].0);
            assert forall|j: int| 0 <= j < tail.len() implies keys_of(tail)[j] != n by {
                assert(keys_of(tail)[j] == keys_of(bss)[j + 1]);
            }
            lemma_set_addr_lookup(vars, bss[0].0, addr, n);
        }
    }
}

/// The words of the first `k` declarations and of the next one.
proof fn lemma_total_take(bss: Seq<(Seq<char>, u32)>, k: int)
    requires
        0 <= k < bss.len(),
    ensures
        total_size(bss.take(k + 1)) == total_size(bss.take(k)) + bss[k].1,
    decreases k,
{
    let tail = bss.subrange(1, bss.len() as int);
    let p1 = bss.take(k + 1);
    assert(p1[0] == bss[0]);
    assert(p1.subrange(1, p1.len() as int) =~= tail.take(k));
    assert(total_size(p1) == bss[0].1 + total_size(tail.take(k)));
    if k > 0 {
        lemma_total_take(tail, k - 1);
        let p0 = bss.take(k);
        assert(p0[0] == bss[0]);
        assert(p0.subrange(1, p0.len() as int) =~= tail.take(k - 1));
        assert(total_size(p0) == bss[0].1 + total_size(tail.take(k - 1)));
        assert(tail[k - 1] == bss[k]);
    } else {
        assert(tail.take(0) =~= Seq::<(Seq<char>, u32)>::empty());
        assert(bss.take(0) =~= Seq::<(Seq<char>, u32)>::empty());
        assert(total_size(Seq::<(Seq<char>, u32)>::empty()) == 0);
    }
}

/// A prefix of the declarations has no more words than all of them.
proof fn lemma_total_prefix(bss: Seq<(Seq<char>, u32)>, k: int)
    requires
        0 <= k <= bss.len(),
    ensures
        total_size(bss.take(k)) <= total_size(bss),
    decreases bss.len() - k,
{
    if k < bss.len() {
        lemma_total_take(bss, k);
        lemma_total_prefix(bss, k + 1);
    } else {
        assert(bss.take(k) =~= bss);
    }
}

/// Each variable whose declaration is the last of its name sits after the
/// words of the declarations before it: at `addr` plus four bytes per
/// word of those.
pub proof fn lemma_variable_address(vars: Seq<(Seq<char>, VarInfo)>, bss: Seq<(Seq<char>, u32)>, addr: u32, i: int)
    requires
        0 <= i < bss.len(),
        lookup(vars, bss[i].0) is Some,
        forall|j: int| i < j < bss.len() ==> (#[trigger] bss[j]).0 != bss[i].0,
    ensures
        layout_bss_s(vars, bss, addr) matches Some((vs, _)) ==> lookup(vs, bss[i].0) is Some
            && lookup(vs, bss[i].0)->0.addr == addr + 4 * total_size(bss.take(i)),
    decreases i,
{
    if !(bss[0].1 * 4 > u32::MAX || addr + bss[0].1 * 4 > u32::MAX) {
        let tail = bss.subrange(1, bss.len() as int);
        let n = bss[i].0;
        let v1 = set_addr(vars, bss[0].0, addr);
        let a1 = (addr + bss[0].1 * 4) as u32;
        lemma_set_addr_lookup(vars, bss[0].0, addr, n);
        if i == 0 {
            assert forall|j: int| 0 <= j < tail.len() implies keys_of(tail)[j] != n by {
                assert(tail[j] == bss[j + 1]);
            }
            lemma_layout_keeps(v1, tail, a1, n);
            assert(bss.take(0) =~= Seq::<(Seq<char>, u32)>::empty());
        } else {
            assert(tail[i - 1] == bss[i]);
            assert forall|j: int| i - 1 < j < tail.len() implies (#[trigger] tail[j]).0 != tail[i - 1].0 by {
                assert(tail[j] == bss[j + 1]);
            }
            lemma_variable_address(v1, tail, a1, i - 1);
            assert(bss.take(i).subrange(1, i) =~= tail.take(i - 1));
        }
    }
}

/// Variables laid out apart: of two declarations, each the last of its
/// name, the earlier one's words end where the later one's may start at
/// the earliest, and every variable ends by the end of the layout.
pub proof fn lemma_variables_apart(vars: Seq<(Seq<char>, VarInfo)>, bss: Seq<(Seq<char>, u32)>, addr: u32, i: int, j: int)
    requires
        0 <= i < j < bss.len(),
        lookup(vars, bss[i].0) is Some,
        lookup(vars, bss[j].0) is Some,
        forall|k: int| i < k < bss.len() ==> (#[trigger] bss[k]).0 != bss[i].0,
        forall|k: int| j < k < bss.len() ==> (#[trigger] bss[k]).0 != bss[j].0,
    ensures
        layout_bss_s(vars, bss, addr) matches Some((vs, end)) ==> lookup(vs, bss[i].0)->0.addr + 4
            * bss[i].1 <= lookup(vs, bss[j].0)->0.addr && lookup(vs, bss[j].0)->0.addr + 4 * bss[j].1
            <= end,
{
    lemma_variable_address(vars, bss, addr, i);
    lemma_variable_address(vars, bss, addr, j);
    lemma_layout_end(vars, bss, addr);
    lemma_total_take(bss, i);
    lemma_total_take(bss, j);
    lemma_prefix_grows(bss, i + 1, j);
    lemma_total_prefix(bss, j + 1);
}

/// A longer prefix of the declarations has no fewer words.
proof fn lemma_prefix_grows(bss: Seq<(Seq<char>, u32)>, a: int, b: int)
    requires
        0 <= a <= b < bss.len(),
    ensures
        total_size(bss.take(a)) <= total_size(bss.take(b)),
    decreases b - a,
{
    if a < b {
        lemma_total_take(bss, b - 1);
        lemma_prefix_grows(bss, a, b - 1);
    }
}

/// A match that `first_match` finds is a line of the listing.
proof fn lemma_first_match_in_range(lines: Seq<Seq<char>>, prefix: Seq<char>, from: int)
    ensures
        first_match(lines, prefix, from) matches Some(j) ==> 0 <= j < lines.len(),
    decreases lines.len() - from,
{
    if 0 <= from < lines.len() && !line_matches(lines[from], prefix) {
        lemma_first_match_in_range(lines, prefix, from + 1);
    }
}

/// Resolving fixups that point into the code rewrites words and lines in
/// place: the code and the listing keep their lengths.
pub proof fn lemma_fixups_keep_lengths(
    labels: Seq<(Seq<char>, u32)>,
    vars: Seq<(Seq<char>, VarInfo)>,
    code_bytes: int,
    fixups: Seq<FixupInfo>,
    ins: Seq<u32>,
    listing: Seq<Seq<char>>,
)
    requires
        forall|i: int| 0 <= i < fixups.len() ==> #[trigger] fixups[i].address < ins.len(),
    ensures
        fixups_s(labels, vars, code_bytes, fixups, ins, listing) matches Some((i2, l2))
            ==> i2.len() == ins.len() && l2.len() == listing.len(),
    decreases fixups.len(),
{
    if fixups.len() > 0 {
        let f = fixups[0];
        let rest = fixups.subrange(1, fixups.len() as int);
        assert forall|i: int| 0 <= i < rest.len() implies #[trigger] rest[i].address < ins.len() by {
            assert(rest[i] == fixups[i + 1]);
        }
        match fixup_base(labels, vars, code_bytes, f.symbol) {
            None => lemma_fixups_keep_lengths(labels, vars, code_bytes, rest, ins, listing),
            Some(b) => if b + f.offset <= u32::MAX {
                let target = (b + f.offset) as u32;
                let at = (f.address * 4 + CODE_BASE) as u32;
                lemma_first_match_in_range(listing, "0x"@ + hex_text(at as nat, 4), 0);
                let (i2, l2) = patch_s(ins, listing, f.address, target);
                assert(i2.len() == ins.len());
                assert(l2.len() == listing.len());
                lemma_fixups_keep_lengths(labels, vars, code_bytes, rest, i2, l2);
            },
        }
    }
}

/// Whether no later declaration in `bss` has the name of declaration `i`.
pub open spec fn last_decl(bss: Seq<(Seq<char>, u32)>, i: int) -> bool {
    forall|j: int| i < j < bss.len() ==> (#[trigger] bss[j]).0 != bss[i].0
}

/// The address that the laid out table `vs` gives declaration `i`.
pub open spec fn decl_addr(vs: Seq<(Seq<char>, VarInfo)>, bss: Seq<(Seq<char>, u32)>, i: int) -> int {
    lookup(vs, bss[i].0)->0.addr as int
}

/// The variables of `vars` declared in `bss` laid out from `start` up to
/// `end`: each declaration that is the last of its name, of a variable
/// in the table, gets its words within `start..end`, and of two such
/// declarations the earlier one's words end before the later one's begin.
pub open spec fn vars_laid_out(
    vars: Seq<(Seq<char>, VarInfo)>,
    bss: Seq<(Seq<char>, u32)>,
    start: int,
    end: int,
) -> bool {
    &&& 0 <= start <= u32::MAX
    &&& layout_bss_s(vars, bss, start as u32) matches Some((vs, e)) && e == end && (forall|i: int|
        0 <= i < bss.len() && lookup(vars, (#[trigger] bss[i]).0) is Some && last_decl(bss, i)
            ==> lookup(vs, bss[i].0) is Some && start <= decl_addr(vs, bss, i) && decl_addr(vs, bss, i)
            + 4 * bss[i].1 <= end) && (forall|i: int, j: int|
        0 <= i < j < bss.len() && lookup(vars, (#[trigger] bss[i]).0) is Some && last_decl(bss, i)
            && lookup(vars, (#[trigger] bss[j]).0) is Some && last_decl(bss, j) ==> decl_addr(
            vs,
            bss,
            i,
        ) + 4 * bss[i].1 <= decl_addr(vs, bss, j))
}

/// The variables' layout as `vars_laid_out` describes it, whenever the
/// layout fits below `u32::MAX`.
pub proof fn lemma_layout_ranges(vars: Seq<(Seq<char>, VarInfo)>, bss: Seq<(Seq<char>, u32)>, start: u32)
    ensures
        layout_bss_s(vars, bss, start) matches Some((_, e)) ==> vars_laid_out(vars, bss, start as int, e as int),
{
    lemma_layout_end(vars, bss, start);
    if let Some((vs, e)) = layout_bss_s(vars, bss, start) {
        assert forall|i: int|
            0 <= i < bss.len() && lookup(vars, (#[trigger] bss[i]).0) is Some && last_decl(bss, i)
            implies lookup(vs, bss[i].0) is Some && start <= decl_addr(vs, bss, i) && decl_addr(vs, bss, i)
            + 4 * bss[i].1 <= e by {
            lemma_variable_address(vars, bss, start, i);
            lemma_total_take(bss, i);
            lemma_total_prefix(bss, i + 1);
            lemma_total_prefix_nonneg(bss, i);
        }
        assert forall|i: int, j: int|
            0 <= i < j < bss.len() && lookup(vars, (#[trigger] bss[i]).0) is Some && last_decl(bss, i)
                && lookup(vars, (#[trigger] bss[j]).0) is Some && last_decl(bss, j) implies decl_addr(
            vs,
            bss,
            i,
        ) + 4 * bss[i].1 <= decl_addr(vs, bss, j) by {
            lemma_variables_apart(vars, bss, start, i, j);
        }
    }
}

/// The words of a prefix of the declarations are no fewer than none.
proof fn lemma_total_prefix_nonneg(bss: Seq<(Seq<char>, u32)>, k: int)
    requires
        0 <= k <= bss.len(),
    ensures
        total_size(bss.take(k)) >= 0,
    decreases k,
{
    if k > 0 {
        lemma_total_take(bss, k - 1);
        lemma_total_prefix_nonneg(bss, k - 1);
    } else {
        assert(bss.take(0) =~= Seq::<(Seq<char>, u32)>::empty());
    }
}

/// The shape of a memory image made from the compiled state `s`: as many
/// code words as `s` has instructions, then the data words as they are,
/// then one zero word per word of every declared variable, which the
/// variables take up as `vars_laid_out` describes, from the first byte
/// after the data to the end of the image; and one listing line per line
/// of `s`.
pub open spec fn image_layout(s: Cg, m: Seq<u32>, l: Seq<Seq<char>>) -> bool {
    let n = s.instructions.len() as int;
    let d = s.data.len() as int;
    &&& m.len() == n + d + total_size(s.bss)
    &&& m.subrange(n, n + d) == s.data
    &&& forall|i: int| n + d <= i < m.len() ==> m[i] == 0
    &&& vars_laid_out(s.vars, s.bss, CODE_BASE + 4 * (n + d), CODE_BASE + 4 * m.len())
    &&& l.len() == s.listing.len()
}

/// What a fresh generator makes of `program`.
pub open spec fn generate_s(program: SExpr) -> Option<(Seq<u32>, Seq<Seq<char>>)> {
    generate_from(cg_init(), program)
}

// ---------------------------------------------------------------------------
// The executable state
// ---------------------------------------------------------------------------

struct Var {
    addr: u32,
    typ: Vec<char>,
    size: u32,
}

struct Fixup {
    address: u32,
    symbol: Vec<char>,
    offset: u32,
}

impl Var {
    spec fn info(&self) -> VarInfo {
        VarInfo { addr: self.addr, typ: self.typ@, size: self.size }
    }
}

spec fn vars_view(t: Seq<(Vec<char>, Var)>) -> Seq<(Seq<char>, VarInfo)> {
    t.map_values(|e: (Vec<char>, Var)| (e.0@, e.1.info()))
}

spec fn table_view(t: Seq<(Vec<char>, u32)>) -> Seq<(Seq<char>, u32)> {
    t.map_values(|e: (Vec<char>, u32)| (e.0@, e.1))
}

spec fn fixups_view(t: Seq<Fixup>) -> Seq<FixupInfo> {
    t.map_values(|f: Fixup| FixupInfo { address: f.address, symbol: f.symbol@, offset: f.offset })
}

/// The code generator.
pub struct Codegen {
    instructions: Vec<u32>,
    data_values: Vec<u32>,
    variables: Vec<(Vec<char>, Var)>,
    string_offsets: Vec<(Vec<char>, u32)>,
    labels: Vec<(Vec<char>, u32)>,
    fixups: Vec<Fixup>,
    bss_entries: Vec<(Vec<char>, u32)>,
    label_counter: u32,
    temp_counter: u32,
    code_address: u32,
    data_address: u32,
    in_main_function: bool,
    pub listing: Vec<String>,
}

/// The first index of `k` in `keys`, as `index_of_first` gives it.
proof fn lemma_first_index(keys: Seq<Seq<char>>, k: Seq<char>, i: int)
    requires
        0 <= i < keys.len(),
        keys[i] == k,
        forall|j: int| 0 <= j < i ==> keys[j] != k,
    ensures
        keys.index_of_first(k) == Some(i),
{
    keys.index_of_first_ensures(k);
    match keys.index_of_first(k) {
        Some(x) => {
            if x < i {
                assert(keys[x] != k);
            }
            if x > i {
                assert(keys[i] != k);
            }
        },
        None => {
            assert(keys.contains(k));
        },
    }
}

proof fn lemma_no_index(keys: Seq<Seq<char>>, k: Seq<char>)
    requires
        forall|j: int| 0 <= j < keys.len() ==> keys[j] != k,
    ensures
        keys.index_of_first(k) is None,
{
    keys.index_of_first_ensures(k);
    match keys.index_of_first(k) {
        Some(x) => {
            assert(keys[x] != k);
        },
        None => {},
    }
}

/// Where `k` is in an address table.
fn find_addr(t: &Vec<(Vec<char>, u32)>, k: &Vec<char>) -> (r: Option<usize>)
    ensures
        match r {
            Some(i) => keys_of(table_view(t@)).index_of_first(k@) == Some(i as int) && i < t@.len(),
            None => keys_of(table_view(t@)).index_of_first(k@) is None,
        },
{
    let ghost keys = keys_of(table_view(t@));
    let mut i: usize = 0;
    while i < t.len()
        invariant
            i <= t@.len(),
            keys == keys_of(table_view(t@)),
            keys.len() == t@.len(),
            forall|j: int| 0 <= j < i ==> keys[j] != k@,
        decreases t@.len() - i,
    {
        assert(keys[i as int] == t@[i as int].0@);
        if chars_eq(&t[i].0, k) {
            proof {
                lemma_first_index(keys, k@, i as int);
            }
            return Some(i);
        }
        i = i + 1;
    }
    proof {
        lemma_no_index(keys, k@);
    }
    None
}

/// Where `k` is in the variable table.
fn find_var(t: &Vec<(Vec<char>, Var)>, k: &Vec<char>) -> (r: Option<usize>)
    ensures
        match r {
            Some(i) => keys_of(vars_view(t@)).index_of_first(k@) == Some(i as int) && i < t@.len(),
            None => keys_of(vars_view(t@)).index_of_first(k@) is None,
        },
{
    let ghost keys = keys_of(vars_view(t@));
    let mut i: usize = 0;
    while i < t.len()
        invariant
            i <= t@.len(),
            keys == keys_of(vars_view(t@)),
            keys.len() == t@.len(),
            forall|j: int| 0 <= j < i ==> keys[j] != k@,
        decreases t@.len() - i,
    {
        assert(keys[i as int] == t@[i as int].0@);
        if chars_eq(&t[i].0, k) {
            proof {
                lemma_first_index(keys, k@, i as int);
            }
            return Some(i);
        }
        i = i + 1;
    }
    proof {
        lemma_no_index(keys, k@);
    }
    None
}

fn copy_chars(s: &Vec<char>) -> (r: Vec<char>)
    ensures
        r@ == s@,
{
    let mut r: Vec<char> = Vec::new();
    push_chars(&mut r, s);
    r
}

/// Stores `addr` under `k` in an address table.
fn table_insert(t: &mut Vec<(Vec<char>, u32)>, k: &Vec<char>, addr: u32)
    ensures
        table_view(final(t)@) == insert(table_view(old(t)@), k@, addr),
        keys_of(table_view(old(t)@)).no_duplicates() ==> keys_of(table_view(final(t)@)).no_duplicates(),
{
    let ghost before = table_view(t@);
    proof {
        if keys_of(before).no_duplicates() {
            lemma_insert_distinct(before, k@, addr);
        }
    }
    match find_addr(t, k) {
        Some(i) => {
            t.set(i, (copy_chars(k), addr));
            assert(table_view(t@) =~= before.update(i as int, (k@, addr)));
        },
        None => {
            t.push((copy_chars(k), addr));
            assert(table_view(t@) =~= before.push((k@, addr)));
        },
    }
}

/// Stores `v` under `k` in the variable table.
fn var_insert(t: &mut Vec<(Vec<char>, Var)>, k: &Vec<char>, v: Var)
    ensures
        vars_view(final(t)@) == insert(vars_view(old(t)@), k@, v.info()),
        keys_of(vars_view(old(t)@)).no_duplicates() ==> keys_of(vars_view(final(t)@)).no_duplicates(),
{
    let ghost before = vars_view(t@);
    let ghost vi = v.info();
    proof {
        if keys_of(before).no_duplicates() {
            lemma_insert_distinct(before, k@, vi);
        }
    }
    match find_var(t, k) {
        Some(i) => {
            t.set(i, (copy_chars(k), v));
            assert(vars_view(t@) =~= before.update(i as int, (k@, vi)));
        },
        None => {
            t.push((copy_chars(k), v));
            assert(vars_view(t@) =~= before.push((k@, vi)));
        },
    }
}

/// The instruction word.
fn encode(opcode: u8, mode: u8, operand: u32) -> (r: u32)
    ensures
        r == encode_word(opcode, mode, operand),
{
    (opcode as u32) << 24 | (mode as u32) << 21 | (operand & 0x1FFFFF)
}

fn opcode_mnemonic(opcode: u32) -> (r: &'static str)
    ensures
        r@ == op_name(opcode),
{
    match opcode {
        0x01 => "HLT",
        0x02 => "CLA",
        0x04 => "INV",
        0x05 => "INC",
        0x06 => "DEC",
        0x07 => "ABS",
        0x08 => "PUSH",
        0x09 => "POP",
        0x0A => "RET",
        0x10 => "LD",
        0x11 => "ST",
        0x20 => "ADD",
        0x22 => "SUB",
        0x23 => "MUL",
        0x24 => "DIV",
        0x25 => "MOD",
        0x26 => "CMP",
        0x27 => "AND",
        0x28 => "OR",
        0x29 => "XOR",
        0x30 => "JMP",
        0x31 => "JEQ",
        0x32 => "JNE",
        0x33 => "JLT",
        0x34 => "JGE",
        0x39 => "CALL",
        _ => "???",
    }
}

/// Appends the assembler text of an instruction word.
fn push_mnemonic(out: &mut Vec<char>, instruction: u32)
    ensures
        final(out)@ == old(out)@ + mnemonic_text(instruction),
{
    let ghost start = out@;
    let opcode = (instruction >> 24) & 0xFF;
    let mode = (instruction >> 21) & 7;
    let operand = instruction & 0x1FFFFF;
    let name = opcode_mnemonic(opcode);
    push_str(out, name);
    if mode == 0 {
    } else if mode == 1 {
        push_str(out, " #");
        push_dec_digits(out, operand as u64);
    } else if mode == 2 {
        push_str(out, " [0x");
        push_hex(out, operand as u64, 5);
        push_str(out, "]");
    } else if mode == 3 {
        push_str(out, " [SP+0x");
        push_hex(out, operand as u64, 5);
        push_str(out, "]");
    } else if mode == 4 {
        push_str(out, " (0x");
        push_hex(out, operand as u64, 5);
        push_str(out, ")+");
    } else if mode == 5 {
        push_str(out, " -(0x");
        push_hex(out, operand as u64, 5);
        push_str(out, ")");
    } else {
        push_str(out, " ?");
        push_dec_digits(out, mode as u64);
        push_str(out, "? 0x");
        push_hex(out, operand as u64, 5);
    }
    assert(out@ =~= start + mnemonic_text(instruction));
}

/// The assembler text of an instruction word.
fn mnemonic(instruction: u32) -> (r: String)
    ensures
        r@ == mnemonic_text(instruction),
{
    let mut out: Vec<char> = Vec::new();
    push_mnemonic(&mut out, instruction);
    string_of(&out)
}

/// The listing line of an instruction at `addr`.
fn head_line(addr: u32, instruction: u32) -> (r: Vec<char>)
    ensures
        r@ == line_head(addr, instruction),
{
    let mut out: Vec<char> = Vec::new();
    push_str(&mut out, "0x");
    push_hex(&mut out, addr as u64, 4);
    push_str(&mut out, "  0x");
    push_hex(&mut out, instruction as u64, 8);
    push_str(&mut out, "  ");
    push_mnemonic(&mut out, instruction);
    assert(out@ =~= line_head(addr, instruction));
    out
}

/// What the state keeps between steps: the code address counts the
/// instructions and leaves room for one more, the data address counts the
/// data words, and each fixup names an instruction.
pub open spec fn cg_wf(s: Cg) -> bool {
    &&& s.code_address == 4 * s.instructions.len()
    &&& s.code_address + 4 <= u32::MAX
    &&& s.data_address == 4 * s.data.len()
    &&& forall|i: int| 0 <= i < s.fixups.len() ==> #[trigger] s.fixups[i].address < s.instructions.len()
    &&& keys_of(s.vars).no_duplicates()
    &&& keys_of(s.strings).no_duplicates()
    &&& keys_of(s.labels).no_duplicates()
    &&& forall|i: int| 0 <= i < s.labels.len() ==> word_address(#[trigger] s.labels[i].1)
}

/// A byte address of a word of the code: the load address plus four bytes
/// per word.
pub open spec fn word_address(a: u32) -> bool {
    a >= CODE_BASE && (a - CODE_BASE) % 4 == 0
}

/// Storing a word address keeps every address of a table a word address.
proof fn lemma_insert_word_address(t: Seq<(Seq<char>, u32)>, k: Seq<char>, a: u32)
    requires
        forall|i: int| 0 <= i < t.len() ==> word_address(#[trigger] t[i].1),
        word_address(a),
    ensures
        forall|i: int| 0 <= i < insert(t, k, a).len() ==> word_address(#[trigger] insert(t, k, a)[i].1),
{
    keys_of(t).index_of_first_ensures(k);
}

/// Storing under a name keeps the names of a table distinct.
proof fn lemma_insert_distinct<V>(t: Seq<(Seq<char>, V)>, k: Seq<char>, v: V)
    requires
        keys_of(t).no_duplicates(),
    ensures
        keys_of(insert(t, k, v)).no_duplicates(),
{
    keys_of(t).index_of_first_ensures(k);
    match keys_of(t).index_of_first(k) {
        Some(i) => {
            assert(keys_of(insert(t, k, v)) =~= keys_of(t));
        },
        None => {
            assert(keys_of(insert(t, k, v)) =~= keys_of(t).push(k));
        },
    }
}

impl View for Codegen {
    type V = Cg;

    closed spec fn view(&self) -> Cg {
        Cg {
            ok: true,
            instructions: self.instructions@,
            data: self.data_values@,
            vars: vars_view(self.variables@),
            strings: table_view(self.string_offsets@),
            labels: table_view(self.labels@),
            fixups: fixups_view(self.fixups@),
            bss: table_view(self.bss_entries@),
            label_counter: self.label_counter,
            temp_counter: self.temp_counter,
            code_address: self.code_address,
            data_address: self.data_address,
            in_main: self.in_main_function,
            listing: lines_view(self.listing@),
        }
    }
}

impl Codegen {
    /// The generator's invariant: four bytes of code address per
    /// instruction and of data address per data word, room for one more
    /// instruction, and every pending fixup at an emitted instruction.
    pub open spec fn wf(&self) -> bool {
        cg_wf(self@)
    }

    /// A generator with nothing emitted.
    pub fn new() -> (r: Codegen)
        ensures
            r.wf(),
            r@ == cg_init(),
    {
        let r = Codegen {
            instructions: Vec::new(),
            data_values: Vec::new(),
            variables: Vec::new(),
            string_offsets: Vec::new(),
            labels: Vec::new(),
            fixups: Vec::new(),
            bss_entries: Vec::new(),
            label_counter: 0,
            temp_counter: 0,
            code_address: 0,
            data_address: 0,
            in_main_function: false,
            listing: Vec::new(),
        };
        assert(r@ =~= cg_init());
        r
    }

    /// Appends a word and its listing line.
    fn put(&mut self, instruction: u32, line: Vec<char>)
        requires
            old(self).wf(),
            room(old(self)@),
        ensures
            final(self)@ == put_word(old(self)@, instruction, line@),
            final(self).instructions@.len() == old(self).instructions@.len() + 1,
            final(self).fixups@ == old(self).fixups@,
    {
        let ghost before = self@;
        self.listing.push(string_of(&line));
        self.instructions.push(instruction);
        self.code_address = self.code_address + 4;
        assert(self@.listing =~= before.listing.push(line@));
        assert(self@ =~= put_word(before, instruction, line@));
    }

    fn emit(&mut self, opcode: u8, mode: u8, operand: u32) -> (ok: bool)
        requires
            old(self).wf(),
        ensures
            ok == emit_s(old(self)@, opcode, mode, operand).ok,
            ok ==> final(self).wf() && final(self)@ == emit_s(old(self)@, opcode, mode, operand),
    {
        if self.code_address > u32::MAX - CODE_BASE {
            return false;
        }
        let instruction = encode(opcode, mode, operand);
        let line = head_line(self.code_address + CODE_BASE, instruction);
        self.put(instruction, line);
        true
    }

    fn emit_direct(&mut self, opcode: u8, address: u32) -> (ok: bool)
        requires
            old(self).wf(),
        ensures
            ok == emit_s(old(self)@, opcode, MODE_DIRECT, address).ok,
            ok ==> final(self).wf() && final(self)@ == emit_s(old(self)@, opcode, MODE_DIRECT, address),
    {
        self.emit(opcode, MODE_DIRECT, address)
    }

    fn emit_immediate(&mut self, opcode: u8, value: i32) -> (ok: bool)
        requires
            old(self).wf(),
        ensures
            ok == emit_s(old(self)@, opcode, 1, value as u32).ok,
            ok ==> final(self).wf() && final(self)@ == emit_s(old(self)@, opcode, 1, value as u32),
    {
        self.emit(opcode, 1, value as u32)
    }

    fn emit_register(&mut self, opcode: u8) -> (ok: bool)
        requires
            old(self).wf(),
        ensures
            ok == emit_s(old(self)@, opcode, 0, 0).ok,
            ok ==> final(self).wf() && final(self)@ == emit_s(old(self)@, opcode, 0, 0),
    {
        self.emit(opcode, 0, 0)
    }

    fn emit_ref(
        &mut self,
        opcode: u8,
        mode: u8,
        operand: u32,
        symbol: &Vec<char>,
        offset: u32,
        tail: &Vec<char>,
    ) -> (ok: bool)
        requires
            old(self).wf(),
        ensures
            ok == emit_ref_s(old(self)@, opcode, mode, operand, symbol@, offset, tail@).ok,
            ok ==> final(self).wf() && final(self)@ == emit_ref_s(
                old(self)@,
                opcode,
                mode,
                operand,
                symbol@,
                offset,
                tail@,
            ),
    {
        if self.code_address > u32::MAX - CODE_BASE {
            return false;
        }
        let ghost before = self@;
        let ghost fx = self.fixups@;
        let instruction = encode(opcode, mode, operand);
        let idx = self.instructions.len() as u32;
        let mut line = head_line(self.code_address + CODE_BASE, instruction);
        push_chars(&mut line, tail);
        self.put(instruction, line);
        self.fixups.push(Fixup { address: idx, symbol: copy_chars(symbol), offset });
        let ghost f = FixupInfo { address: idx, symbol: symbol@, offset };
        assert(fixups_view(self.fixups@) =~= fixups_view(fx).push(f));
        assert(self@ =~= emit_ref_s(before, opcode, mode, operand, symbol@, offset, tail@));
        true
    }
    fn emit_variable_ref(&mut self, opcode: u8, symbol: &Vec<char>, offset: u32) -> (ok: bool)
        requires
            old(self).wf(),
        ensures
            ok == var_ref_s(old(self)@, opcode, symbol@, offset).ok,
            ok ==> final(self).wf() && final(self)@ == var_ref_s(old(self)@, opcode, symbol@, offset),
    {
        let mut tail: Vec<char> = Vec::new();
        push_str(&mut tail, " ");
        push_chars(&mut tail, symbol);
        push_str(&mut tail, " (fixup +");
        push_dec_digits(&mut tail, offset as u64);
        push_str(&mut tail, ")");
        assert(tail@ =~= " "@ + symbol@ + " (fixup +"@ + dec_digits(offset as nat) + ")"@);
        self.emit_ref(opcode, MODE_DIRECT, offset, symbol, offset, &tail)
    }

    fn emit_immediate_ref(&mut self, opcode: u8, symbol: &Vec<char>) -> (ok: bool)
        requires
            old(self).wf(),
        ensures
            ok == imm_ref_s(old(self)@, opcode, symbol@).ok,
            ok ==> final(self).wf() && final(self)@ == imm_ref_s(old(self)@, opcode, symbol@),
    {
        let mut tail: Vec<char> = Vec::new();
        push_str(&mut tail, " #");
        push_chars(&mut tail, symbol);
        push_str(&mut tail, " (fixup)");
        assert(tail@ =~= " #"@ + symbol@ + " (fixup)"@);
        self.emit_ref(opcode, 1, 0, symbol, 0, &tail)
    }

    fn emit_auto_inc_ref(&mut self, opcode: u8, symbol: &Vec<char>) -> (ok: bool)
        requires
            old(self).wf(),
        ensures
            ok == auto_inc_ref_s(old(self)@, opcode, symbol@).ok,
            ok ==> final(self).wf() && final(self)@ == auto_inc_ref_s(old(self)@, opcode, symbol@),
    {
        let mut tail: Vec<char> = Vec::new();
        push_str(&mut tail, " (");
        push_chars(&mut tail, symbol);
        push_str(&mut tail, ")+ (fixup)");
        assert(tail@ =~= " ("@ + symbol@ + ")+ (fixup)"@);
        self.emit_ref(opcode, MODE_AUTO_INC, 0, symbol, 0, &tail)
    }

    fn label_here(&mut self, name: &Vec<char>) -> (ok: bool)
        requires
            old(self).wf(),
        ensures
            ok == label_s(old(self)@, name@).ok,
            ok ==> final(self).wf() && final(self)@ == label_s(old(self)@, name@),
    {
        if self.code_address > u32::MAX - CODE_BASE {
            return false;
        }
        let ghost before = self@;
        let addr = self.code_address + CODE_BASE;
        proof {
            assert((4 * before.instructions.len()) % 4 == 0) by (nonlinear_arith);
            lemma_insert_word_address(before.labels, name@, addr);
        }
        table_insert(&mut self.labels, name, addr);
        let mut line: Vec<char> = Vec::new();
        push_str(&mut line, "0x");
        push_hex(&mut line, addr as u64, 4);
        push_str(&mut line, "  ");
        push_chars(&mut line, name);
        push_str(&mut line, ":");
        let ghost l = "0x"@ + hex_text(addr as nat, 4) + "  "@ + name@ + ":"@;
        assert(line@ =~= l);
        self.listing.push(string_of(&line));
        assert(self@.listing =~= before.listing.push(l));
        assert(self@ =~= label_s(before, name@));
        true
    }

    fn jump(&mut self, opcode: u8, target: &Vec<char>) -> (ok: bool)
        requires
            old(self).wf(),
        ensures
            ok == jump_s(old(self)@, opcode, target@).ok,
            ok ==> final(self).wf() && final(self)@ == jump_s(old(self)@, opcode, target@),
    {
        match find_addr(&self.labels, target) {
            Some(i) => {
                let address = self.labels[i].1;
                assert(table_view(self.labels@)[i as int].1 == address);
                self.emit_direct(opcode, address)
            },
            None => {
                let mut tail: Vec<char> = Vec::new();
                push_str(&mut tail, " ");
                push_chars(&mut tail, target);
                push_str(&mut tail, " (fixup)");
                assert(tail@ =~= " "@ + target@ + " (fixup)"@);
                self.emit_ref(opcode, MODE_DIRECT, 0, target, 0, &tail)
            },
        }
    }

    fn new_label(&mut self) -> (r: Option<Vec<char>>)
        requires
            old(self).wf(),
        ensures
            r is Some == new_label_s(old(self)@).0.ok,
            r matches Some(name) ==> final(self).wf() && final(self)@ == new_label_s(old(self)@).0
                && name@ == new_label_s(old(self)@).1,
    {
        let mut name: Vec<char> = Vec::new();
        push_str(&mut name, ".L");
        push_dec_digits(&mut name, self.label_counter as u64);
        if self.label_counter == u32::MAX {
            return None;
        }
        let ghost before = self@;
        self.label_counter = self.label_counter + 1;
        assert(self@ =~= new_label_s(before).0);
        Some(name)
    }

    fn new_temp(&mut self) -> (r: Option<Vec<char>>)
        requires
            old(self).wf(),
        ensures
            r is Some == new_temp_s(old(self)@).0.ok,
            r matches Some(name) ==> final(self).wf() && final(self)@ == new_temp_s(old(self)@).0
                && name@ == new_temp_s(old(self)@).1,
    {
        let mut name: Vec<char> = Vec::new();
        push_str(&mut name, "__t");
        push_dec_digits(&mut name, self.temp_counter as u64);
        if self.temp_counter == u32::MAX {
            return None;
        }
        let ghost before = self@;
        self.temp_counter = self.temp_counter + 1;
        let ghost bss = self.bss_entries@;
        self.bss_entries.push((copy_chars(&name), 1));
        assert(table_view(self.bss_entries@) =~= table_view(bss).push((name@, 1u32)));
        let typ = chars_of("i32");
        var_insert(&mut self.variables, &name, Var { addr: 0, typ, size: 1 });
        assert(self@ =~= new_temp_s(before).0);
        Some(name)
    }

    /// Declares `name` unless it is already declared.
    fn declare(&mut self, name: &Vec<char>, typ: Vec<char>, size: u32)
        requires
            old(self).wf(),
        ensures
            final(self).wf(),
            final(self)@ == declare_s(old(self)@, name@, VarInfo { addr: 0, typ: typ@, size }),
    {
        let ghost before = self@;
        if find_var(&self.variables, name).is_none() {
            let ghost bss = self.bss_entries@;
            var_insert(&mut self.variables, name, Var { addr: 0, typ, size });
            self.bss_entries.push((copy_chars(name), size));
            assert(table_view(self.bss_entries@) =~= table_view(bss).push((name@, size)));
            assert(self@ =~= declare_s(before, name@, VarInfo { addr: 0, typ: typ@, size }));
        }
    }
    fn type_size(&self, _type_name: &String) -> (r: u32)
        ensures
            r == 1,
    {
        1
    }

    fn put_data(&mut self, w: u32) -> (ok: bool)
        requires
            old(self).wf(),
        ensures
            ok == put_data_s(old(self)@, w).ok,
            ok ==> final(self).wf() && final(self)@ == put_data_s(old(self)@, w),
    {
        if self.data_address > u32::MAX - 4 {
            return false;
        }
        let ghost before = self@;
        self.data_values.push(w);
        self.data_address = self.data_address + 4;
        assert(self@ =~= put_data_s(before, w));
        true
    }

    /// Lays out a string literal in the data.
    fn add_string(&mut self, t: &Vec<char>) -> (ok: bool)
        requires
            old(self).wf(),
        ensures
            ok == add_string_s(old(self)@, t@).ok,
            ok ==> final(self).wf() && final(self)@ == add_string_s(old(self)@, t@),
    {
        let ghost s0 = self@;
        let offset = self.data_address;
        let mut k: usize = 0;
        assert(t@.subrange(0, t@.len() as int) =~= t@);
        while k < t.len()
            invariant
                self.wf(),
                k <= t@.len(),
                offset == s0.data_address,
                s0 == old(self)@,
                put_chars_s(s0, t@) == put_chars_s(self@, t@.subrange(k as int, t@.len() as int)),
            decreases t@.len() - k,
        {
            let ghost cur = self@;
            let ghost rest = t@.subrange(k as int, t@.len() as int);
            assert(rest[0] == t@[k as int]);
            assert(rest.subrange(1, rest.len() as int) =~= t@.subrange(k + 1, t@.len() as int));
            if !self.put_data(t[k] as u32) {
                assert(!put_chars_s(put_data_s(cur, t@[k as int] as u32), t@.subrange(k + 1, t@.len() as int)).ok);
                assert(!put_data_s(put_chars_s(s0, t@), 0).ok);
                return false;
            }
            k = k + 1;
        }
        assert(t@.subrange(k as int, t@.len() as int) =~= Seq::<char>::empty());
        if !self.put_data(0) {
            return false;
        }
        let ghost s1 = self@;
        table_insert(&mut self.string_offsets, t, offset);
        assert(self@ =~= add_string_s(s0, t@));
        true
    }

    fn collect_opt(&mut self, x: &Option<Box<Expression>>) -> (ok: bool)
        requires
            old(self).wf(),
        ensures
            ok == collect_opt_s(old(self)@, opt_view(*x)).ok,
            ok ==> final(self).wf() && final(self)@ == collect_opt_s(old(self)@, opt_view(*x)),
        decreases x,
    {
        match x {
            Some(b) => self.collect_symbols(&**b),
            None => true,
        }
    }

    fn collect_list(&mut self, items: &Vec<Expression>) -> (ok: bool)
        requires
            old(self).wf(),
        ensures
            ok == collect_all_s(old(self)@, kids(items@)).ok,
            ok ==> final(self).wf() && final(self)@ == collect_all_s(old(self)@, kids(items@)),
        decreases items,
    {
        let ghost s0 = self@;
        let ghost all = kids(items@);
        let mut i: usize = 0;
        assert(all.subrange(0, all.len() as int) =~= all);
        proof {
            lemma_collect_failed();
        }
        while i < items.len()
            invariant
                self.wf(),
                i <= items@.len(),
                all == kids(items@),
                s0 == old(self)@,
                collect_all_s(s0, all) == collect_all_s(self@, all.subrange(i as int, all.len() as int)),
            decreases items@.len() - i,
        {
            let ghost cur = self@;
            let ghost rest = all.subrange(i as int, all.len() as int);
            assert(rest[0] == items@[i as int]@);
            assert(rest.subrange(1, rest.len() as int) =~= all.subrange(i + 1, all.len() as int));
            if !self.collect_symbols(&items[i]) {
                assert(collect_all_s(cur, rest) == collect_all_s(collect_s(cur, rest[0]), all.subrange(i + 1, all.len() as int)));
                return false;
            }
            i = i + 1;
        }
        assert(all.subrange(i as int, all.len() as int) =~= Seq::<SExpr>::empty());
        true
    }

    fn declare_args(&mut self, args: &Vec<(String, String)>)
        requires
            old(self).wf(),
        ensures
            final(self).wf(),
            final(self)@ == declare_args_s(old(self)@, arg_pairs_view(args@)),
    {
        let ghost s0 = self@;
        let ghost all = arg_pairs_view(args@);
        let mut i: usize = 0;
        assert(all.subrange(0, all.len() as int) =~= all);
        while i < args.len()
            invariant
                self.wf(),
                i <= args@.len(),
                all == arg_pairs_view(args@),
                declare_args_s(s0, all) == declare_args_s(self@, all.subrange(i as int, all.len() as int)),
            decreases args@.len() - i,
        {
            let ghost rest = all.subrange(i as int, all.len() as int);
            assert(rest[0] == all[i as int]);
            assert(rest.subrange(1, rest.len() as int) =~= all.subrange(i + 1, all.len() as int));
            let name = chars_of(args[i].1.as_str());
            let typ = chars_of(args[i].0.as_str());
            self.declare(&name, typ, 1);
            i = i + 1;
        }
        assert(all.subrange(i as int, all.len() as int) =~= Seq::<(Seq<char>, Seq<char>)>::empty());
    }

    /// `collect_symbols`: declares the variables of a tree and lays out its
    /// string literals.
    #[verifier::rlimit(50)]
    fn collect_symbols(&mut self, expression: &Expression) -> (ok: bool)
        requires
            old(self).wf(),
        ensures
            ok == collect_s(old(self)@, expression@).ok,
            ok ==> final(self).wf() && final(self)@ == collect_s(old(self)@, expression@),
        decreases expression,
    {
        proof {
            lemma_collect_failed();
        }
        let ghost s0 = self@;
        proof {
            lemma_kids(*expression);
        }
        match expression {
            Expression::Block(items) => self.collect_list(items),
            Expression::VarDecl { typ, name, init, size } => {
                let var_size: u32 = match size {
                    Some(b) => match &**b {
                        Expression::Atom(Value::Integer(n)) => *n as u32,
                        _ => self.type_size(typ),
                    },
                    None => self.type_size(typ),
                };
                let name_c = chars_of(name.as_str());
                let typ_c = chars_of(typ.as_str());
                assert(var_size == decl_size(opt_view(*size)));
                self.declare(&name_c, typ_c, var_size);
                let ghost s1 = self@;
                if !self.collect_opt(init) {
                    assert(!collect_opt_s(s1, opt_view(*init)).ok);
                    assert(collect_s(s0, expression@) == collect_opt_s(
                        collect_opt_s(s1, opt_view(*init)),
                        opt_view(*size),
                    ));
                    return false;
                }
                self.collect_opt(size)
            },
            Expression::FuncDecl { args, body, .. } => {
                self.declare_args(args);
                self.collect_symbols(&**body)
            },
            Expression::Cout(items) => self.collect_list(items),
            Expression::Cin(items) => self.collect_list(items),
            Expression::Return(x) => self.collect_opt(x),
            Expression::If { cond, then_br, else_br } => {
                if !self.collect_symbols(&**cond) {
                    assert(collect_s(s0, expression@) == collect_opt_s(
                        collect_s(collect_s(s0, (**cond)@), (**then_br)@),
                        opt_view(*else_br),
                    ));
                    return false;
                }
                let ghost s1 = self@;
                if !self.collect_symbols(&**then_br) {
                    assert(collect_s(s0, expression@) == collect_opt_s(
                        collect_s(s1, (**then_br)@),
                        opt_view(*else_br),
                    ));
                    return false;
                }
                self.collect_opt(else_br)
            },
            Expression::While { cond, body } => {
                assert(collect_s(s0, expression@) == collect_s(collect_s(s0, (**cond)@), (**body)@));
                if !self.collect_symbols(&**cond) {
                    return false;
                }
                self.collect_symbols(&**body)
            },
            Expression::For { init, cond, step, body } => {
                assert(collect_s(s0, expression@) == collect_s(
                    collect_s(collect_s(collect_s(s0, (**init)@), (**cond)@), (**step)@),
                    (**body)@,
                ));
                if !self.collect_symbols(&**init) {
                    return false;
                }
                if !self.collect_symbols(&**cond) {
                    return false;
                }
                if !self.collect_symbols(&**step) {
                    return false;
                }
                self.collect_symbols(&**body)
            },
            Expression::Operation(_, items) => self.collect_list(items),
            Expression::FuncCall { caller, args } => {
                assert(collect_s(s0, expression@) == collect_all_s(collect_s(s0, (**caller)@), kids(args@)));
                if !self.collect_symbols(&**caller) {
                    return false;
                }
                self.collect_list(args)
            },
            Expression::ArrayIndex { arr, index } => {
                assert(collect_s(s0, expression@) == collect_s(collect_s(s0, (**arr)@), (**index)@));
                if !self.collect_symbols(&**arr) {
                    return false;
                }
                self.collect_symbols(&**index)
            },
            Expression::ArrayInit(items) => self.collect_list(items),
            Expression::Absolute(x) => self.collect_symbols(&**x),
            Expression::Atom(val) => {
                if let Value::String(t) = val {
                    let tc = chars_of(t.as_str());
                    if find_addr(&self.string_offsets, &tc).is_none() {
                        return self.add_string(&tc);
                    }
                }
                true
            },
        }
    }
    fn three_labels(&mut self) -> (r: Option<(Vec<char>, Vec<char>, Vec<char>)>)
        requires
            old(self).wf(),
        ensures
            r is Some == three_labels_s(old(self)@).0.ok,
            r matches Some((a, b, c)) ==> final(self).wf() && three_labels_s(old(self)@) == (
                final(self)@,
                a@,
                b@,
                c@,
            ),
    {
        let a = match self.new_label() {
            Some(x) => x,
            None => {
                return None;
            },
        };
        let ghost s1 = self@;
        let b = match self.new_label() {
            Some(x) => x,
            None => {
                assert(!new_label_s(s1).0.ok);
                return None;
            },
        };
        let ghost s2 = self@;
        let c = match self.new_label() {
            Some(x) => x,
            None => {
                assert(!new_label_s(s2).0.ok);
                return None;
            },
        };
        Some((a, b, c))
    }

    /// Loads a variable's value (its address for an array), or combines it
    /// with the accumulator by `opcode`.
    fn var_value(&mut self, opcode: u8, name: &Vec<char>) -> (ok: bool)
        requires
            old(self).wf(),
        ensures
            ok == var_value_s(old(self)@, opcode, name@).ok,
            ok ==> final(self).wf() && final(self)@ == var_value_s(old(self)@, opcode, name@),
    {
        let is_array = match find_var(&self.variables, name) {
            Some(i) => self.variables[i].1.size > 1,
            None => false,
        };
        if is_array {
            self.emit_immediate_ref(opcode, name)
        } else {
            self.emit_variable_ref(opcode, name, 0)
        }
    }

    /// `1` at `t`, `0` at `f`, both going on at `e`.
    fn bool_value(&mut self, t: &Vec<char>, f: &Vec<char>, e: &Vec<char>) -> (ok: bool)
        requires
            old(self).wf(),
        ensures
            ok == bool_value_s(old(self)@, t@, f@, e@).ok,
            ok ==> final(self).wf() && final(self)@ == bool_value_s(old(self)@, t@, f@, e@),
    {
        proof {
            lemma_compile_failed();
        }
        let ghost s0 = self@;
        if !self.label_here(t) {
            return false;
        }
        let ghost s1 = self@;
        if !self.emit_immediate(OP_LD, 1) {
            return false;
        }
        let ghost s2 = self@;
        if !self.jump(OP_JMP, e) {
            return false;
        }
        let ghost s3 = self@;
        if !self.label_here(f) {
            return false;
        }
        let ghost s4 = self@;
        if !self.emit_immediate(OP_LD, 0) {
            return false;
        }
        self.label_here(e)
    }

    fn binary_opcode(op: Ops) -> (r: u8)
        ensures
            r == binary_op(op),
    {
        match op {
            Ops::Add => OP_ADD,
            Ops::Sub => OP_SUB,
            Ops::Mul => OP_MUL,
            Ops::Div => OP_DIV,
            Ops::Rem => OP_MOD,
            Ops::And | Ops::BitAnd => OP_AND,
            Ops::Or | Ops::BitOr => OP_OR,
            Ops::Xor => OP_XOR,
            _ => OP_ADD,
        }
    }
}

fn is_arith_op(op: Ops) -> (r: bool)
    ensures
        r == is_arith(op),
{
    match op {
        Ops::Add | Ops::Sub | Ops::Mul | Ops::Div | Ops::Rem | Ops::And | Ops::BitAnd | Ops::Or
        | Ops::BitOr | Ops::Xor => true,
        _ => false,
    }
}

fn is_relation_op(op: Ops) -> (r: bool)
    ensures
        r == is_relation(op),
{
    match op {
        Ops::Eq | Ops::NotEq | Ops::Less | Ops::LessEq | Ops::Greater | Ops::GreaterEq => true,
        _ => false,
    }
}

/// `prefix` followed by the characters of `name`.
fn prefixed(prefix: &str, name: &Vec<char>) -> (r: Vec<char>)
    ensures
        r@ == prefix@ + name@,
{
    let mut r: Vec<char> = Vec::new();
    push_str(&mut r, prefix);
    push_chars(&mut r, name);
    r
}

impl Codegen {
    fn pop_args(&mut self, args: &Vec<(String, String)>) -> (ok: bool)
        requires
            old(self).wf(),
        ensures
            ok == pop_args_s(old(self)@, arg_pairs_view(args@)).ok,
            ok ==> final(self).wf() && final(self)@ == pop_args_s(old(self)@, arg_pairs_view(args@)),
    {
        proof {
            lemma_compile_failed();
        }
        let ghost s0 = self@;
        let ghost all = arg_pairs_view(args@);
        let mut i: usize = 0;
        assert(all.subrange(0, all.len() as int) =~= all);
        while i < args.len()
            invariant
                self.wf(),
                i <= args@.len(),
                all == arg_pairs_view(args@),
                s0 == old(self)@,
                pop_args_s(s0, all) == pop_args_s(self@, all.subrange(i as int, all.len() as int)),
            decreases args@.len() - i,
        {
            let ghost cur = self@;
            let ghost rest = all.subrange(i as int, all.len() as int);
            assert(rest[0] == all[i as int]);
            assert(rest.subrange(1, rest.len() as int) =~= all.subrange(i + 1, all.len() as int));
            proof {
                lemma_compile_failed();
            }
            assert(pop_args_s(cur, rest) == pop_args_s(
                var_ref_s(emit_s(cur, OP_POP, 0, 0), OP_ST, rest[0].1, 0),
                all.subrange(i + 1, all.len() as int),
            ));
            if !self.emit_register(OP_POP) {
                return false;
            }
            let name = chars_of(args[i].1.as_str());
            if !self.emit_variable_ref(OP_ST, &name, 0) {
                return false;
            }
            i = i + 1;
        }
        assert(all.subrange(i as int, all.len() as int) =~= Seq::<(Seq<char>, Seq<char>)>::empty());
        true
    }

    fn prologue(&mut self, args: &Vec<(String, String)>) -> (ok: bool)
        requires
            old(self).wf(),
        ensures
            ok == prologue_s(old(self)@, arg_pairs_view(args@)).ok,
            ok ==> final(self).wf() && final(self)@ == prologue_s(old(self)@, arg_pairs_view(args@)),
    {
        proof {
            lemma_compile_failed();
        }
        let ghost s0 = self@;
        let ret_temp = match self.new_temp() {
            Some(t) => t,
            None => {
                return false;
            },
        };
        if !self.emit_register(OP_POP) {
            return false;
        }
        if !self.emit_variable_ref(OP_ST, &ret_temp, 0) {
            return false;
        }
        if !self.pop_args(args) {
            return false;
        }
        if !self.emit_variable_ref(OP_LD, &ret_temp, 0) {
            return false;
        }
        self.emit_register(OP_PUSH)
    }

    fn compile_cin(&mut self, items: &Vec<Expression>) -> (ok: bool)
        requires
            old(self).wf(),
        ensures
            ok == cin_all_s(old(self)@, kids(items@)).ok,
            ok ==> final(self).wf() && final(self)@ == cin_all_s(old(self)@, kids(items@)),
    {
        proof {
            lemma_compile_failed();
        }
        let ghost s0 = self@;
        let ghost all = kids(items@);
        let mut i: usize = 0;
        assert(all.subrange(0, all.len() as int) =~= all);
        while i < items.len()
            invariant
                self.wf(),
                i <= items@.len(),
                all == kids(items@),
                s0 == old(self)@,
                cin_all_s(s0, all) == cin_all_s(self@, all.subrange(i as int, all.len() as int)),
            decreases items@.len() - i,
        {
            let ghost cur = self@;
            let ghost rest = all.subrange(i as int, all.len() as int);
            assert(rest[0] == items@[i as int]@);
            assert(rest.subrange(1, rest.len() as int) =~= all.subrange(i + 1, all.len() as int));
            proof {
                lemma_compile_failed();
            }
            assert(cin_all_s(cur, rest) == cin_all_s(
                match rest[0] {
                    SExpr::Atom(SValue::Variable(v)) => var_ref_s(
                        emit_s(cur, OP_LD, MODE_DIRECT, IN_PORT),
                        OP_ST,
                        v,
                        0,
                    ),
                    _ => cur,
                },
                all.subrange(i + 1, all.len() as int),
            ));
            if let Expression::Atom(Value::Variable(var_name)) = &items[i] {
                if !self.emit_direct(OP_LD, IN_PORT) {
                    return false;
                }
                let name = chars_of(var_name.as_str());
                if !self.emit_variable_ref(OP_ST, &name, 0) {
                    return false;
                }
            }
            i = i + 1;
        }
        assert(all.subrange(i as int, all.len() as int) =~= Seq::<SExpr>::empty());
        true
    }

    fn put_ints(&mut self, items: &Vec<Expression>) -> (ok: bool)
        requires
            old(self).wf(),
        ensures
            ok == put_ints_s(old(self)@, kids(items@)).ok,
            ok ==> final(self).wf() && final(self)@ == put_ints_s(old(self)@, kids(items@)),
    {
        proof {
            lemma_compile_failed();
        }
        let ghost s0 = self@;
        let ghost all = kids(items@);
        let mut i: usize = 0;
        assert(all.subrange(0, all.len() as int) =~= all);
        while i < items.len()
            invariant
                self.wf(),
                i <= items@.len(),
                all == kids(items@),
                s0 == old(self)@,
                put_ints_s(s0, all) == put_ints_s(self@, all.subrange(i as int, all.len() as int)),
            decreases items@.len() - i,
        {
            let ghost rest = all.subrange(i as int, all.len() as int);
            assert(rest[0] == items@[i as int]@);
            assert(rest.subrange(1, rest.len() as int) =~= all.subrange(i + 1, all.len() as int));
            proof {
                lemma_compile_failed();
            }
            let ghost cur = self@;
            assert(put_ints_s(cur, rest) == put_ints_s(
                match rest[0] {
                    SExpr::Atom(SValue::Integer(n)) => put_data_s(cur, n as u32),
                    _ => cur,
                },
                all.subrange(i + 1, all.len() as int),
            ));
            if let Expression::Atom(Value::Integer(n)) = &items[i] {
                if !self.put_data(*n as u32) {
                    return false;
                }
            }
            i = i + 1;
        }
        assert(all.subrange(i as int, all.len() as int) =~= Seq::<SExpr>::empty());
        true
    }

    fn array_init(&mut self, items: &Vec<Expression>) -> (ok: bool)
        requires
            old(self).wf(),
        ensures
            ok == array_init_s(old(self)@, kids(items@)).ok,
            ok ==> final(self).wf() && final(self)@ == array_init_s(old(self)@, kids(items@)),
    {
        proof {
            lemma_compile_failed();
        }
        let ghost s0 = self@;
        let ghost all = kids(items@);
        let mut i: usize = 0;
        assert(all.subrange(0, all.len() as int) =~= all);
        while i < items.len()
            invariant
                self.wf(),
                i <= items@.len(),
                all == kids(items@),
                s0 == old(self)@,
                array_init_s(s0, all) == array_init_s(self@, all.subrange(i as int, all.len() as int)),
            decreases items@.len() - i,
        {
            let ghost rest = all.subrange(i as int, all.len() as int);
            assert(rest[0] == items@[i as int]@);
            assert(rest.subrange(1, rest.len() as int) =~= all.subrange(i + 1, all.len() as int));
            proof {
                lemma_kids(items@[i as int]);
                lemma_compile_failed();
            }
            let ghost cur = self@;
            assert(array_init_s(cur, rest) == array_init_s(
                match rest[0] {
                    SExpr::Atom(SValue::Integer(n)) => put_data_s(cur, n as u32),
                    SExpr::Atom(SValue::Char(c)) => put_data_s(cur, c as u32),
                    SExpr::ArrayInit(inner) => put_ints_s(cur, inner),
                    _ => put_data_s(cur, 0),
                },
                all.subrange(i + 1, all.len() as int),
            ));
            let ok = match &items[i] {
                Expression::Atom(Value::Integer(n)) => self.put_data(*n as u32),
                Expression::Atom(Value::Char(c)) => self.put_data(*c as u32),
                Expression::ArrayInit(inner) => self.put_ints(inner),
                _ => self.put_data(0),
            };
            if !ok {
                return false;
            }
            i = i + 1;
        }
        assert(all.subrange(i as int, all.len() as int) =~= Seq::<SExpr>::empty());
        true
    }

    /// Loads the address of a string literal (patched once the data is laid
    /// out).
    fn string_ref(&mut self, t: &Vec<char>) -> (ok: bool)
        requires
            old(self).wf(),
        ensures
            ({
                let off: u32 = match lookup(old(self)@.strings, t@) {
                    Some(o) => o,
                    None => 0,
                };
                let sym = "@str_"@ + dec_digits(off as nat);
                let r = emit_ref_s(old(self)@, OP_LD, 1, 0, sym, 0, " "@ + sym + " (fixup)"@);
                &&& ok == r.ok
                &&& ok ==> final(self).wf() && final(self)@ == r
            }),
    {
        let offset = match find_addr(&self.string_offsets, t) {
            Some(i) => self.string_offsets[i].1,
            None => 0,
        };
        assert(offset == match lookup(self@.strings, t@) {
            Some(o) => o,
            None => 0u32,
        });
        let mut sym: Vec<char> = Vec::new();
        push_str(&mut sym, "@str_");
        push_dec_digits(&mut sym, offset as u64);
        let mut tail: Vec<char> = Vec::new();
        push_str(&mut tail, " ");
        push_chars(&mut tail, &sym);
        push_str(&mut tail, " (fixup)");
        assert(tail@ =~= " "@ + sym@ + " (fixup)"@);
        self.emit_ref(OP_LD, 1, 0, &sym, 0, &tail)
    }

    fn compile_increment_or_decrement(&mut self, left_value: &Expression, increment: bool) -> (ok: bool)
        requires
            old(self).wf(),
        ensures
            ok == incdec_s(old(self)@, left_value@, increment).ok,
            ok ==> final(self).wf() && final(self)@ == incdec_s(old(self)@, left_value@, increment),
    {
        proof {
            lemma_compile_failed();
        }
        let var_name = if let Expression::Atom(Value::Variable(x)) = left_value {
            chars_of(x.as_str())
        } else {
            return true;
        };
        if !self.emit_variable_ref(OP_LD, &var_name, 0) {
            return false;
        }
        let ok = if increment {
            self.emit_register(OP_INC)
        } else {
            self.emit_register(OP_DEC)
        };
        if !ok {
            return false;
        }
        self.emit_variable_ref(OP_ST, &var_name, 0)
    }
    /// `compile_statement`.
    fn compile_statement(&mut self, expression: &Expression) -> (ok: bool)
        requires
            old(self).wf(),
        ensures
            ok == stmt_s(old(self)@, expression@).ok,
            ok ==> final(self).wf() && final(self)@ == stmt_s(old(self)@, expression@),
        decreases expression, stmt_rank(expression@),
    {
        proof {
            lemma_compile_failed();
            lemma_kids(*expression);
        }
        match expression {
            Expression::Block(items) => self.compile_statements(items),
            Expression::VarDecl { .. } => self.compile_var_decl(expression),
            Expression::FuncDecl { .. } => self.compile_function(expression),
            Expression::If { .. } => self.compile_if(expression),
            Expression::While { .. } => self.compile_while(expression),
            Expression::For { .. } => self.compile_for(expression),
            Expression::Cout(items) => self.compile_cout(items),
            Expression::Cin(items) => self.compile_cin(items),
            Expression::Return(x) => {
                let ok = match x {
                    Some(b) => self.compile_expression(&**b),
                    None => self.emit_register(OP_CLA),
                };
                if !ok {
                    return false;
                }
                if !self.in_main_function {
                    self.emit_register(OP_RET)
                } else {
                    true
                }
            },
            Expression::Operation(Ops::Assign, items) => {
                if items.len() < 2 {
                    return false;
                }
                self.compile_assign(items)
            },
            Expression::Operation(Ops::Inc, items) => {
                if items.len() < 1 {
                    return false;
                }
                self.compile_increment_or_decrement(&items[0], true)
            },
            Expression::Operation(Ops::Dec, items) => {
                if items.len() < 1 {
                    return false;
                }
                self.compile_increment_or_decrement(&items[0], false)
            },
            _ => self.compile_expression(expression),
        }
    }

    fn compile_statements(&mut self, items: &Vec<Expression>) -> (ok: bool)
        requires
            old(self).wf(),
        ensures
            ok == stmt_all_s(old(self)@, kids(items@)).ok,
            ok ==> final(self).wf() && final(self)@ == stmt_all_s(old(self)@, kids(items@)),
        decreases items, 0int,
    {
        let ghost s0 = self@;
        let ghost all = kids(items@);
        let mut i: usize = 0;
        assert(all.subrange(0, all.len() as int) =~= all);
        while i < items.len()
            invariant
                self.wf(),
                i <= items@.len(),
                all == kids(items@),
                s0 == old(self)@,
                stmt_all_s(s0, all) == stmt_all_s(self@, all.subrange(i as int, all.len() as int)),
            decreases items@.len() - i,
        {
            proof {
                lemma_compile_failed();
            }
            let ghost cur = self@;
            let ghost rest = all.subrange(i as int, all.len() as int);
            assert(rest[0] == items@[i as int]@);
            assert(rest.subrange(1, rest.len() as int) =~= all.subrange(i + 1, all.len() as int));
            assert(stmt_all_s(cur, rest) == stmt_all_s(stmt_s(cur, rest[0]), all.subrange(i + 1, all.len() as int)));
            if !self.compile_statement(&items[i]) {
                return false;
            }
            i = i + 1;
        }
        assert(all.subrange(i as int, all.len() as int) =~= Seq::<SExpr>::empty());
        true
    }

    fn compile_cout(&mut self, items: &Vec<Expression>) -> (ok: bool)
        requires
            old(self).wf(),
        ensures
            ok == cout_all_s(old(self)@, kids(items@)).ok,
            ok ==> final(self).wf() && final(self)@ == cout_all_s(old(self)@, kids(items@)),
        decreases items, 0int,
    {
        let ghost s0 = self@;
        let ghost all = kids(items@);
        let mut i: usize = 0;
        assert(all.subrange(0, all.len() as int) =~= all);
        while i < items.len()
            invariant
                self.wf(),
                i <= items@.len(),
                all == kids(items@),
                s0 == old(self)@,
                cout_all_s(s0, all) == cout_all_s(self@, all.subrange(i as int, all.len() as int)),
            decreases items@.len() - i,
        {
            proof {
                lemma_compile_failed();
            }
            let ghost cur = self@;
            let ghost rest = all.subrange(i as int, all.len() as int);
            assert(rest[0] == items@[i as int]@);
            assert(rest.subrange(1, rest.len() as int) =~= all.subrange(i + 1, all.len() as int));
            assert(cout_all_s(cur, rest) == cout_all_s(
                emit_s(expr_s(cur, rest[0]), OP_ST, MODE_DIRECT, OUT_PORT),
                all.subrange(i + 1, all.len() as int),
            ));
            if !self.compile_expression(&items[i]) {
                return false;
            }
            if !self.emit_direct(OP_ST, OUT_PORT) {
                return false;
            }
            i = i + 1;
        }
        assert(all.subrange(i as int, all.len() as int) =~= Seq::<SExpr>::empty());
        true
    }

    fn compile_var_decl(&mut self, expression: &Expression) -> (ok: bool)
        requires
            old(self).wf(),
            expression is VarDecl,
        ensures
            ok == stmt_s(old(self)@, expression@).ok,
            ok ==> final(self).wf() && final(self)@ == stmt_s(old(self)@, expression@),
        decreases expression, 0int,
    {
        proof {
            lemma_compile_failed();
        }
        match expression {
            Expression::VarDecl { name, init, .. } => {
                let ghost s0 = self@;
                assert(stmt_s(s0, expression@) == {
                    let s1 = declare_s(s0, name@, word_var());
                    match opt_view(*init) {
                        Some(x) => var_ref_s(expr_s(s1, *x), OP_ST, name@, 0),
                        None => s1,
                    }
                });
                let name_c = chars_of(name.as_str());
                self.declare(&name_c, chars_of("i32"), 1);
                match init {
                    Some(x) => {
                        if !self.compile_expression(&**x) {
                            return false;
                        }
                        self.emit_variable_ref(OP_ST, &name_c, 0)
                    },
                    None => true,
                }
            },
            _ => true,
        }
    }

    fn compile_function(&mut self, expression: &Expression) -> (ok: bool)
        requires
            old(self).wf(),
            expression is FuncDecl,
        ensures
            ok == stmt_s(old(self)@, expression@).ok,
            ok ==> final(self).wf() && final(self)@ == stmt_s(old(self)@, expression@),
        decreases expression, 0int,
    {
        proof {
            lemma_compile_failed();
        }
        match expression {
            Expression::FuncDecl { name, args, body, .. } => {
                let ghost s0 = self@;
                let ghost a = arg_pairs_view(args@);
                assert(stmt_s(s0, expression@) == {
                    let s1 = label_s(declare_args_s(s0, a), "fn_"@ + name@);
                    let s2 = Cg { in_main: name@ == "main"@, ..s1 };
                    let s3 = if name@ != "main"@ && a.len() > 0 {
                        prologue_s(s2, a)
                    } else {
                        s2
                    };
                    let s5 = Cg { in_main: false, ..stmt_s(s3, (**body)@) };
                    if name@ != "main"@ {
                        emit_s(s5, OP_RET, 0, 0)
                    } else {
                        s5
                    }
                });
                self.declare_args(args);
                let name_c = chars_of(name.as_str());
                let label = prefixed("fn_", &name_c);
                if !self.label_here(&label) {
                    return false;
                }
                let is_main = chars_eq_str(&name_c, "main");
                self.in_main_function = is_main;
                if !is_main && args.len() > 0 {
                    if !self.prologue(args) {
                        return false;
                    }
                }
                if !self.compile_statement(&**body) {
                    return false;
                }
                self.in_main_function = false;
                if !is_main {
                    self.emit_register(OP_RET)
                } else {
                    true
                }
            },
            _ => true,
        }
    }

    fn compile_if(&mut self, expression: &Expression) -> (ok: bool)
        requires
            old(self).wf(),
            expression is If,
        ensures
            ok == stmt_s(old(self)@, expression@).ok,
            ok ==> final(self).wf() && final(self)@ == stmt_s(old(self)@, expression@),
        decreases expression, 0int,
    {
        proof {
            lemma_compile_failed();
        }
        match expression {
            Expression::If { cond, then_br, else_br } => {
                let ghost s0 = self@;
                assert(stmt_s(s0, expression@) == {
                    let (s1, tl, el, nl) = three_labels_s(s0);
                    let fl = if else_br is Some {
                        el
                    } else {
                        nl
                    };
                    let s2 = cond_s(s1, (**cond)@, tl, fl);
                    let s3 = jump_s(stmt_s(label_s(s2, tl), (**then_br)@), OP_JMP, nl);
                    let s4 = match *else_br {
                        Some(b) => stmt_s(label_s(s3, el), (*b)@),
                        None => s3,
                    };
                    label_s(s4, nl)
                });
                let (true_label, else_label, end_label) = match self.three_labels() {
                    Some(l) => l,
                    None => {
                        return false;
                    },
                };
                let false_label = if else_br.is_some() {
                    &else_label
                } else {
                    &end_label
                };
                if !self.compile_condition(&**cond, &true_label, false_label) {
                    return false;
                }
                if !self.label_here(&true_label) {
                    return false;
                }
                if !self.compile_statement(&**then_br) {
                    return false;
                }
                if !self.jump(OP_JMP, &end_label) {
                    return false;
                }
                if let Some(else_branch) = else_br {
                    if !self.label_here(&else_label) {
                        return false;
                    }
                    if !self.compile_statement(&**else_branch) {
                        return false;
                    }
                }
                self.label_here(&end_label)
            },
            _ => true,
        }
    }

    fn compile_while(&mut self, expression: &Expression) -> (ok: bool)
        requires
            old(self).wf(),
            expression is While,
        ensures
            ok == stmt_s(old(self)@, expression@).ok,
            ok ==> final(self).wf() && final(self)@ == stmt_s(old(self)@, expression@),
        decreases expression, 0int,
    {
        proof {
            lemma_compile_failed();
        }
        match expression {
            Expression::While { cond, body } => {
                let ghost s0 = self@;
                assert(stmt_s(s0, expression@) == {
                    let (s1, ll, bl, nl) = three_labels_s(s0);
                    let s2 = cond_s(label_s(s1, ll), (**cond)@, bl, nl);
                    let s3 = stmt_s(label_s(s2, bl), (**body)@);
                    label_s(jump_s(s3, OP_JMP, ll), nl)
                });
                let (loop_label, body_label, end_label) = match self.three_labels() {
                    Some(l) => l,
                    None => {
                        return false;
                    },
                };
                if !self.label_here(&loop_label) {
                    return false;
                }
                if !self.compile_condition(&**cond, &body_label, &end_label) {
                    return false;
                }
                if !self.label_here(&body_label) {
                    return false;
                }
                if !self.compile_statement(&**body) {
                    return false;
                }
                if !self.jump(OP_JMP, &loop_label) {
                    return false;
                }
                self.label_here(&end_label)
            },
            _ => true,
        }
    }

    fn compile_for(&mut self, expression: &Expression) -> (ok: bool)
        requires
            old(self).wf(),
            expression is For,
        ensures
            ok == stmt_s(old(self)@, expression@).ok,
            ok ==> final(self).wf() && final(self)@ == stmt_s(old(self)@, expression@),
        decreases expression, 0int,
    {
        proof {
            lemma_compile_failed();
        }
        match expression {
            Expression::For { init, cond, step, body } => {
                let ghost s0 = self@;
                assert(stmt_s(s0, expression@) == {
                    let (s1, ll, bl, nl) = three_labels_s(stmt_s(s0, (**init)@));
                    let s2 = cond_s(label_s(s1, ll), (**cond)@, bl, nl);
                    let s3 = stmt_s(stmt_s(label_s(s2, bl), (**body)@), (**step)@);
                    label_s(jump_s(s3, OP_JMP, ll), nl)
                });
                if !self.compile_statement(&**init) {
                    return false;
                }
                let (loop_label, body_label, end_label) = match self.three_labels() {
                    Some(l) => l,
                    None => {
                        return false;
                    },
                };
                if !self.label_here(&loop_label) {
                    return false;
                }
                if !self.compile_condition(&**cond, &body_label, &end_label) {
                    return false;
                }
                if !self.label_here(&body_label) {
                    return false;
                }
                if !self.compile_statement(&**body) {
                    return false;
                }
                if !self.compile_statement(&**step) {
                    return false;
                }
                if !self.jump(OP_JMP, &loop_label) {
                    return false;
                }
                self.label_here(&end_label)
            },
            _ => true,
        }
    }

    /// The address of element `index` of array `name`, in a fresh temporary
    /// whose name is returned.
    fn element_address(&mut self, name: &Vec<char>, index: &Expression) -> (r: Option<Vec<char>>)
        requires
            old(self).wf(),
        ensures
            r is Some == element_address_s(old(self)@, name@, index@).0.ok,
            r matches Some(t) ==> final(self).wf() && element_address_s(old(self)@, name@, index@) == (
                final(self)@,
                t@,
            ),
        decreases index, 4int,
    {
        proof {
            lemma_compile_failed();
        }
        let temp_var = match self.new_temp() {
            Some(t) => t,
            None => {
                return None;
            },
        };
        let is_ptr = match find_var(&self.variables, name) {
            Some(i) => chars_eq_str(&self.variables[i].1.typ, "ptr") && self.variables[i].1.size == 1,
            None => false,
        };
        let ok = if is_ptr {
            self.emit_variable_ref(OP_LD, name, 0)
        } else {
            self.emit_immediate_ref(OP_LD, name)
        };
        if !ok {
            return None;
        }
        if !self.emit_variable_ref(OP_ST, &temp_var, 0) {
            return None;
        }
        if !self.compile_expression(index) {
            return None;
        }
        if !self.emit_immediate(OP_MUL, 4) {
            return None;
        }
        if !self.emit_variable_ref(OP_ADD, &temp_var, 0) {
            return None;
        }
        if !self.emit_variable_ref(OP_ST, &temp_var, 0) {
            return None;
        }
        Some(temp_var)
    }

    /// `compile_assign` of `items[0] = items[1]`.
    fn compile_assign(&mut self, items: &Vec<Expression>) -> (ok: bool)
        requires
            old(self).wf(),
            items@.len() >= 2,
        ensures
            ok == assign_s(old(self)@, kids(items@)).ok,
            ok ==> final(self).wf() && final(self)@ == assign_s(old(self)@, kids(items@)),
        decreases items, 0int,
    {
        proof {
            lemma_compile_failed();
        }
        let ghost all = kids(items@);
        assert(all[0] == items@[0]@ && all[1] == items@[1]@);
        match &items[0] {
            Expression::Atom(Value::Variable(var_name)) => {
                assert(assign_s(self@, all) == var_ref_s(expr_s(self@, all[1]), OP_ST, var_name@, 0));
                if !self.compile_expression(&items[1]) {
                    return false;
                }
                let name = chars_of(var_name.as_str());
                self.emit_variable_ref(OP_ST, &name, 0)
            },
            Expression::ArrayIndex { arr, index } => {
                proof {
                    lemma_atom_view(**arr);
                }
                if let Expression::Atom(Value::Variable(n)) = &**arr {
                    let ghost s0 = self@;
                    assert(assign_s(s0, all) == {
                        let (s1, t) = element_address_s(s0, n@, (**index)@);
                        auto_inc_ref_s(expr_s(s1, all[1]), OP_ST, t)
                    });
                    let array_name = chars_of(n.as_str());
                    let temp_var = match self.element_address(&array_name, &**index) {
                        Some(t) => t,
                        None => {
                            return false;
                        },
                    };
                    if !self.compile_expression(&items[1]) {
                        return false;
                    }
                    self.emit_auto_inc_ref(OP_ST, &temp_var)
                } else {
                    true
                }
            },
            _ => true,
        }
    }

    /// `compile_expression`.
    fn compile_expression(&mut self, expression: &Expression) -> (ok: bool)
        requires
            old(self).wf(),
        ensures
            ok == expr_s(old(self)@, expression@).ok,
            ok ==> final(self).wf() && final(self)@ == expr_s(old(self)@, expression@),
        decreases expression, expr_rank(expression@),
    {
        proof {
            lemma_compile_failed();
            lemma_kids(*expression);
        }
        match expression {
            Expression::Atom(Value::Integer(n)) => self.emit_immediate(OP_LD, *n),
            Expression::Atom(Value::Char(c)) => self.emit(OP_LD, 1, *c as u32),
            Expression::Atom(Value::Boolean(b)) => self.emit_immediate(
                OP_LD,
                if *b {
                    1
                } else {
                    0
                },
            ),
            Expression::Atom(Value::Variable(name)) => {
                let name_c = chars_of(name.as_str());
                self.var_value(OP_LD, &name_c)
            },
            Expression::Atom(Value::String(t)) => {
                let t_c = chars_of(t.as_str());
                self.string_ref(&t_c)
            },
            Expression::Operation(op, _) => {
                if *op == Ops::Neg || *op == Ops::Not || is_arith_op(*op) || is_relation_op(*op) {
                    self.compile_operation(expression)
                } else {
                    self.compile_statement(expression)
                }
            },
            Expression::Absolute(x) => {
                assert(expr_s(self@, expression@) == emit_s(expr_s(self@, (**x)@), OP_ABS, 0, 0));
                if !self.compile_expression(&**x) {
                    return false;
                }
                self.emit_register(OP_ABS)
            },
            Expression::ArrayIndex { arr, index } => {
                proof {
                    lemma_atom_view(**arr);
                }
                if let Expression::Atom(Value::Variable(n)) = &**arr {
                    assert(expr_s(self@, expression@) == {
                        let (s1, t) = element_address_s(self@, n@, (**index)@);
                        auto_inc_ref_s(s1, OP_LD, t)
                    });
                    let array_name = chars_of(n.as_str());
                    let temp_var = match self.element_address(&array_name, &**index) {
                        Some(t) => t,
                        None => {
                            return false;
                        },
                    };
                    self.emit_auto_inc_ref(OP_LD, &temp_var)
                } else {
                    true
                }
            },
            Expression::FuncCall { caller, args } => {
                proof {
                    lemma_atom_view(**caller);
                }
                if let Expression::Atom(Value::Variable(f)) = &**caller {
                    assert(expr_s(self@, expression@) == jump_s(
                        push_args_s(self@, kids(args@)),
                        OP_CALL,
                        "fn_"@ + f@,
                    ));
                    let f_c = chars_of(f.as_str());
                    if !self.push_call_args(args) {
                        return false;
                    }
                    let target = prefixed("fn_", &f_c);
                    self.jump(OP_CALL, &target)
                } else {
                    true
                }
            },
            Expression::ArrayInit(items) => {
                assert(expr_s(self@, expression@) == emit_s(
                    array_init_s(self@, kids(items@)),
                    OP_LD,
                    1,
                    self@.data_address,
                ));
                let base_address = self.data_address;
                if !self.array_init(items) {
                    return false;
                }
                self.emit(OP_LD, 1, base_address)
            },
            _ => self.compile_statement(expression),
        }
    }

    /// The unary, arithmetic and comparison operations.
    fn compile_operation(&mut self, expression: &Expression) -> (ok: bool)
        requires
            old(self).wf(),
            expression matches Expression::Operation(op, _) && (*op == Ops::Neg || *op == Ops::Not
                || is_arith(*op) || is_relation(*op)),
        ensures
            ok == expr_s(old(self)@, expression@).ok,
            ok ==> final(self).wf() && final(self)@ == expr_s(old(self)@, expression@),
        decreases expression, 0int,
    {
        proof {
            lemma_compile_failed();
            lemma_kids(*expression);
        }
        match expression {
            Expression::Operation(op, items) => {
                let ghost all = kids(items@);
                if *op == Ops::Neg {
                    if items.len() < 1 {
                        return false;
                    }
                    assert(all[0] == items@[0]@);
                    if !self.compile_expression(&items[0]) {
                        return false;
                    }
                    self.emit_register(OP_INV)
                } else if *op == Ops::Not {
                    if items.len() < 1 {
                        return false;
                    }
                    assert(all[0] == items@[0]@);
                    assert(expr_s(self@, expression@) == {
                        let s1 = emit_s(expr_s(self@, all[0]), OP_CMP, 1, 0);
                        let (s2, tl, fl, nl) = three_labels_s(s1);
                        let s3 = jump_s(jump_s(s2, OP_JEQ, tl), OP_JMP, fl);
                        bool_value_s(s3, tl, fl, nl)
                    });
                    if !self.compile_expression(&items[0]) {
                        return false;
                    }
                    if !self.emit_immediate(OP_CMP, 0) {
                        return false;
                    }
                    let (true_label, false_label, end_label) = match self.three_labels() {
                        Some(l) => l,
                        None => {
                            return false;
                        },
                    };
                    if !self.jump(OP_JEQ, &true_label) {
                        return false;
                    }
                    if !self.jump(OP_JMP, &false_label) {
                        return false;
                    }
                    self.bool_value(&true_label, &false_label, &end_label)
                } else if is_arith_op(*op) {
                    if items.len() < 1 {
                        return false;
                    }
                    assert(all[0] == items@[0]@);
                    assert(expr_s(self@, expression@) == {
                        let s1 = expr_s(self@, all[0]);
                        if all.len() > 1 {
                            second_s(s1, all[1], binary_op(*op))
                        } else {
                            s1
                        }
                    });
                    if !self.compile_expression(&items[0]) {
                        return false;
                    }
                    if items.len() > 1 {
                        assert(all[1] == items@[1]@);
                        self.compile_second_operand(&items[1], Self::binary_opcode(*op))
                    } else {
                        true
                    }
                } else {
                    assert(expr_s(self@, expression@) == {
                        let (s1, tl, fl, nl) = three_labels_s(self@);
                        bool_value_s(comparison_s(s1, *op, all, tl, fl), tl, fl, nl)
                    });
                    let (true_label, false_label, end_label) = match self.three_labels() {
                        Some(l) => l,
                        None => {
                            return false;
                        },
                    };
                    if !self.compile_comparison(*op, items, &true_label, &false_label) {
                        return false;
                    }
                    self.bool_value(&true_label, &false_label, &end_label)
                }
            },
            _ => true,
        }
    }

    /// The arguments of a call, pushed last first.
    fn push_call_args(&mut self, args: &Vec<Expression>) -> (ok: bool)
        requires
            old(self).wf(),
        ensures
            ok == push_args_s(old(self)@, kids(args@)).ok,
            ok ==> final(self).wf() && final(self)@ == push_args_s(old(self)@, kids(args@)),
        decreases args, 0int,
    {
        let ghost s0 = self@;
        let ghost all = kids(args@);
        let mut i: usize = args.len();
        assert(all.subrange(0, all.len() as int) =~= all);
        while i > 0
            invariant
                self.wf(),
                i <= args@.len(),
                all == kids(args@),
                s0 == old(self)@,
                push_args_s(s0, all) == push_args_s(self@, all.subrange(0, i as int)),
            decreases i,
        {
            proof {
                lemma_compile_failed();
            }
            let ghost cur = self@;
            let ghost pre = all.subrange(0, i as int);
            assert(pre[i - 1] == args@[i - 1]@);
            assert(pre.subrange(0, i - 1) =~= all.subrange(0, i - 1));
            assert(push_args_s(cur, pre) == push_args_s(
                emit_s(expr_s(cur, pre[i - 1]), OP_PUSH, 0, 0),
                all.subrange(0, i - 1),
            ));
            if !self.compile_expression(&args[i - 1]) {
                return false;
            }
            if !self.emit_register(OP_PUSH) {
                return false;
            }
            i = i - 1;
        }
        assert(all.subrange(0, 0) =~= Seq::<SExpr>::empty());
        true
    }

    /// `compile_second_operand`.
    fn compile_second_operand(&mut self, expression: &Expression, opcode: u8) -> (ok: bool)
        requires
            old(self).wf(),
        ensures
            ok == second_s(old(self)@, expression@, opcode).ok,
            ok ==> final(self).wf() && final(self)@ == second_s(old(self)@, expression@, opcode),
        decreases expression, 3int,
    {
        proof {
            lemma_compile_failed();
        }
        match expression {
            Expression::Atom(Value::Integer(n)) => self.emit_immediate(opcode, *n),
            Expression::Atom(Value::Char(c)) => self.emit(opcode, 1, *c as u32),
            Expression::Atom(Value::Variable(name)) => {
                let name_c = chars_of(name.as_str());
                self.var_value(opcode, &name_c)
            },
            _ => {
                let temp_var = match self.new_temp() {
                    Some(t) => t,
                    None => {
                        return false;
                    },
                };
                if !self.emit_variable_ref(OP_ST, &temp_var, 0) {
                    return false;
                }
                if !self.compile_expression(expression) {
                    return false;
                }
                self.emit_variable_ref(opcode, &temp_var, 0)
            },
        }
    }

    /// `compile_condition`.
    fn compile_condition(&mut self, expression: &Expression, true_label: &Vec<char>, false_label: &Vec<char>) -> (ok: bool)
        requires
            old(self).wf(),
        ensures
            ok == cond_s(old(self)@, expression@, true_label@, false_label@).ok,
            ok ==> final(self).wf() && final(self)@ == cond_s(
                old(self)@,
                expression@,
                true_label@,
                false_label@,
            ),
        decreases expression, 4int,
    {
        proof {
            lemma_compile_failed();
            lemma_kids(*expression);
        }
        match expression {
            Expression::Atom(Value::Boolean(b)) => self.jump(
                OP_JMP,
                if *b {
                    true_label
                } else {
                    false_label
                },
            ),
            Expression::Operation(op, items) => {
                let ghost all = kids(items@);
                if is_relation_op(*op) {
                    self.compile_comparison(*op, items, true_label, false_label)
                } else if *op == Ops::And || *op == Ops::Or {
                    if items.len() < 2 {
                        return false;
                    }
                    assert(all[0] == items@[0]@ && all[1] == items@[1]@);
                    assert(cond_s(self@, expression@, true_label@, false_label@) == {
                        let (s1, nl) = new_label_s(self@);
                        let s2 = if *op == Ops::And {
                            cond_s(s1, all[0], nl, false_label@)
                        } else {
                            cond_s(s1, all[0], true_label@, nl)
                        };
                        cond_s(label_s(s2, nl), all[1], true_label@, false_label@)
                    });
                    let next_label = match self.new_label() {
                        Some(l) => l,
                        None => {
                            return false;
                        },
                    };
                    let ok = if *op == Ops::And {
                        self.compile_condition(&items[0], &next_label, false_label)
                    } else {
                        self.compile_condition(&items[0], true_label, &next_label)
                    };
                    if !ok {
                        return false;
                    }
                    if !self.label_here(&next_label) {
                        return false;
                    }
                    self.compile_condition(&items[1], true_label, false_label)
                } else if *op == Ops::Not {
                    if items.len() < 1 {
                        return false;
                    }
                    assert(all[0] == items@[0]@);
                    self.compile_condition(&items[0], false_label, true_label)
                } else {
                    self.compile_test(expression, true_label, false_label)
                }
            },
            _ => self.compile_test(expression, true_label, false_label),
        }
    }

    /// A condition by value: jumps on whether the value is non-zero.
    fn compile_test(&mut self, expression: &Expression, true_label: &Vec<char>, false_label: &Vec<char>) -> (ok: bool)
        requires
            old(self).wf(),
        ensures
            ok == test_s(old(self)@, expression@, true_label@, false_label@).ok,
            ok ==> final(self).wf() && final(self)@ == test_s(
                old(self)@,
                expression@,
                true_label@,
                false_label@,
            ),
        decreases expression, 3int,
    {
        proof {
            lemma_compile_failed();
        }
        if !self.compile_expression(expression) {
            return false;
        }
        if !self.emit_immediate(OP_CMP, 0) {
            return false;
        }
        if !self.jump(OP_JNE, true_label) {
            return false;
        }
        self.jump(OP_JMP, false_label)
    }

    /// `compile_comparison`.
    fn compile_comparison(
        &mut self,
        op: Ops,
        items: &Vec<Expression>,
        true_label: &Vec<char>,
        false_label: &Vec<char>,
    ) -> (ok: bool)
        requires
            old(self).wf(),
        ensures
            ok == comparison_s(old(self)@, op, kids(items@), true_label@, false_label@).ok,
            ok ==> final(self).wf() && final(self)@ == comparison_s(
                old(self)@,
                op,
                kids(items@),
                true_label@,
                false_label@,
            ),
        decreases items, 0int,
    {
        proof {
            lemma_compile_failed();
        }
        let (jump_opcode, swap) = match op {
            Ops::Eq => (OP_JEQ, false),
            Ops::NotEq => (OP_JNE, false),
            Ops::Less => (OP_JLT, false),
            Ops::LessEq => (OP_JGE, false),
            Ops::Greater => (OP_JLT, true),
            Ops::GreaterEq => (OP_JGE, true),
            _ => {
                return true;
            },
        };
        if items.len() < 2 {
            return false;
        }
        let ghost all = kids(items@);
        assert(all[0] == items@[0]@ && all[1] == items@[1]@);
        if swap {
            if !self.compile_expression(&items[1]) {
                return false;
            }
            if !self.compile_second_operand(&items[0], OP_CMP) {
                return false;
            }
        } else {
            if !self.compile_expression(&items[0]) {
                return false;
            }
            if !self.compile_second_operand(&items[1], OP_CMP) {
                return false;
            }
        }
        if !self.jump(jump_opcode, true_label) {
            return false;
        }
        self.jump(OP_JMP, false_label)
    }
    /// Lays out the uninitialised variables from `start` on (see
    /// `layout_bss_s`); gives the address after the last.
    fn layout_bss(&mut self, start: u32) -> (r: Option<u32>)
        requires
            old(self).wf(),
        ensures
            match layout_bss_s(old(self)@.vars, old(self)@.bss, start) {
                None => r is None,
                Some((vars, end)) => r == Some(end) && final(self).wf() && final(self)@ == (Cg {
                    vars,
                    ..old(self)@
                }),
            },
    {
        let ghost s0 = self@;
        let ghost bss = s0.bss;
        let mut addr = start;
        let mut k: usize = 0;
        assert(bss.subrange(0, bss.len() as int) =~= bss);
        while k < self.bss_entries.len()
            invariant
                self.wf(),
                k <= self.bss_entries@.len(),
                s0 == old(self)@,
                cg_wf(s0),
                bss == s0.bss,
                self@ == (Cg { vars: self@.vars, ..s0 }),
                layout_bss_s(s0.vars, bss, start) == layout_bss_s(
                    self@.vars,
                    bss.subrange(k as int, bss.len() as int),
                    addr,
                ),
            decreases self.bss_entries@.len() - k,
        {
            let ghost rest = bss.subrange(k as int, bss.len() as int);
            assert(rest[0] == bss[k as int]);
            assert(rest.subrange(1, rest.len() as int) =~= bss.subrange(k + 1, bss.len() as int));
            assert(bss[k as int] == (self.bss_entries@[k as int].0@, self.bss_entries@[k as int].1));
            let ghost before = self@;
            let size = self.bss_entries[k].1;
            match find_var(&self.variables, &self.bss_entries[k].0) {
                Some(i) => {
                    set_var_addr(&mut self.variables, i, addr);
                },
                None => {},
            }
            assert(self@ == (Cg { vars: set_addr(before.vars, bss[k as int].0, addr), ..s0 }));
            proof {
                lemma_set_addr_keys(before.vars, bss[k as int].0, addr);
            }
            assert(cg_wf(self@));
            if size > u32::MAX / 4 {
                return None;
            }
            if addr > u32::MAX - size * 4 {
                return None;
            }
            addr = addr + size * 4;
            k = k + 1;
        }
        assert(bss.subrange(k as int, bss.len() as int) =~= Seq::<(Seq<char>, u32)>::empty());
        Some(addr)
    }

    /// Patches the operand of the instruction at word `address` to `target`
    /// and rewrites its listing line (see `patch_s`).
    fn patch(&mut self, address: u32, target: u32)
        requires
            old(self).wf(),
            address < old(self)@.instructions.len(),
        ensures
            final(self).wf(),
            final(self)@ == ({
                let (ins, listing) = patch_s(
                    old(self)@.instructions,
                    old(self)@.listing,
                    address,
                    target,
                );
                Cg { instructions: ins, listing, ..old(self)@ }
            }),
    {
        let ghost s0 = self@;
        let old_word = self.instructions[address as usize];
        let opcode = (old_word >> 24) as u8;
        let mode = (old_word >> 21) as u8;
        let new_word = encode(opcode, mode & 7, target);
        self.instructions.set(address as usize, new_word);
        let at = address * 4 + CODE_BASE;
        let mut prefix: Vec<char> = Vec::new();
        push_str(&mut prefix, "0x");
        push_hex(&mut prefix, at as u64, 4);
        assert(prefix@ =~= "0x"@ + hex_text(at as nat, 4));
        let ghost l0 = self@.listing;
        let ghost expected = patch_s(s0.instructions, s0.listing, address, target);
        assert(l0 == s0.listing);
        assert(new_word == encode_word(
            (s0.instructions[address as int] >> 24u32) as u8,
            ((s0.instructions[address as int] >> 21u32) as u8) & 7u8,
            target,
        ));
        match find_fixup_line(&self.listing, &prefix) {
            Some(j) => {
                let line = head_line(at, new_word);
                self.listing.set(j, string_of(&line));
                assert(self@.listing =~= l0.update(j as int, line@));
                assert(first_match(l0, prefix@, 0) == Some(j as int));
                assert(at == (address * 4 + CODE_BASE) as u32);
                assert(line@ == line_head((address * 4 + CODE_BASE) as u32, new_word));
                assert(self@.listing == expected.1);
            },
            None => {
                assert(self@.listing == expected.1);
            },
        }
        assert(self@.instructions == expected.0);
        assert(self@ =~= Cg { instructions: expected.0, listing: expected.1, ..s0 });
    }

    /// Resolves the fixups (see `fixups_s`); `false` where an address
    /// passes `u32::MAX`.
    fn apply_fixups(&mut self, code_end_bytes: u32) -> (ok: bool)
        requires
            old(self).wf(),
        ensures
            match fixups_s(
                old(self)@.labels,
                old(self)@.vars,
                code_end_bytes as int,
                old(self)@.fixups,
                old(self)@.instructions,
                old(self)@.listing,
            ) {
                None => !ok,
                Some((ins, listing)) => ok && final(self).wf() && final(self)@ == (Cg {
                    instructions: ins,
                    listing,
                    ..old(self)@
                }),
            },
    {
        let ghost s0 = self@;
        let ghost fx = s0.fixups;
        let str_prefix = chars_of("@str_");
        proof {
            reveal_strlit("@str_");
        }
        let mut i: usize = 0;
        assert(fx.subrange(0, fx.len() as int) =~= fx);
        while i < self.fixups.len()
            invariant
                self.wf(),
                i <= self.fixups@.len(),
                s0 == old(self)@,
                fx == s0.fixups,
                str_prefix@ == "@str_"@,
                str_prefix@.len() == 5,
                self@ == (Cg { instructions: self@.instructions, listing: self@.listing, ..s0 }),
                fixups_s(s0.labels, s0.vars, code_end_bytes as int, fx, s0.instructions, s0.listing)
                    == fixups_s(
                    s0.labels,
                    s0.vars,
                    code_end_bytes as int,
                    fx.subrange(i as int, fx.len() as int),
                    self@.instructions,
                    self@.listing,
                ),
            decreases self.fixups@.len() - i,
        {
            let ghost rest = fx.subrange(i as int, fx.len() as int);
            assert(rest[0] == fx[i as int]);
            assert(rest.subrange(1, rest.len() as int) =~= fx.subrange(i + 1, fx.len() as int));
            let f_address = self.fixups[i].address;
            let f_offset = self.fixups[i].offset;
            let symbol = copy_chars(&self.fixups[i].symbol);
            assert(fx[i as int] == FixupInfo { address: f_address, symbol: symbol@, offset: f_offset });
            let base: Option<u64> = match find_addr(&self.labels, &symbol) {
                Some(j) => Some(self.labels[j].1 as u64),
                None => match find_var(&self.variables, &symbol) {
                    Some(j) => Some(self.variables[j].1.addr as u64),
                    None => {
                        if starts_with(&symbol, &str_prefix) {
                            let offset = match parse_u32(&symbol, 5) {
                                Some(n) => n,
                                None => 0,
                            };
                            Some(code_end_bytes as u64 + CODE_BASE as u64 + offset as u64)
                        } else {
                            None
                        }
                    },
                },
            };
            assert(base == match fixup_base(s0.labels, s0.vars, code_end_bytes as int, symbol@) {
                Some(b) => Some(b as u64),
                None => None::<u64>,
            });
            match base {
                None => {},
                Some(b) => {
                    if b + f_offset as u64 > u32::MAX as u64 {
                        return false;
                    }
                    assert(self@.fixups == s0.fixups);
                    assert(self@.fixups[i as int].address < self@.instructions.len());
                    self.patch(f_address, (b + f_offset as u64) as u32);
                },
            }
            i = i + 1;
        }
        assert(fx.subrange(i as int, fx.len() as int) =~= Seq::<FixupInfo>::empty());
        true
    }

    /// Compiles `program` into a memory image that starts at the load
    /// address 8: the code (beginning with a jump to `main`), the data, and
    /// the variables, zeroed; and the listing.  Nothing where the generator
    /// cannot finish (see `generate_from`).
    pub fn generate(self, program: &Expression) -> (r: Option<(Vec<u32>, Vec<String>)>)
        requires
            self.wf(),
        ensures
            match generate_from(self@, program@) {
                None => r is None,
                Some((m, l)) => r matches Some((rm, rl)) && rm@ == m && lines_view(rl@) == l,
            },
            r matches Some((rm, rl)) ==> image_layout(compile_program_s(self@, program@), rm@, lines_view(rl@)),
    {
        let mut cg = self;
        cg.run(program)
    }

    fn run(&mut self, program: &Expression) -> (r: Option<(Vec<u32>, Vec<String>)>)
        requires
            old(self).wf(),
        ensures
            match generate_from(old(self)@, program@) {
                None => r is None,
                Some((m, l)) => r matches Some((rm, rl)) && rm@ == m && lines_view(rl@) == l,
            },
            r matches Some((rm, rl)) ==> image_layout(compile_program_s(old(self)@, program@), rm@, lines_view(rl@)),
    {
        let ghost s0 = self@;
        proof {
            lemma_collect_failed();
            lemma_compile_failed();
        }
        if !self.collect_symbols(program) {
            return None;
        }
        let ghost s1 = self@;
        self.data_address = 0;
        self.data_values.clear();
        self.string_offsets.clear();
        assert(self@ =~= Cg { data_address: 0, data: Seq::empty(), strings: Seq::empty(), ..s1 });
        if !self.collect_symbols(program) {
            return None;
        }
        let main_label = chars_of("fn_main");
        if !self.jump(OP_JMP, &main_label) {
            return None;
        }
        if !self.compile_statement(program) {
            return None;
        }
        if !self.emit_register(OP_HLT) {
            return None;
        }
        let ghost s = self@;
        assert(s == compile_program_s(s0, program@));
        let code_end_words = self.instructions.len() as u32;
        let code_end_bytes = code_end_words * 4;
        let data_len_words = self.data_values.len() as u32;
        let data_len_bytes = data_len_words * 4;
        if code_end_bytes > u32::MAX - data_len_bytes || code_end_bytes + data_len_bytes > u32::MAX
            - CODE_BASE {
            return None;
        }
        let start = code_end_bytes + data_len_bytes + CODE_BASE;
        proof {
            lemma_layout_grows(self@.vars, self@.bss, start);
        }
        let end = match self.layout_bss(start) {
            Some(e) => e,
            None => {
                return None;
            },
        };
        if !self.apply_fixups(code_end_bytes) {
            return None;
        }
        proof {
            lemma_layout_end(s.vars, s.bss, start);
            lemma_layout_ranges(s.vars, s.bss, start);
            let (vs, _e) = layout_bss_s(s.vars, s.bss, start).unwrap();
            lemma_fixups_keep_lengths(s.labels, vs, code_end_bytes as int, s.fixups, s.instructions, s.listing);
        }
        let bss_total_words = (end - code_end_bytes - data_len_bytes - CODE_BASE) / 4;
        let memory = image(&self.instructions, &self.data_values, bss_total_words);
        let mut listing: Vec<String> = Vec::new();
        std::mem::swap(&mut listing, &mut self.listing);
        assert(memory@.subrange(s.instructions.len() as int, (s.instructions.len() + s.data.len()) as int)
            =~= s.data);
        Some((memory, listing))
    }
}

/// Sets the address of the variable at position `i`.
fn set_var_addr(t: &mut Vec<(Vec<char>, Var)>, i: usize, a: u32)
    requires
        i < old(t)@.len(),
    ensures
        vars_view(final(t)@) == vars_view(old(t)@).update(
            i as int,
            (old(t)@[i as int].0@, VarInfo { addr: a, ..old(t)@[i as int].1.info() }),
        ),
{
    let ghost before = vars_view(t@);
    let name = copy_chars(&t[i].0);
    let typ = copy_chars(&t[i].1.typ);
    let size = t[i].1.size;
    t.set(i, (name, Var { addr: a, typ, size }));
    assert(vars_view(t@) =~= before.update(
        i as int,
        (before[i as int].0, VarInfo { addr: a, ..before[i as int].1 }),
    ));
}

/// The first listing line that starts with `prefix` and mentions a fixup.
fn find_fixup_line(listing: &Vec<String>, prefix: &Vec<char>) -> (r: Option<usize>)
    ensures
        r is Some == first_match(lines_view(listing@), prefix@, 0) is Some,
        r matches Some(k) ==> first_match(lines_view(listing@), prefix@, 0) == Some(k as int) && k
            < listing@.len(),
{
    let ghost lines = lines_view(listing@);
    let fixup_text = chars_of("fixup");
    let mut j: usize = 0;
    while j < listing.len()
        invariant
            j <= listing@.len(),
            lines == lines_view(listing@),
            fixup_text@ == "fixup"@,
            first_match(lines, prefix@, 0) == first_match(lines, prefix@, j as int),
        decreases listing@.len() - j,
    {
        let line = chars_of(listing[j].as_str());
        assert(line@ == lines[j as int]);
        if starts_with(&line, prefix) && contains(&line, &fixup_text) {
            return Some(j);
        }
        j = j + 1;
    }
    None
}

/// The memory image: the code, the data, then `zeros` zero words.
fn image(ins: &Vec<u32>, data: &Vec<u32>, zeros: u32) -> (r: Vec<u32>)
    ensures
        r@ == ins@ + data@ + Seq::new(zeros as nat, |_i: int| 0u32),
{
    let mut memory: Vec<u32> = Vec::new();
    let mut i: usize = 0;
    while i < ins.len()
        invariant
            i <= ins@.len(),
            memory@ == ins@.take(i as int),
        decreases ins@.len() - i,
    {
        memory.push(ins[i]);
        i = i + 1;
        assert(memory@ =~= ins@.take(i as int));
    }
    assert(ins@.take(i as int) =~= ins@);
    let mut k: usize = 0;
    while k < data.len()
        invariant
            k <= data@.len(),
            memory@ == ins@ + data@.take(k as int),
        decreases data@.len() - k,
    {
        memory.push(data[k]);
        k = k + 1;
        assert(memory@ =~= ins@ + data@.take(k as int));
    }
    assert(data@.take(k as int) =~= data@);
    let mut z: u32 = 0;
    while z < zeros
        invariant
            z <= zeros,
            memory@ == ins@ + data@ + Seq::new(z as nat, |_i: int| 0u32),
        decreases zeros - z,
    {
        memory.push(0);
        z = z + 1;
        assert(memory@ =~= ins@ + data@ + Seq::new(z as nat, |_i: int| 0u32));
    }
    memory
}

} // verus!
