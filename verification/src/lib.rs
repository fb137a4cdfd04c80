//! A compiler for a small imperative language and a simulator for the
//! microprogrammed processor it targets.
use vstd::prelude::*;

pub mod arith;
pub mod text;
pub mod lexer;
pub mod parser;
pub mod parse_end;
pub mod precedence;
pub mod codegen;
pub mod code_grows;
pub mod compiled_ops;
pub mod fold;
pub mod tree;
pub mod consts;
pub mod mem;
pub mod microcode;
pub mod cpu;
pub mod trace;
pub mod input;
pub mod binary;
