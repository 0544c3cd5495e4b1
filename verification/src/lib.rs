//! A small register machine: a symbol table, a preprocessor and a lexer
//! for its assembly language, a two-pass assembler, and the engine that
//! executes the assembled program on a register file and a flat byte
//! memory.
//!
//! Every executable function carries a contract over mathematical models
//! (`Seq`, `Map`, ghost structs) and is proved against it. The library does
//! no input or output: the numbers that a program prints are collected on
//! the console of its context, and the files that a source includes are
//! read by the caller.
//!
//! - `rvm_htab`: the symbol table.
//! - `rvm_memory`: the machine state and its stack.
//! - `rvm_isa`: mnemonics, register names, opcode numbers.
//! - `rvm_engine`: what one instruction does.
//! - `rvm_prog`: the assembled program.
//! - `rvm`: the machine context, single steps and runs.
//! - `rvm_literal`: literal immediates.
//! - `rvm_asm`, `rvm_parse`: the assembler, as a model and on a context.
//! - `rvm_lex`, `rvm_preprocessor`: from source text to token lines.
//! - `rvm_laws`: what holds of every token stream and machine state.
//! - `rvm_text`: strings as sequences of characters.

pub mod rvm;
pub mod rvm_asm;
pub mod rvm_engine;
pub mod rvm_htab;
pub mod rvm_isa;
pub mod rvm_laws;
pub mod rvm_lex;
pub mod rvm_literal;
pub mod rvm_memory;
pub mod rvm_parse;
pub mod rvm_preprocessor;
pub mod rvm_prog;
pub mod rvm_text;
