//! A small embeddable language: a single-pass bytecode compiler and a
//! stack-based virtual machine with first-class closures.
//!
//! Every function of this crate is verified. Floating-point arithmetic,
//! printing and reading input are left to the embedding host: the lexer hands
//! the text of a float literal out, and the machine reports an event whenever
//! the host has to compute on floats or to print a value.
//!
//! The modules, leaves first:
//!
//! - `bytes`, `opcode`: how instructions and their operands lie in bytecode;
//! - `symbols`: interned names;
//! - `token`, `lexer`: from source text to tokens;
//! - `func`: compiled functions, the builder that emits them, name
//!   resolution through enclosing functions, and disassembly;
//! - `syntax`: the language and what each program compiles to, as a
//!   mathematical function; `parser`: the compiler, which computes it;
//! - `progress`, `emitted`, `heights`: what holds of every compilation;
//! - `heap`, `value`, `list`: the runtime values and where they live;
//! - `semantics`: the machine as a mathematical function; `vm`: the machine,
//!   which computes it;
//! - `soundness`, `laws`, `balance`: what holds of every run.

pub mod balance;
pub mod bytes;
pub mod emitted;
pub mod func;
pub mod heap;
pub mod heights;
pub mod laws;
pub mod lexer;
pub mod list;
pub mod opcode;
pub mod parser;
pub mod progress;
pub mod semantics;
pub mod soundness;
pub mod symbols;
pub mod syntax;
pub mod token;
pub mod value;
pub mod vm;
