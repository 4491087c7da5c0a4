//! An interpreter for the eight-command byte-tape language: a scanner that
//! turns source text into opcodes, a parser that resolves brackets into a tree
//! of instructions, and a step machine that executes that tree.
pub mod lexer;
pub mod parser;
pub mod machine;

pub use lexer::{lex, OpCode};
pub use machine::{Machine, RunError, Step, TAPE_LEN};
pub use parser::{parse, Instruction, ParseError};
