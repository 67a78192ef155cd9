use vstd::prelude::*;

pub mod strings;
pub mod types;
pub mod token;
pub mod error;
pub mod strmap;
pub mod symbol;
pub mod bytecode;
pub mod trigger_table;
pub mod diagnostic_messages;
pub mod diagnostics;
pub mod pointer;
pub mod command_table;
pub mod compiler;
pub mod lexer;
pub mod parser;
pub mod source_text;
pub mod lints;
pub mod pointer_checker;
pub mod symloader;
pub mod pipeline;

verus! {
} // verus!
