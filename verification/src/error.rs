//! Error payloads of the lexer and parser, and the process-level error.
use vstd::prelude::*;
use crate::token::Token;

verus! {

/// Top-level error carried out of the compile pipeline. The I/O variant holds
/// the operating system's message.
#[derive(Debug)]
pub enum CompilerError {
    FileNotFound(String),
    IO(String),
    TypeError(String),
    CodeGenError(String),
}

/// Lexer error payload.
#[derive(Debug)]
pub struct LexingError {
    pub path: String,
    pub message: String,
    pub line: usize,
    pub position: usize,
}

impl LexingError {
    pub fn new(path: String, message: String, line: usize, position: usize) -> (e: Self)
        ensures
            e.path == path,
            e.message == message,
            e.line == line,
            e.position == position,
    {
        Self { path, message, line, position }
    }
}

/// Parser error payload.
#[derive(Debug)]
pub struct SyntaxError {
    pub path: String,
    pub message: String,
    pub line: usize,
    pub position: usize,
}

impl SyntaxError {
    /// An error located at `token`.
    pub fn from_token(path: String, token: &Token, message: String) -> (e: Self)
        ensures
            e.path == path,
            e.message == message,
            e.line == token.line,
            e.position == token.column,
    {
        Self { path, message, line: token.line, position: token.column }
    }
}

} // verus!
