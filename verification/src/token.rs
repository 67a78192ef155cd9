//! Tokens produced by the lexer.
use vstd::prelude::*;

verus! {

/// A lexed token: its kind, its text and where it starts (1-based line and column).
#[derive(Debug)]
pub struct Token {
    pub line: usize,
    pub column: usize,
    pub kind: Kind,
    pub value: String,
}

impl Clone for Token {
    fn clone(&self) -> (t: Self)
        ensures
            t == *self,
    {
        Token { line: self.line, column: self.column, kind: self.kind, value: self.value.clone() }
    }
}

impl Token {
    pub fn new(kind: Kind, value: String, line: usize, column: usize) -> (t: Self)
        ensures
            t.kind == kind,
            t.value == value,
            t.line == line,
            t.column == column,
    {
        Token { line, column, kind, value }
    }
}

/// Token kinds.
#[derive(Debug, Clone, Copy, PartialEq, Eq, Structural)]
pub enum Kind {
    // Brackets and delimiters
    LBracket,
    RBracket,
    LParen,
    RParen,
    LBrace,
    RBrace,
    Semicolon,
    Comma,
    Colon,
    // Operators
    Equals,
    BinaryOperator,
    ComparisonOperator,
    LogicalAnd,
    LogicalOr,
    Not,
    // Special characters
    Underscore,
    Dot,
    ScriptCall,
    JumpCall,
    Hash,
    // Keywords
    Trigger,
    Command,
    Def,
    Return,
    If,
    Else,
    While,
    Switch,
    Case,
    Default,
    Calc,
    Null,
    // Identifiers and literals
    Identifier,
    LocalVar,
    GameVar,
    ConstantVar,
    Number,
    LongLiteral,
    StringLiteral,
    BooleanTrue,
    BooleanFalse,
    CharLiteral,
    CoordLiteral,
    // Comments
    SingleLineComment,
    MultiLineComment,
    // End of input
    EndOfFile,
}



/// The name of a token kind's variant.
pub open spec fn kind_name(k: Kind) -> Seq<char> {
    match k {
        Kind::LBracket => "LBracket"@,
        Kind::RBracket => "RBracket"@,
        Kind::LParen => "LParen"@,
        Kind::RParen => "RParen"@,
        Kind::LBrace => "LBrace"@,
        Kind::RBrace => "RBrace"@,
        Kind::Semicolon => "Semicolon"@,
        Kind::Comma => "Comma"@,
        Kind::Colon => "Colon"@,
        Kind::Equals => "Equals"@,
        Kind::BinaryOperator => "BinaryOperator"@,
        Kind::ComparisonOperator => "ComparisonOperator"@,
        Kind::LogicalAnd => "LogicalAnd"@,
        Kind::LogicalOr => "LogicalOr"@,
        Kind::Not => "Not"@,
        Kind::Underscore => "Underscore"@,
        Kind::Dot => "Dot"@,
        Kind::ScriptCall => "ScriptCall"@,
        Kind::JumpCall => "JumpCall"@,
        Kind::Hash => "Hash"@,
        Kind::Trigger => "Trigger"@,
        Kind::Command => "Command"@,
        Kind::Def => "Def"@,
        Kind::Return => "Return"@,
        Kind::If => "If"@,
        Kind::Else => "Else"@,
        Kind::While => "While"@,
        Kind::Switch => "Switch"@,
        Kind::Case => "Case"@,
        Kind::Default => "Default"@,
        Kind::Calc => "Calc"@,
        Kind::Null => "Null"@,
        Kind::Identifier => "Identifier"@,
        Kind::LocalVar => "LocalVar"@,
        Kind::GameVar => "GameVar"@,
        Kind::ConstantVar => "ConstantVar"@,
        Kind::Number => "Number"@,
        Kind::LongLiteral => "LongLiteral"@,
        Kind::StringLiteral => "StringLiteral"@,
        Kind::BooleanTrue => "BooleanTrue"@,
        Kind::BooleanFalse => "BooleanFalse"@,
        Kind::CharLiteral => "CharLiteral"@,
        Kind::CoordLiteral => "CoordLiteral"@,
        Kind::SingleLineComment => "SingleLineComment"@,
        Kind::MultiLineComment => "MultiLineComment"@,
        Kind::EndOfFile => "EndOfFile"@,
    }
}

impl Kind {
    /// The variant's name, as `{:?}` prints it.
    pub fn name(self) -> (s: &'static str)
        ensures
            s@ == kind_name(self),
    {
        match self {
            Kind::LBracket => "LBracket",
            Kind::RBracket => "RBracket",
            Kind::LParen => "LParen",
            Kind::RParen => "RParen",
            Kind::LBrace => "LBrace",
            Kind::RBrace => "RBrace",
            Kind::Semicolon => "Semicolon",
            Kind::Comma => "Comma",
            Kind::Colon => "Colon",
            Kind::Equals => "Equals",
            Kind::BinaryOperator => "BinaryOperator",
            Kind::ComparisonOperator => "ComparisonOperator",
            Kind::LogicalAnd => "LogicalAnd",
            Kind::LogicalOr => "LogicalOr",
            Kind::Not => "Not",
            Kind::Underscore => "Underscore",
            Kind::Dot => "Dot",
            Kind::ScriptCall => "ScriptCall",
            Kind::JumpCall => "JumpCall",
            Kind::Hash => "Hash",
            Kind::Trigger => "Trigger",
            Kind::Command => "Command",
            Kind::Def => "Def",
            Kind::Return => "Return",
            Kind::If => "If",
            Kind::Else => "Else",
            Kind::While => "While",
            Kind::Switch => "Switch",
            Kind::Case => "Case",
            Kind::Default => "Default",
            Kind::Calc => "Calc",
            Kind::Null => "Null",
            Kind::Identifier => "Identifier",
            Kind::LocalVar => "LocalVar",
            Kind::GameVar => "GameVar",
            Kind::ConstantVar => "ConstantVar",
            Kind::Number => "Number",
            Kind::LongLiteral => "LongLiteral",
            Kind::StringLiteral => "StringLiteral",
            Kind::BooleanTrue => "BooleanTrue",
            Kind::BooleanFalse => "BooleanFalse",
            Kind::CharLiteral => "CharLiteral",
            Kind::CoordLiteral => "CoordLiteral",
            Kind::SingleLineComment => "SingleLineComment",
            Kind::MultiLineComment => "MultiLineComment",
            Kind::EndOfFile => "EndOfFile",
        }
    }
}

} // verus!
