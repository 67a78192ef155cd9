//! The parser: a recursive-descent parser from tokens to the syntax tree of
//! a script file.
use vstd::prelude::*;
use crate::diagnostic_messages as msg;
use crate::error::SyntaxError;
use vstd::string::StrSliceExecFns;
use crate::lexer::{tokens_ok, Lexer};
use crate::strings::{
    chars_of, contains_char, parse_decimal, push_char, push_str, str_eq, string_from_chars,
    string_from_range, to_owned_string,
};
use crate::token::{Kind, Token, kind_name};
use crate::types::{named_type, Type};

verus! {

// ── Syntax tree ────────────────────────────────────────────────────────────

/// A parsed script file.
#[derive(Debug)]
pub struct ScriptFile {
    pub scripts: Vec<ScriptDeclaration>,
}

/// One `[trigger,name]` script with its parameters, return types and body.
#[derive(Debug)]
pub struct ScriptDeclaration {
    pub trigger: String,
    pub name: String,
    pub params: Vec<ParamDef>,
    pub return_types: Vec<Type>,
    pub body: Vec<Statement>,
    pub line: usize,
}

/// A script parameter.
#[derive(Debug, Clone)]
pub struct ParamDef {
    pub param_type: Type,
    pub name: String,
}

/// A statement.
#[derive(Debug)]
pub enum Statement {
    VarDeclaration { var_type: Type, name: String, value: Option<Expr>, line: usize },
    ArrayDeclaration { element_type: Type, name: String, size: Expr, line: usize },
    Assignment { target: Expr, value: Expr, line: usize },
    If {
        condition: Expr,
        body: Vec<Statement>,
        else_if: Vec<(Expr, Vec<Statement>, usize)>,
        else_body: Option<Vec<Statement>>,
        /// Line of the `else` keyword (0 if there is no plain else block).
        else_line: usize,
        line: usize,
    },
    While { condition: Expr, body: Vec<Statement>, line: usize },
    Switch {
        switch_type: String,
        expr: Expr,
        cases: Vec<SwitchCase>,
        default: Option<Vec<Statement>>,
        /// How many cases came before `default` in the source.
        default_index: usize,
        line: usize,
    },
    Return { values: Vec<Expr>, line: usize },
    Expression { expr: Expr, line: usize },
    /// A `case` outside any switch, kept for the type checker to report.
    OrphanCase { case: SwitchCase, line: usize },
    Empty,
}

/// One `case` of a switch.
#[derive(Debug)]
pub struct SwitchCase {
    pub values: Vec<Expr>,
    pub body: Vec<Statement>,
}

/// An expression.
#[derive(Debug)]
pub enum Expr {
    IntLiteral(i32),
    LongLiteral(i64),
    StringLiteral(String),
    BoolLiteral(bool),
    NullLiteral,
    CharLiteral(char),
    CoordLiteral(i32),
    Identifier(String),
    /// A local variable and its source line.
    LocalVar(String, usize),
    /// A game variable and its source line.
    GameVar(String, usize),
    /// A constant and its source line.
    ConstantVar(String, usize),
    ArrayAccess { name: String, index: Box<Expr> },
    BinaryOp { op: BinOp, lhs: Box<Expr>, rhs: Box<Expr> },
    LogicalOp {
        op: LogicOp,
        lhs: Box<Expr>,
        rhs: Box<Expr>,
        /// Source line where the right operand starts.
        rhs_line: usize,
    },
    Calc(Box<Expr>),
    CommandCall { name: String, args: Vec<Expr>, arg_lines: Vec<usize>, call_line: usize },
    ProcCall { name: String, args: Vec<Expr>, arg_lines: Vec<usize>, call_line: usize },
    JumpCall { name: String, args: Vec<Expr>, arg_lines: Vec<usize>, call_line: usize },
    JoinedString { parts: Vec<StringPart> },
    /// Several assignment targets (`$a, $b = ...`) and their lines.
    MultiAssign(Vec<Expr>, Vec<usize>),
}

/// A piece of an interpolated string.
#[derive(Debug)]
pub enum StringPart {
    Literal(String),
    Expr(Expr),
}

/// Binary operators.
#[derive(Debug, Clone, Copy, PartialEq, Eq, Structural)]
pub enum BinOp {
    Add,
    Sub,
    Mul,
    Div,
    Mod,
    Eq,
    NotEq,
    Lt,
    Gt,
    LtEq,
    GtEq,
    BitAnd,
    BitOr,
}

/// Logical operators.
#[derive(Debug, Clone, Copy, PartialEq, Eq, Structural)]
pub enum LogicOp {
    And,
    Or,
}

/// The older name of [`ScriptFile`].
pub type Script = ScriptFile;

/// The older syntax-tree shape, kept for code written against it.
#[derive(Debug)]
pub enum AstKind {
    NumericLiteral(i32),
    StringLiteral(String),
    Identifier(String),
    Proc,
    BinaryExpression { lhs: Box<AstKind>, rhs: Box<AstKind>, operator: String },
    Define { name: String, var_type: Type, value: Box<AstKind> },
    Program,
    Trigger {
        name: Box<AstKind>,
        kind: Box<AstKind>,
        args: Vec<Box<AstKind>>,
        body: Box<AstKind>,
        return_type: Box<AstKind>,
    },
    Integer,
    LocalVar(String),
    ReturnType,
    Return(Box<AstKind>),
    ConditionalExpression { lhs: Box<AstKind>, rhs: Box<AstKind>, value: Box<AstKind> },
    If { expression: Box<AstKind>, value: Box<AstKind>, return_statement: Box<AstKind> },
    AssignmentExpression,
    While { condition: Box<AstKind>, body: Box<AstKind> },
    Block(Vec<AstKind>),
    FunctionCall { name: String, arguments: Vec<Box<AstKind>> },
    Assignment { target: Box<AstKind>, value: Box<AstKind> },
    ScriptCall { script: Box<AstKind>, arguments: Vec<Box<AstKind>> },
}

/// Config kinds.
#[derive(Debug, Clone, Copy, PartialEq, Eq, Structural)]
pub enum ConfigType {
    Floor,
    IdKit,
    Location,
    Npc,
    Object,
    Sequence,
    Spotanim,
    Varp,
    Param,
    Enum,
    Struct,
}

// ── Token navigation ───────────────────────────────────────────────────────

/// Whether `k` is a comment kind, which the parser skips.
pub open spec fn is_comment(k: Kind) -> bool {
    k == Kind::SingleLineComment || k == Kind::MultiLineComment
}

/// The index of the first non-comment token at or after `pos` (the length
/// when there is none).
pub open spec fn next_real(ts: Seq<Token>, pos: int) -> int
    decreases ts.len() - pos,
{
    if pos >= ts.len() {
        ts.len() as int
    } else if is_comment(ts[pos].kind) {
        next_real(ts, pos + 1)
    } else {
        pos
    }
}

pub proof fn lemma_next_real(ts: Seq<Token>, pos: int)
    requires
        0 <= pos <= ts.len(),
    ensures
        pos <= next_real(ts, pos) <= ts.len(),
        next_real(ts, pos) < ts.len() ==> !is_comment(ts[next_real(ts, pos)].kind),
        forall|i: int| pos <= i < next_real(ts, pos) ==> is_comment(#[trigger] ts[i].kind),
    decreases ts.len() - pos,
{
    if pos < ts.len() && is_comment(ts[pos].kind) {
        lemma_next_real(ts, pos + 1);
    }
}

/// The token the parser looks at from `pos`: the next non-comment token, or
/// the last token when only comments remain.
pub open spec fn current(ts: Seq<Token>, pos: int) -> Token {
    if next_real(ts, pos) < ts.len() {
        ts[next_real(ts, pos)]
    } else {
        ts.last()
    }
}

/// The kind of the `n`th non-comment token at or after `pos`; the end of file
/// past the last token.
pub open spec fn kind_ahead(ts: Seq<Token>, pos: int, n: nat) -> Kind
    decreases ts.len() - pos,
{
    if pos >= ts.len() {
        Kind::EndOfFile
    } else if is_comment(ts[pos].kind) {
        kind_ahead(ts, pos + 1, n)
    } else if n == 0 {
        ts[pos].kind
    } else {
        kind_ahead(ts, pos + 1, (n - 1) as nat)
    }
}

/// The strict upper bound on the length of the string-literal texts among `ts`.
pub open spec fn string_bound(ts: Seq<Token>, limit: int) -> bool {
    forall|i: int|
        0 <= i < ts.len() && (#[trigger] ts[i]).kind == Kind::StringLiteral ==> ts[i].value@.len()
            < limit
}

/// The position after reading the current token from `pos`: just past the
/// next non-comment token, or the end when only comments remain.
pub open spec fn after_current(ts: Seq<Token>, pos: int) -> int {
    if next_real(ts, pos) < ts.len() {
        next_real(ts, pos) + 1
    } else {
        ts.len() as int
    }
}

/// The types of a return-type list whose items start at `pos` (after `(`,
/// or after an item when `first` is false), up to and including `)`, and
/// the position after it; none when an item is not a type name or a `,` is
/// missing.
pub open spec fn return_types_from(ts: Seq<Token>, pos: int, first: bool) -> Option<(Seq<Type>, int)>
    decreases ts.len() - pos, (if first { 1int } else { 0int }),
{
    if pos < 0 || pos > ts.len() || ts.len() == 0 || ts.last().kind != Kind::EndOfFile {
        None
    } else if current(ts, pos).kind == Kind::RParen {
        Some((Seq::empty(), after_current(ts, pos)))
    } else {
        proof {
            lemma_next_real(ts, pos);
        }
        let p1 = if first {
            pos
        } else if current(ts, pos).kind == Kind::Comma {
            after_current(ts, pos)
        } else {
            -1
        };
        if p1 < 0 {
            None
        } else {
            proof {
                lemma_next_real(ts, p1);
            }
            match crate::types::named_type(current(ts, p1).value@) {
                None => None,
                Some(t) => {
                    let p2 = after_current(ts, p1);
                    match return_types_from(ts, p2, false) {
                        Some((rest, end)) => Some((seq![t] + rest, end)),
                        None => None,
                    }
                },
            }
        }
    }
}

/// The return-type list `( type, ... )` at `pos`: its types and the position
/// after it.
pub open spec fn return_types_at(ts: Seq<Token>, pos: int) -> Option<(Seq<Type>, int)> {
    if current(ts, pos).kind == Kind::LParen {
        return_types_from(ts, after_current(ts, pos), true)
    } else {
        None
    }
}

/// The parameters of a parameter list whose items start at `pos` (after `(`,
/// or after an item when `first` is false), up to and including `)`: each
/// a type name, a `$` and a name token; and the position after it.
pub open spec fn params_from(ts: Seq<Token>, pos: int, first: bool) -> Option<(Seq<(Type, Seq<char>)>, int)>
    decreases ts.len() - pos, (if first { 1int } else { 0int }),
{
    if pos < 0 || pos > ts.len() || ts.len() == 0 || ts.last().kind != Kind::EndOfFile {
        None
    } else if current(ts, pos).kind == Kind::RParen {
        Some((Seq::empty(), after_current(ts, pos)))
    } else {
        proof {
            lemma_next_real(ts, pos);
        }
        let p1 = if first {
            pos
        } else if current(ts, pos).kind == Kind::Comma {
            after_current(ts, pos)
        } else {
            -1
        };
        if p1 < 0 {
            None
        } else {
            proof {
                lemma_next_real(ts, p1);
            }
            match crate::types::named_type(current(ts, p1).value@) {
                None => None,
                Some(t) => {
                    let p2 = after_current(ts, p1);
                    proof {
                        lemma_next_real(ts, p2);
                    }
                    if current(ts, p2).kind != Kind::LocalVar {
                        None
                    } else {
                        let p3 = after_current(ts, p2);
                        proof {
                            lemma_next_real(ts, p3);
                        }
                        let name = current(ts, p3).value@;
                        let p4 = after_current(ts, p3);
                        match params_from(ts, p4, false) {
                            Some((rest, end)) => Some((seq![(t, name)] + rest, end)),
                            None => None,
                        }
                    }
                },
            }
        }
    }
}

/// The parameter list `( type $name, ... )` at `pos`: its parameters and the
/// position after it.
pub open spec fn params_at(ts: Seq<Token>, pos: int) -> Option<(Seq<(Type, Seq<char>)>, int)> {
    if current(ts, pos).kind == Kind::LParen {
        params_from(ts, after_current(ts, pos), true)
    } else {
        None
    }
}


/// Reading a token that is not the end of file moves past it.
pub proof fn lemma_after_real(ts: Seq<Token>, pos: int)
    requires
        0 <= pos <= ts.len(),
        ts.len() > 0,
        ts.last().kind == Kind::EndOfFile,
        current(ts, pos).kind != Kind::EndOfFile,
    ensures
        pos < after_current(ts, pos) <= ts.len(),
{
    lemma_next_real(ts, pos);
}

/// The rest of a script name from `pos` and the position after it: `_`
/// followed by an optional name part, identifiers, `:` with the following
/// token, and `*` and `+` marks, up to the first other token.
pub open spec fn name_rest(ts: Seq<Token>, pos: int) -> (Seq<char>, int)
    decreases ts.len() - pos,
{
    if pos < 0 || pos > ts.len() || ts.len() == 0 || ts.last().kind != Kind::EndOfFile {
        (Seq::empty(), pos)
    } else {
        let c = current(ts, pos);
        let p1 = after_current(ts, pos);
        if c.kind == Kind::Underscore {
            proof {
                lemma_after_real(ts, pos);
                lemma_next_real(ts, p1);
            }
            if name_part_kind(current(ts, p1).kind) {
                let p2 = after_current(ts, p1);
                let rest = name_rest(ts, p2);
                (seq!['_'] + current(ts, p1).value@ + rest.0, rest.1)
            } else {
                let rest = name_rest(ts, p1);
                (seq!['_'] + rest.0, rest.1)
            }
        } else if c.kind == Kind::Identifier {
            proof {
                lemma_after_real(ts, pos);
            }
            let rest = name_rest(ts, p1);
            (c.value@ + rest.0, rest.1)
        } else if c.kind == Kind::Colon {
            proof {
                lemma_after_real(ts, pos);
                lemma_next_real(ts, p1);
            }
            let p2 = after_current(ts, p1);
            let rest = name_rest(ts, p2);
            (seq![':'] + current(ts, p1).value@ + rest.0, rest.1)
        } else if c.kind == Kind::BinaryOperator && c.value@ == "*"@ {
            proof {
                lemma_after_real(ts, pos);
            }
            let rest = name_rest(ts, p1);
            (seq!['*'] + rest.0, rest.1)
        } else if c.kind == Kind::BinaryOperator && c.value@ == "+"@ {
            proof {
                lemma_after_real(ts, pos);
            }
            let rest = name_rest(ts, p1);
            (seq!['+'] + rest.0, rest.1)
        } else {
            (Seq::empty(), pos)
        }
    }
}

/// The script name at `pos` and the position after it: an optional `.`, a
/// first part (a name part, a coordinate or `_`), then [`name_rest`]; none
/// when the first part is missing.
pub open spec fn script_name_at(ts: Seq<Token>, pos: int) -> Option<(Seq<char>, int)> {
    let dot = current(ts, pos).kind == Kind::Dot;
    let p0 = if dot { after_current(ts, pos) } else { pos };
    let prefix = if dot { seq!['.'] } else { Seq::<char>::empty() };
    let t = current(ts, p0);
    let p1 = after_current(ts, p0);
    if name_part_kind(t.kind) || t.kind == Kind::CoordLiteral {
        Some((prefix + t.value@ + name_rest(ts, p1).0, name_rest(ts, p1).1))
    } else if t.kind == Kind::Underscore {
        Some((prefix + seq!['_'] + name_rest(ts, p1).0, name_rest(ts, p1).1))
    } else {
        None
    }
}

/// The message of a missing token of kind `kind` where token `got` stands:
/// `Expected <kind>, got <kind of got> '<text of got>'`.
pub open spec fn expected_message(kind: Kind, got: Token) -> Seq<char> {
    "Expected "@ + kind_name(kind) + ", got "@ + kind_name(got.kind) + " '"@ + got.value@ + "'"@
}

/// Whether the last token read before `pos` closes a group that can hold a
/// whole expression: a `)`, or a string whose `<...>` embeds one.
pub open spec fn closes_paren(ts: Seq<Token>, pos: int) -> bool {
    0 < pos <= ts.len() && (ts[pos - 1].kind == Kind::RParen || ts[pos - 1].kind == Kind::StringLiteral)
}

/// Whether a token of kind `k` stands among `ts[from..to]`.
pub open spec fn reads_kind(ts: Seq<Token>, from: int, to: int, k: Kind) -> bool {
    exists|p: int| from <= p < to && (#[trigger] ts[p]).kind == k
}

/// What an expression read from `from` to `to` says of a logical node at its
/// top: one joined by `&` is read over an `&` token and one joined by `|`
/// over a `|` token, unless the expression ends in a group (a `)` or a
/// string) that may hold the node whole.
pub open spec fn logic_read(ts: Seq<Token>, from: int, to: int, op: LogicOp) -> bool {
    ||| closes_paren(ts, to)
    ||| (op == LogicOp::And && reads_kind(ts, from, to, Kind::LogicalAnd))
    ||| (op == LogicOp::Or && reads_kind(ts, from, to, Kind::LogicalOr))
}

/// Whether `op` compares its operands.
pub open spec fn is_comparison(op: BinOp) -> bool {
    op == BinOp::Eq || op == BinOp::NotEq || op == BinOp::Lt || op == BinOp::Gt || op == BinOp::LtEq
        || op == BinOp::GtEq
}

/// Whether token `t` writes comparison `op`: `<`, `>` and `<=` their own
/// operators, `>=` any other comparison operator, `=` equality and `!`
/// inequality.
pub open spec fn writes_comparison(t: Token, op: BinOp) -> bool {
    match op {
        BinOp::Lt => t.kind == Kind::ComparisonOperator && t.value@ == "<"@,
        BinOp::Gt => t.kind == Kind::ComparisonOperator && t.value@ == ">"@,
        BinOp::LtEq => t.kind == Kind::ComparisonOperator && t.value@ == "<="@,
        BinOp::GtEq => t.kind == Kind::ComparisonOperator && t.value@ != "<"@ && t.value@ != ">"@ && t.value@
            != "<="@,
        BinOp::Eq => t.kind == Kind::Equals,
        BinOp::NotEq => t.kind == Kind::Not,
        _ => false,
    }
}

/// What an expression read from `from` to `to` says of a comparison at its
/// top: it is read over a token that writes that comparison, unless the
/// expression ends in a group (a `)` or a string) that may hold it whole.
pub open spec fn comparison_read(ts: Seq<Token>, from: int, to: int, op: BinOp) -> bool {
    ||| closes_paren(ts, to)
    ||| exists|p: int| from <= p < to && writes_comparison(#[trigger] ts[p], op)
}

/// Whether a token of kind `k` ends the statements of a `case` body.
pub open spec fn case_boundary(k: Kind) -> bool {
    k == Kind::EndOfFile || k == Kind::Case || k == Kind::Default || k == Kind::RBrace
}

/// What a primary expression at `pos` that is a literal or a variable
/// parses to, and where it ends: a number within `i32` (else an error), a
/// long within `i64` (else an error), `true`, `false`, `null`, a character,
/// a string without tags, a constant, a game variable, a local that is not
/// indexed, or a plain name (not followed by `*`, `(` or `:`); an error
/// where the token cannot start a primary. For the other forms, what they
/// parse to when they parse: a coordinate; `calc(...)`; a script call or
/// jump naming the script after `~`/`@`; an indexed local; a `.`-prefixed
/// variable or command call; a command call or name. The parts parsed as
/// expressions (arguments, indices, the inside of parentheses) are left
/// open here.
pub open spec fn primary_leaf(ts: Seq<Token>, pos: int, r: Result<Expr, SyntaxError>, end: int) -> bool {
    let c = current(ts, pos);
    let a1 = after_current(ts, pos);
    let a2 = after_current(ts, a1);
    let name = current(ts, a1).value@;
    if c.kind == Kind::Number {
        if crate::strings::decimal_value(c.value@) matches Some(x) && i32::MIN <= x <= i32::MAX {
            r matches Ok(Expr::IntLiteral(n)) && n == crate::strings::decimal_value(c.value@)->0 && end == a1
        } else {
            r is Err
        }
    } else if c.kind == Kind::LongLiteral {
        if crate::strings::decimal_value(c.value@) matches Some(x) && i64::MIN <= x <= i64::MAX {
            r matches Ok(Expr::LongLiteral(n)) && n == crate::strings::decimal_value(c.value@)->0 && end == a1
        } else {
            r is Err
        }
    } else if c.kind == Kind::BooleanTrue {
        r matches Ok(Expr::BoolLiteral(b)) && b && end == a1
    } else if c.kind == Kind::BooleanFalse {
        r matches Ok(Expr::BoolLiteral(b)) && !b && end == a1
    } else if c.kind == Kind::Null {
        r matches Ok(Expr::NullLiteral) && end == a1
    } else if c.kind == Kind::CharLiteral {
        r matches Ok(Expr::CharLiteral(ch)) && ch == (if c.value@.len() > 0 { c.value@[0] } else { '\0' })
            && end == a1
    } else if c.kind == Kind::StringLiteral && !(c.value@.contains('<') && c.value@.contains('>')) {
        r matches Ok(Expr::StringLiteral(t)) && t@ == c.value@ && end == a1
    } else if c.kind == Kind::ConstantVar {
        r matches Ok(Expr::ConstantVar(n, l)) && n@ == name && l == c.line && end == a2
    } else if c.kind == Kind::GameVar {
        r matches Ok(Expr::GameVar(n, l)) && n@ == name && l == current(ts, a2).line && end == a2
    } else if c.kind == Kind::LocalVar && current(ts, a2).kind != Kind::LParen {
        r matches Ok(Expr::LocalVar(n, l)) && n@ == name && l == current(ts, a2).line && end == a2
    } else if (c.kind == Kind::Identifier || c.kind == Kind::Command || c.kind == Kind::Trigger) && current(
        ts,
        a1,
    ).kind != Kind::BinaryOperator && current(ts, a1).kind != Kind::LParen && current(ts, a1).kind != Kind::Colon {
        r matches Ok(Expr::Identifier(n)) && n@ == c.value@ && end == a1
    } else if !starts_primary(c) {
        r is Err
    } else if c.kind == Kind::CoordLiteral {
        r matches Ok(Expr::CoordLiteral(_)) && end == a1
    } else if c.kind == Kind::Calc {
        r is Ok ==> r matches Ok(Expr::Calc(_))
    } else if c.kind == Kind::ScriptCall {
        r is Ok ==> (r matches Ok(Expr::ProcCall { name: n, .. }) && n@ == call_name(ts, a1))
    } else if c.kind == Kind::JumpCall {
        r is Ok ==> (r matches Ok(Expr::JumpCall { name: n, .. }) && n@ == call_name(ts, a1))
    } else if c.kind == Kind::LocalVar {
        r is Ok ==> (r matches Ok(Expr::ArrayAccess { name: n, .. }) && n@ == name)
    } else if c.kind == Kind::Dot && (current(ts, a1).kind == Kind::GameVar || current(ts, a1).kind == Kind::LocalVar) {
        &&& current(ts, a1).kind == Kind::GameVar ==> (r matches Ok(Expr::GameVar(n, _)) && n@ == seq!['.']
            + current(ts, a2).value@)
        &&& current(ts, a1).kind == Kind::LocalVar ==> (r matches Ok(Expr::LocalVar(n, _)) && n@ == seq!['.']
            + current(ts, a2).value@)
        &&& end == after_current(ts, a2)
    } else if c.kind == Kind::Dot {
        r is Ok ==> (r matches Ok(Expr::CommandCall { name: n, .. }) && n@.len() > 0 && n@[0] == '.')
    } else if c.kind == Kind::Identifier || c.kind == Kind::Command || c.kind == Kind::Trigger {
        r is Ok ==> ((r matches Ok(Expr::CommandCall { name: n, .. }) && (n@ == c.value@ || n@ == c.value@.push(
            '*',
        ))) || (r matches Ok(Expr::Identifier(n)) && is_prefix_of(c.value@, n@)))
    } else {
        true
    }
}

/// The name of the script a call names after its `~` or `@` token: the
/// next token's text, or `.` and the text after it.
pub open spec fn call_name(ts: Seq<Token>, a1: int) -> Seq<char> {
    if current(ts, a1).kind == Kind::Dot {
        seq!['.'] + current(ts, after_current(ts, a1)).value@
    } else {
        current(ts, a1).value@
    }
}

/// Whether `p` is a prefix of `s`.
pub open spec fn is_prefix_of(p: Seq<char>, s: Seq<char>) -> bool {
    p.len() <= s.len() && s.subrange(0, p.len() as int) == p
}

/// Whether token `t` can start a primary expression: a literal, a
/// variable, `calc`, a call, a `.`-prefixed name, a name, `(`, or `-`.
pub open spec fn starts_primary(t: Token) -> bool {
    ||| t.kind == Kind::Number
    ||| t.kind == Kind::LongLiteral
    ||| t.kind == Kind::StringLiteral
    ||| t.kind == Kind::CharLiteral
    ||| t.kind == Kind::CoordLiteral
    ||| t.kind == Kind::BooleanTrue
    ||| t.kind == Kind::BooleanFalse
    ||| t.kind == Kind::Null
    ||| t.kind == Kind::LocalVar
    ||| t.kind == Kind::GameVar
    ||| t.kind == Kind::ConstantVar
    ||| t.kind == Kind::Calc
    ||| t.kind == Kind::ScriptCall
    ||| t.kind == Kind::JumpCall
    ||| t.kind == Kind::Dot
    ||| t.kind == Kind::Identifier
    ||| t.kind == Kind::Command
    ||| t.kind == Kind::Trigger
    ||| t.kind == Kind::LParen
    ||| (t.kind == Kind::BinaryOperator && t.value@ == seq!['-'])
}

/// The header of the script declaration at `pos`: `[trigger,name]` with
/// an optional parameter list and an optional return-type list; its trigger,
/// name, parameters, return types, line, and where it ends; none where it
/// is malformed.
pub open spec fn script_header_at(ts: Seq<Token>, pos: int) -> Option<
    (Seq<char>, Seq<char>, Seq<(Type, Seq<char>)>, Seq<Type>, usize, int),
> {
    let a1 = after_current(ts, pos);
    let a2 = after_current(ts, a1);
    let a3 = after_current(ts, a2);
    if current(ts, pos).kind != Kind::LBracket || current(ts, a2).kind != Kind::Comma {
        None
    } else {
        match script_name_at(ts, a3) {
            None => None,
            Some((name, a4)) => if current(ts, a4).kind != Kind::RBracket {
                None
            } else {
                let a5 = after_current(ts, a4);
                let ps = if current(ts, a5).kind == Kind::LParen { params_at(ts, a5) } else { Some((Seq::empty(), a5)) };
                match ps {
                    None => None,
                    Some((params, a6)) => {
                        let rs = if current(ts, a6).kind == Kind::LParen {
                            return_types_at(ts, a6)
                        } else {
                            Some((Seq::empty(), a6))
                        };
                        match rs {
                            None => None,
                            Some((rets, a7)) => Some(
                                (current(ts, a1).value@, name, params, rets, current(ts, pos).line, a7),
                            ),
                        }
                    },
                }
            },
        }
    }
}

/// Whether declaration `d` carries the header `h`.
pub open spec fn has_header(
    d: ScriptDeclaration,
    h: (Seq<char>, Seq<char>, Seq<(Type, Seq<char>)>, Seq<Type>, usize, int),
) -> bool {
    &&& d.trigger@ == h.0
    &&& d.name@ == h.1
    &&& params_view(d.params@) == h.2
    &&& d.return_types@ == h.3
    &&& d.line == h.4
}

/// Where a declaration starting at `pos` ends when its body is empty: right
/// after the header when the header is followed by the end of file or by the
/// `[` of the next header; after `{` and `}` when an empty braced body
/// follows; after `{` when the file ends there. None when the header is
/// malformed or a statement follows it.
pub open spec fn bare_decl_end(ts: Seq<Token>, pos: int) -> Option<int> {
    match script_header_at(ts, pos) {
        None => None,
        Some(h) => {
            let b = h.5;
            if current(ts, b).kind == Kind::LBrace {
                let c = after_current(ts, b);
                if current(ts, c).kind == Kind::EndOfFile {
                    Some(c)
                } else if current(ts, c).kind == Kind::RBrace {
                    Some(after_current(ts, c))
                } else {
                    None
                }
            } else if current(ts, b).kind == Kind::EndOfFile || current(ts, b).kind == Kind::LBracket {
                Some(b)
            } else {
                None
            }
        },
    }
}

/// The headers of a file, read from `pos`, whose declarations all have empty
/// bodies, in order; none when some declaration is malformed or has a
/// statement in its body.
pub open spec fn bare_file(ts: Seq<Token>, pos: int) -> Option<
    Seq<(Seq<char>, Seq<char>, Seq<(Type, Seq<char>)>, Seq<Type>, usize, int)>,
>
    decreases ts.len() - pos,
{
    if current(ts, pos).kind == Kind::EndOfFile {
        Some(Seq::empty())
    } else {
        match (script_header_at(ts, pos), bare_decl_end(ts, pos)) {
            (Some(h), Some(e)) => if pos < e <= ts.len() {
                match bare_file(ts, e) {
                    Some(rest) => Some(seq![h] + rest),
                    None => None,
                }
            } else {
                None
            },
            _ => None,
        }
    }
}

/// The parameters as types and names.
pub open spec fn params_view(v: Seq<ParamDef>) -> Seq<(Type, Seq<char>)> {
    Seq::new(v.len(), |i: int| (v[i].param_type, v[i].name@))
}

/// Recursive-descent parser over a token sequence.
pub struct Parser {
    tokens: Vec<Token>,
    pos: usize,
    file_path: String,
    is_sub_parser: bool,
    /// Exceeds the length of every string literal's text (interpolated
    /// strings are parsed by sub-parsers over strictly shorter text).
    limit: u128,
}

impl Parser {
    /// The tokens being parsed.
    pub closed spec fn toks(&self) -> Seq<Token> {
        self.tokens@
    }

    /// The index of the next unread token.
    pub closed spec fn offset(&self) -> int {
        self.pos as int
    }

    /// The path reported in errors.
    pub closed spec fn path(&self) -> Seq<char> {
        self.file_path@
    }

    /// The state is consistent: there is a token, the last is the end of
    /// file, the position is inside the tokens.
    pub closed spec fn wf(&self) -> bool {
        &&& self.tokens@.len() > 0
        &&& self.tokens@.last().kind == Kind::EndOfFile
        &&& self.pos <= self.tokens@.len()
        &&& string_bound(self.tokens@, self.limit as int)
    }

    /// `next` is this parser after some tokens were read.
    spec fn later(&self, next: &Parser) -> bool {
        &&& next.wf()
        &&& next.tokens@ == self.tokens@
        &&& next.file_path == self.file_path
        &&& next.is_sub_parser == self.is_sub_parser
        &&& next.limit == self.limit
        &&& self.pos <= next.pos
    }

    spec fn remaining(&self) -> nat {
        (self.tokens@.len() - self.pos) as nat
    }

    spec fn cur(&self) -> Token {
        current(self.tokens@, self.pos as int)
    }

    /// A parser over `tokens`, which end with the end-of-file token.
    pub fn new(tokens: Vec<Token>, file_name: &str) -> (p: Parser)
        requires
            tokens@.len() > 0,
            tokens@.last().kind == Kind::EndOfFile,
        ensures
            p.wf(),
            p.toks() == tokens@,
            p.offset() == 0,
            p.path() == file_name@,
    {
        let mut limit: u128 = 1;
        let mut i: usize = 0;
        while i < tokens.len()
            invariant
                i <= tokens@.len(),
                limit >= 1,
                forall|j: int|
                    0 <= j < i && (#[trigger] tokens@[j]).kind == Kind::StringLiteral ==> tokens@[j].value@.len()
                        < limit,
            decreases tokens@.len() - i,
        {
            if tokens[i].kind == Kind::StringLiteral {
                let n = tokens[i].value.unicode_len() as u128;
                if n >= limit {
                    limit = n + 1;
                }
            }
            i += 1;
        }
        Parser {
            tokens,
            pos: 0,
            file_path: to_owned_string(file_name),
            is_sub_parser: false,
            limit,
        }
    }

    /// The current token (comments skipped).
    fn at(&self) -> (t: &Token)
        requires
            self.wf(),
        ensures
            *t == self.cur(),
    {
        let mut idx = self.pos;
        proof {
            lemma_next_real(self.tokens@, self.pos as int);
        }
        while idx < self.tokens.len()
            invariant
                self.pos <= idx <= self.tokens@.len(),
                next_real(self.tokens@, idx as int) == next_real(self.tokens@, self.pos as int),
            decreases self.tokens@.len() - idx,
        {
            if self.tokens[idx].kind == Kind::SingleLineComment || self.tokens[idx].kind == Kind::MultiLineComment {
                idx += 1;
            } else {
                return &self.tokens[idx];
            }
        }
        let n = self.tokens.len();
        &self.tokens[n - 1]
    }

    fn peek_kind(&self) -> (k: Kind)
        requires
            self.wf(),
        ensures
            k == self.cur().kind,
    {
        self.at().kind
    }

    /// Reads the current token (comments skipped).
    fn next(&mut self) -> (t: Token)
        requires
            old(self).wf(),
        ensures
            old(self).later(final(self)),
            t == old(self).cur(),
            next_real(old(self).tokens@, old(self).pos as int) < old(self).tokens@.len() ==> final(self).pos
                == next_real(old(self).tokens@, old(self).pos as int) + 1,
            old(self).cur().kind != Kind::EndOfFile ==> final(self).pos > old(self).pos,
            final(self).pos == after_current(old(self).tokens@, old(self).pos as int),
    {
        proof {
            lemma_next_real(self.tokens@, self.pos as int);
        }
        let ghost start = *self;
        loop
            invariant
                start.wf(),
                start == *old(self),
                self.tokens@ == start.tokens@,
                self.file_path == start.file_path,
                self.is_sub_parser == start.is_sub_parser,
                self.limit == start.limit,
                start.pos <= self.pos <= self.tokens@.len(),
                next_real(self.tokens@, self.pos as int) == next_real(start.tokens@, start.pos as int),
            decreases self.tokens@.len() - self.pos,
        {
            if self.pos >= self.tokens.len() {
                let n = self.tokens.len();
                return self.tokens[n - 1].clone();
            }
            let tok = self.tokens[self.pos].clone();
            self.pos = self.pos + 1;
            if tok.kind != Kind::SingleLineComment && tok.kind != Kind::MultiLineComment {
                return tok;
            }
        }
    }

    fn error_at(&self, tok: &Token, message: String) -> (e: SyntaxError)
        ensures
            e.path == self.file_path,
            e.message == message,
            e.line == tok.line,
            e.position == tok.column,
    {
        SyntaxError::from_token(self.file_path.clone(), tok, message)
    }

    /// Reads a token of kind `kind`, or fails at the current token.
    fn expect(&mut self, kind: Kind) -> (r: Result<Token, SyntaxError>)
        requires
            old(self).wf(),
        ensures
            old(self).later(final(self)),
            r matches Ok(t) ==> t.kind == kind && t == old(self).cur(),
            r is Ok && kind != Kind::EndOfFile ==> final(self).pos > old(self).pos,
            r is Err ==> old(self).cur().kind != kind,
            r matches Err(e) ==> e.path == old(self).file_path,
            r is Ok <==> old(self).cur().kind == kind,
            r is Ok ==> final(self).pos == after_current(old(self).tokens@, old(self).pos as int),
            r matches Err(e) ==> e.line == old(self).cur().line && e.position == old(self).cur().column
                && e.message@ == expected_message(kind, old(self).cur()),
    {
        let tok = self.at().clone();
        if tok.kind != kind {
            let mut m = to_owned_string("Expected ");
            push_str(&mut m, kind.name());
            push_str(&mut m, ", got ");
            push_str(&mut m, tok.kind.name());
            push_str(&mut m, " '");
            push_str(&mut m, tok.value.as_str());
            push_str(&mut m, "'");
            return Err(self.error_at(&tok, m));
        }
        Ok(self.next())
    }

    fn is_eof(&self) -> (b: bool)
        requires
            self.wf(),
        ensures
            b == (self.cur().kind == Kind::EndOfFile),
    {
        self.peek_kind() == Kind::EndOfFile
    }

    fn line(&self) -> (l: usize)
        requires
            self.wf(),
        ensures
            l == self.cur().line,
    {
        self.at().line
    }

    /// The kind of the `n`th non-comment token from the current position
    /// (0 is the current one); the end of file past the last token.
    fn peek_kind_ahead(&self, n: usize) -> (k: Kind)
        requires
            self.wf(),
        ensures
            k == kind_ahead(self.tokens@, self.pos as int, n as nat),
    {
        let mut idx = self.pos;
        let mut count: usize = 0;
        while idx < self.tokens.len()
            invariant
                self.pos <= idx <= self.tokens@.len(),
                count <= n,
                kind_ahead(self.tokens@, idx as int, (n - count) as nat) == kind_ahead(
                    self.tokens@,
                    self.pos as int,
                    n as nat,
                ),
            decreases self.tokens@.len() - idx,
        {
            let k = self.tokens[idx].kind;
            if k != Kind::SingleLineComment && k != Kind::MultiLineComment {
                if count == n {
                    return k;
                }
                count += 1;
            }
            idx += 1;
        }
        Kind::EndOfFile
    }
}

/// The packed value of a coordinate literal `level_bx_bz_lx_lz`:
/// `(level << 28) | ((bx * 64 + lx) << 14) | (bz * 64 + lz)` in 32-bit arithmetic.
pub open spec fn pack_coord(level: i32, bx: i32, bz: i32, lx: i32, lz: i32) -> i32 {
    let x = (bx * 64 + lx) as i32;
    let z = (bz * 64 + lz) as i32;
    ((level << 28u32) | (x << 14u32)) | z
}

/// The `i32` that field `k` of `t` split at `_` denotes, or 0 when it is not one.
pub open spec fn coord_field(t: Seq<char>, k: int) -> i32 {
    match crate::strings::decimal_value(crate::strings::field(t, '_', k)) {
        Some(x) => if i32::MIN <= x <= i32::MAX { x as i32 } else { 0i32 },
        None => 0i32,
    }
}

fn field_i32(v: &Vec<char>, p: &Vec<usize>, k: usize) -> (r: i32)
    requires
        p@.map_values(|x: usize| x as int) == crate::strings::char_positions(v@, '_'),
        k <= p@.len(),
    ensures
        r == coord_field(v@, k as int),
{
    let f = crate::strings::field_of(v, '_', p, k);
    match parse_decimal(&f, i32::MIN as i64, i32::MAX as i64) {
        Some(x) => x as i32,
        None => 0,
    }
}

/// The value of coordinate-literal text: the packed coordinate when it has
/// exactly five `_`-separated fields (each read as an `i32`, 0 where it is
/// not one), else 0.
pub fn coord_value(text: &str) -> (r: i32)
    ensures
        r == (if crate::strings::char_positions(text@, '_').len() == 4 {
            pack_coord(
                coord_field(text@, 0),
                coord_field(text@, 1),
                coord_field(text@, 2),
                coord_field(text@, 3),
                coord_field(text@, 4),
            )
        } else {
            0i32
        }),
{
    let v = chars_of(text);
    let p = crate::strings::positions_of(&v, '_');
    if p.len() != 4 {
        return 0;
    }
    let level = field_i32(&v, &p, 0);
    let bx = field_i32(&v, &p, 1);
    let bz = field_i32(&v, &p, 2);
    let lx = field_i32(&v, &p, 3);
    let lz = field_i32(&v, &p, 4);
    let x = (bx as i64 * 64 + lx as i64) as i32;
    let z = (bz as i64 * 64 + lz as i64) as i32;
    ((level << 28u32) | (x << 14u32)) | z
}

/// Whether every character is an ASCII letter, digit or underscore.
fn all_word_chars(v: &Vec<char>, from: usize) -> (r: bool)
    requires
        from <= v@.len(),
    ensures
        r == forall|i: int| from <= i < v@.len() ==> word_char(#[trigger] v@[i]),
{
    let mut i = from;
    while i < v.len()
        invariant
            from <= i <= v@.len(),
            forall|k: int| from <= k < i ==> word_char(#[trigger] v@[k]),
        decreases v@.len() - i,
    {
        let c = v[i];
        if !(('a' <= c && c <= 'z') || ('A' <= c && c <= 'Z') || ('0' <= c && c <= '9') || c == '_') {
            return false;
        }
        i += 1;
    }
    true
}

/// An ASCII letter, digit or underscore.
pub open spec fn word_char(c: char) -> bool {
    ('a' <= c <= 'z') || ('A' <= c <= 'Z') || ('0' <= c <= '9') || c == '_'
}

/// Whether the text inside `<...>` of a string is code rather than a
/// formatting tag: it starts with `$`, `%`, `^` or `~`, contains `(`, or is
/// a plain (optionally `.`-prefixed) identifier.
pub open spec fn is_code_tag(t: Seq<char>) -> bool {
    let start: int = if t.len() > 0 && t[0] == '.' { 1 } else { 0 };
    (t.len() > 0 && (t[0] == '$' || t[0] == '%' || t[0] == '^' || t[0] == '~')) || t.contains('(')
        || (t.len() > start && forall|i: int| start <= i < t.len() ==> word_char(#[trigger] t[i]))
}

fn code_tag(v: &Vec<char>) -> (r: bool)
    ensures
        r == is_code_tag(v@),
{
    if v.len() > 0 && (v[0] == '$' || v[0] == '%' || v[0] == '^' || v[0] == '~') {
        return true;
    }
    if crate::strings::chars_contain(v, '(') {
        return true;
    }
    let start: usize = if v.len() > 0 && v[0] == '.' { 1 } else { 0 };
    v.len() > start && all_word_chars(v, start)
}

fn is_compound_kind(k: Kind) -> (r: bool)
    ensures
        r == (k == Kind::Identifier || k == Kind::Number || k == Kind::Trigger || k == Kind::Command),
{
    k == Kind::Identifier || k == Kind::Number || k == Kind::Trigger || k == Kind::Command
}

impl Parser {
    /// Parses an expression.
    fn parse_expression(&mut self) -> (r: Result<Expr, SyntaxError>)
        requires
            old(self).wf(),
        ensures
            old(self).later(final(self)),
            r is Ok ==> final(self).pos > old(self).pos,
            r matches Err(e) ==> e.path == old(self).file_path,
            r matches Ok(Expr::LogicalOp { op, .. }) ==> logic_read(
                final(self).tokens@,
                old(self).pos as int,
                final(self).pos as int,
                op,
            ),
            r matches Ok(Expr::BinaryOp { op, .. }) ==> (is_comparison(op) ==> comparison_read(
                final(self).tokens@,
                old(self).pos as int,
                final(self).pos as int,
                op,
            )),
        decreases old(self).limit, old(self).remaining(), 6nat,
    {
        self.parse_logical_or()
    }

    fn parse_logical_or(&mut self) -> (r: Result<Expr, SyntaxError>)
        requires
            old(self).wf(),
        ensures
            old(self).later(final(self)),
            r is Ok ==> final(self).pos > old(self).pos,
            r matches Err(e) ==> e.path == old(self).file_path,
            r matches Ok(Expr::LogicalOp { op, .. }) ==> logic_read(
                final(self).tokens@,
                old(self).pos as int,
                final(self).pos as int,
                op,
            ),
            r matches Ok(Expr::BinaryOp { op, .. }) ==> (is_comparison(op) ==> comparison_read(
                final(self).tokens@,
                old(self).pos as int,
                final(self).pos as int,
                op,
            )),
        decreases old(self).limit, old(self).remaining(), 5nat,
    {
        let mut left = self.parse_logical_and()?;
        while self.peek_kind() == Kind::LogicalOr
            invariant
                old(self).later(self),
                self.pos > old(self).pos,
                left matches Expr::LogicalOp { op, .. } ==> logic_read(
                    self.tokens@,
                    old(self).pos as int,
                    self.pos as int,
                    op,
                ),
                left matches Expr::BinaryOp { op, .. } ==> (is_comparison(op) ==> comparison_read(
                    self.tokens@,
                    old(self).pos as int,
                    self.pos as int,
                    op,
                )),
            decreases self.remaining(),
        {
            let ghost at: int = next_real(self.tokens@, self.pos as int);
            proof {
                lemma_next_real(self.tokens@, self.pos as int);
            }
            self.next();
            let rhs_line = self.line();
            let right = self.parse_logical_and()?;
            left = Expr::LogicalOp { op: LogicOp::Or, lhs: Box::new(left), rhs: Box::new(right), rhs_line };
            proof {
                assert(self.tokens@[at].kind == Kind::LogicalOr);
                assert(reads_kind(self.tokens@, old(self).pos as int, self.pos as int, Kind::LogicalOr));
            }
        }
        Ok(left)
    }

    fn parse_logical_and(&mut self) -> (r: Result<Expr, SyntaxError>)
        requires
            old(self).wf(),
        ensures
            old(self).later(final(self)),
            r is Ok ==> final(self).pos > old(self).pos,
            r matches Err(e) ==> e.path == old(self).file_path,
            r matches Ok(Expr::LogicalOp { op, .. }) ==> op == LogicOp::And || closes_paren(
                final(self).tokens@,
                final(self).pos as int,
            ),
            r is Ok ==> current(final(self).tokens@, final(self).pos as int).kind != Kind::LogicalAnd,
            r matches Ok(Expr::LogicalOp { op, .. }) ==> logic_read(
                final(self).tokens@,
                old(self).pos as int,
                final(self).pos as int,
                op,
            ),
            r matches Ok(Expr::BinaryOp { op, .. }) ==> (is_comparison(op) ==> comparison_read(
                final(self).tokens@,
                old(self).pos as int,
                final(self).pos as int,
                op,
            )),
        decreases old(self).limit, old(self).remaining(), 4nat,
    {
        let mut left = self.parse_comparison()?;
        while self.peek_kind() == Kind::LogicalAnd
            invariant
                old(self).later(self),
                self.pos > old(self).pos,
                left matches Expr::LogicalOp { op, .. } ==> op == LogicOp::And || closes_paren(
                    self.tokens@,
                    self.pos as int,
                ),
                left matches Expr::LogicalOp { op, .. } ==> logic_read(
                    self.tokens@,
                    old(self).pos as int,
                    self.pos as int,
                    op,
                ),
                left matches Expr::BinaryOp { op, .. } ==> (is_comparison(op) ==> comparison_read(
                    self.tokens@,
                    old(self).pos as int,
                    self.pos as int,
                    op,
                )),
            decreases self.remaining(),
        {
            let ghost at: int = next_real(self.tokens@, self.pos as int);
            proof {
                lemma_next_real(self.tokens@, self.pos as int);
            }
            self.next();
            let rhs_line = self.line();
            let right = self.parse_comparison()?;
            left = Expr::LogicalOp { op: LogicOp::And, lhs: Box::new(left), rhs: Box::new(right), rhs_line };
            proof {
                assert(self.tokens@[at].kind == Kind::LogicalAnd);
                assert(reads_kind(self.tokens@, old(self).pos as int, self.pos as int, Kind::LogicalAnd));
            }
        }
        Ok(left)
    }

    fn parse_comparison(&mut self) -> (r: Result<Expr, SyntaxError>)
        requires
            old(self).wf(),
        ensures
            old(self).later(final(self)),
            r is Ok ==> final(self).pos > old(self).pos,
            r matches Err(e) ==> e.path == old(self).file_path,
            r matches Ok(Expr::LogicalOp { .. }) ==> closes_paren(final(self).tokens@, final(self).pos as int),
            r matches Ok(Expr::BinaryOp { op, .. }) ==> (is_comparison(op) ==> comparison_read(
                final(self).tokens@,
                old(self).pos as int,
                final(self).pos as int,
                op,
            )),
        decreases old(self).limit, old(self).remaining(), 3nat,
    {
        let left = self.parse_additive()?;
        let k = self.peek_kind();
        let ghost at: int = next_real(self.tokens@, self.pos as int);
        proof {
            lemma_next_real(self.tokens@, self.pos as int);
        }
        if k == Kind::ComparisonOperator {
            let tok = self.next();
            let op = if str_eq(tok.value.as_str(), "<") {
                BinOp::Lt
            } else if str_eq(tok.value.as_str(), ">") {
                BinOp::Gt
            } else if str_eq(tok.value.as_str(), "<=") {
                BinOp::LtEq
            } else {
                BinOp::GtEq
            };
            let right = self.parse_additive()?;
            proof {
                assert(self.tokens@[at] == tok);
                assert(writes_comparison(self.tokens@[at], op));
            }
            return Ok(Expr::BinaryOp { op, lhs: Box::new(left), rhs: Box::new(right) });
        }
        if k == Kind::Equals {
            self.next();
            let right = self.parse_additive()?;
            proof {
                assert(writes_comparison(self.tokens@[at], BinOp::Eq));
            }
            return Ok(Expr::BinaryOp { op: BinOp::Eq, lhs: Box::new(left), rhs: Box::new(right) });
        }
        if k == Kind::Not {
            self.next();
            if self.peek_kind() == Kind::Equals {
                self.next();
            }
            let right = self.parse_additive()?;
            proof {
                assert(writes_comparison(self.tokens@[at], BinOp::NotEq));
            }
            return Ok(Expr::BinaryOp { op: BinOp::NotEq, lhs: Box::new(left), rhs: Box::new(right) });
        }
        Ok(left)
    }

    fn parse_additive(&mut self) -> (r: Result<Expr, SyntaxError>)
        requires
            old(self).wf(),
        ensures
            old(self).later(final(self)),
            r is Ok ==> final(self).pos > old(self).pos,
            r matches Err(e) ==> e.path == old(self).file_path,
            r matches Ok(Expr::LogicalOp { .. }) ==> closes_paren(final(self).tokens@, final(self).pos as int),
            r matches Ok(Expr::BinaryOp { op, .. }) && is_comparison(op) ==> closes_paren(
                final(self).tokens@,
                final(self).pos as int,
            ),
        decreases old(self).limit, old(self).remaining(), 2nat,
    {
        let mut left = self.parse_multiplicative()?;
        while self.peek_kind() == Kind::BinaryOperator
            invariant
                old(self).later(self),
                self.pos > old(self).pos,
                left matches Expr::LogicalOp { .. } ==> closes_paren(self.tokens@, self.pos as int),
                left matches Expr::BinaryOp { op, .. } && is_comparison(op) ==> closes_paren(
                    self.tokens@,
                    self.pos as int,
                ),
            decreases self.remaining(),
        {
            let plus = str_eq(self.at().value.as_str(), "+");
            let minus = str_eq(self.at().value.as_str(), "-");
            if !plus && !minus {
                break;
            }
            self.next();
            let op = if plus { BinOp::Add } else { BinOp::Sub };
            let right = self.parse_multiplicative()?;
            left = Expr::BinaryOp { op, lhs: Box::new(left), rhs: Box::new(right) };
        }
        Ok(left)
    }

    fn parse_multiplicative(&mut self) -> (r: Result<Expr, SyntaxError>)
        requires
            old(self).wf(),
        ensures
            old(self).later(final(self)),
            r is Ok ==> final(self).pos > old(self).pos,
            r matches Err(e) ==> e.path == old(self).file_path,
            r matches Ok(Expr::LogicalOp { .. }) ==> closes_paren(final(self).tokens@, final(self).pos as int),
            r matches Ok(Expr::BinaryOp { op, .. }) && is_comparison(op) ==> closes_paren(
                final(self).tokens@,
                final(self).pos as int,
            ),
        decreases old(self).limit, old(self).remaining(), 1nat,
    {
        let mut left = self.parse_primary()?;
        while self.peek_kind() == Kind::BinaryOperator
            invariant
                old(self).later(self),
                self.pos > old(self).pos,
                left matches Expr::LogicalOp { .. } ==> closes_paren(self.tokens@, self.pos as int),
                left matches Expr::BinaryOp { op, .. } && is_comparison(op) ==> closes_paren(
                    self.tokens@,
                    self.pos as int,
                ),
            decreases self.remaining(),
        {
            let op = if str_eq(self.at().value.as_str(), "*") {
                BinOp::Mul
            } else if str_eq(self.at().value.as_str(), "/") {
                BinOp::Div
            } else if str_eq(self.at().value.as_str(), "%") {
                BinOp::Mod
            } else {
                break;
            };
            self.next();
            let right = self.parse_primary()?;
            left = Expr::BinaryOp { op, lhs: Box::new(left), rhs: Box::new(right) };
        }
        Ok(left)
    }

    fn call_line(&self) -> (l: usize)
        requires
            self.wf(),
        ensures
            l == (if self.is_sub_parser { 0 } else { self.cur().line }),
    {
        if self.is_sub_parser {
            0
        } else {
            self.line()
        }
    }

    /// Parses the argument list of a call, starting at its `(`.
    fn parse_call_args(&mut self) -> (r: Result<(Vec<Expr>, Vec<usize>), SyntaxError>)
        requires
            old(self).wf(),
        ensures
            old(self).later(final(self)),
            r is Ok ==> final(self).pos > old(self).pos,
            r matches Ok(v) ==> v.0@.len() == v.1@.len(),
            r matches Err(e) ==> e.path == old(self).file_path,
        decreases old(self).limit, old(self).remaining(), 7nat,
    {
        self.expect(Kind::LParen)?;
        let mut args: Vec<Expr> = Vec::new();
        let mut arg_lines: Vec<usize> = Vec::new();
        while self.peek_kind() != Kind::RParen
            invariant
                old(self).later(self),
                self.pos > old(self).pos,
                args@.len() == arg_lines@.len(),
            decreases self.remaining(),
        {
            if args.len() > 0 {
                self.expect(Kind::Comma)?;
            }
            let arg_line = self.call_line();
            let expr = self.parse_expression()?;
            let expr = match expr {
                Expr::Identifier(name) => {
                    if self.peek_kind() == Kind::Colon && is_compound_kind(self.peek_kind_ahead(1)) {
                        self.next();
                        let second = self.next();
                        let mut compound = name;
                        push_char(&mut compound, ':');
                        push_str(&mut compound, second.value.as_str());
                        if self.peek_kind() == Kind::LParen {
                            let call_line = self.call_line();
                            let (inner_args, inner_arg_lines) = self.parse_call_args()?;
                            Expr::CommandCall {
                                name: compound,
                                args: inner_args,
                                arg_lines: inner_arg_lines,
                                call_line,
                            }
                        } else {
                            Expr::Identifier(compound)
                        }
                    } else {
                        Expr::Identifier(name)
                    }
                },
                other => other,
            };
            args.push(expr);
            arg_lines.push(arg_line);
        }
        self.expect(Kind::RParen)?;
        Ok((args, arg_lines))
    }

    /// Parses a call's arguments where a `(` follows, and a second argument
    /// group after it (as vararg commands have).
    fn parse_optional_args(&mut self, second_group: bool) -> (r: Result<(Vec<Expr>, Vec<usize>), SyntaxError>)
        requires
            old(self).wf(),
        ensures
            old(self).later(final(self)),
            r matches Err(e) ==> e.path == old(self).file_path,
            old(self).cur().kind != Kind::LParen ==> (r matches Ok(v) && v.0@.len() == 0 && v.1@.len() == 0
                && final(self).pos == old(self).pos),
            old(self).cur().kind == Kind::LParen && r is Ok ==> final(self).pos > old(self).pos,
            r matches Ok(v) ==> v.0@.len() == v.1@.len(),
        decreases old(self).limit, old(self).remaining(), 8nat,
    {
        let (mut args, mut arg_lines) = if self.peek_kind() == Kind::LParen {
            self.parse_call_args()?
        } else {
            (Vec::new(), Vec::new())
        };
        if second_group && self.peek_kind() == Kind::LParen {
            let (mut extra_args, mut extra_lines) = self.parse_call_args()?;
            args.append(&mut extra_args);
            arg_lines.append(&mut extra_lines);
        }
        Ok((args, arg_lines))
    }

    /// Parses a primary expression: a literal, a variable, a call, a
    /// parenthesised expression or a negation.
    fn parse_primary(&mut self) -> (r: Result<Expr, SyntaxError>)
        requires
            old(self).wf(),
        ensures
            old(self).later(final(self)),
            r is Ok ==> final(self).pos > old(self).pos,
            r matches Err(e) ==> e.path == old(self).file_path,
            primary_leaf(old(self).tokens@, old(self).pos as int, r, final(self).pos as int),
            r matches Ok(Expr::LogicalOp { .. }) ==> closes_paren(final(self).tokens@, final(self).pos as int),
            r matches Ok(Expr::BinaryOp { op, .. }) && is_comparison(op) ==> closes_paren(
                final(self).tokens@,
                final(self).pos as int,
            ),
        decreases old(self).limit, old(self).remaining(), 0nat,
    {
        let k = self.peek_kind();
        if k == Kind::Number {
            let tok = self.next();
            let v = chars_of(tok.value.as_str());
            return match parse_decimal(&v, i32::MIN as i64, i32::MAX as i64) {
                Some(x) => Ok(Expr::IntLiteral(x as i32)),
                None => {
                    let mut m = to_owned_string("Invalid integer literal: ");
                    push_str(&mut m, tok.value.as_str());
                    Err(self.error_at(&tok, m))
                },
            };
        }
        if k == Kind::LongLiteral {
            let tok = self.next();
            let v = chars_of(tok.value.as_str());
            return match parse_decimal(&v, i64::MIN, i64::MAX) {
                Some(x) => Ok(Expr::LongLiteral(x)),
                None => {
                    let mut m = to_owned_string("Invalid long literal: ");
                    push_str(&mut m, tok.value.as_str());
                    Err(self.error_at(&tok, m))
                },
            };
        }
        if k == Kind::StringLiteral {
            proof {
                lemma_next_real(self.tokens@, self.pos as int);
            }
            let tok = self.next();
            if contains_char(tok.value.as_str(), '<') && contains_char(tok.value.as_str(), '>') {
                return Ok(self.parse_interpolated_string(tok.value.as_str()));
            }
            return Ok(Expr::StringLiteral(tok.value));
        }
        if k == Kind::CharLiteral {
            let tok = self.next();
            let v = chars_of(tok.value.as_str());
            let ch = if v.len() > 0 { v[0] } else { '\0' };
            return Ok(Expr::CharLiteral(ch));
        }
        if k == Kind::CoordLiteral {
            let tok = self.next();
            return Ok(Expr::CoordLiteral(coord_value(tok.value.as_str())));
        }
        if k == Kind::BooleanTrue {
            self.next();
            return Ok(Expr::BoolLiteral(true));
        }
        if k == Kind::BooleanFalse {
            self.next();
            return Ok(Expr::BoolLiteral(false));
        }
        if k == Kind::Null {
            self.next();
            return Ok(Expr::NullLiteral);
        }
        if k == Kind::LocalVar {
            self.next();
            let name_tok = self.next();
            let name = name_tok.value;
            if self.peek_kind() == Kind::LParen {
                self.expect(Kind::LParen)?;
                let index = self.parse_expression()?;
                self.expect(Kind::RParen)?;
                return Ok(Expr::ArrayAccess { name, index: Box::new(index) });
            }
            return Ok(Expr::LocalVar(name, self.line()));
        }
        if k == Kind::GameVar {
            self.next();
            let name_tok = self.next();
            return Ok(Expr::GameVar(name_tok.value, self.line()));
        }
        if k == Kind::ConstantVar {
            let const_line = self.line();
            self.next();
            let name_tok = self.next();
            return Ok(Expr::ConstantVar(name_tok.value, const_line));
        }
        if k == Kind::Calc {
            self.next();
            self.expect(Kind::LParen)?;
            let expr = self.parse_expression()?;
            self.expect(Kind::RParen)?;
            return Ok(Expr::Calc(Box::new(expr)));
        }
        if k == Kind::ScriptCall || k == Kind::JumpCall {
            let call_line = self.call_line();
            self.next();
            let mut name = String::new();
            if self.peek_kind() == Kind::Dot {
                self.next();
                push_char(&mut name, '.');
            }
            let name_tok = self.next();
            push_str(&mut name, name_tok.value.as_str());
            let (args, arg_lines) = self.parse_optional_args(false)?;
            if k == Kind::ScriptCall {
                return Ok(Expr::ProcCall { name, args, arg_lines, call_line });
            }
            return Ok(Expr::JumpCall { name, args, arg_lines, call_line });
        }
        if k == Kind::Dot {
            proof {
                reveal_strlit(".");
            }
            self.next();
            let k2 = self.peek_kind();
            if k2 == Kind::GameVar || k2 == Kind::LocalVar {
                self.next();
                let name_tok = self.next();
                let mut name = to_owned_string(".");
                push_str(&mut name, name_tok.value.as_str());
                proof {
                    assert(name@ =~= seq!['.'] + name_tok.value@);
                }
                if k2 == Kind::GameVar {
                    return Ok(Expr::GameVar(name, self.line()));
                }
                return Ok(Expr::LocalVar(name, self.line()));
            }
            let call_line = self.call_line();
            let name_tok = self.next();
            let mut name = to_owned_string(".");
            push_str(&mut name, name_tok.value.as_str());
            proof {
                assert(name@[0] == '.');
            }
            if self.peek_kind() == Kind::BinaryOperator && str_eq(self.at().value.as_str(), "*") {
                self.next();
                push_char(&mut name, '*');
            }
            proof {
                assert(name@.len() > 0 && name@[0] == '.');
            }
            let (args, arg_lines) = self.parse_optional_args(true)?;
            return Ok(Expr::CommandCall { name, args, arg_lines, call_line });
        }
        if k == Kind::Identifier || k == Kind::Command || k == Kind::Trigger {
            let tok = self.next();
            let mut name = tok.value;
            let ghost first = name@;
            if self.peek_kind() == Kind::BinaryOperator && str_eq(self.at().value.as_str(), "*") {
                self.next();
                push_char(&mut name, '*');
            }
            proof {
                assert(name@.subrange(0, first.len() as int) =~= first);
            }
            if self.peek_kind() == Kind::LParen {
                let call_line = self.call_line();
                let (args, arg_lines) = self.parse_optional_args(true)?;
                return Ok(Expr::CommandCall { name, args, arg_lines, call_line });
            }
            if self.peek_kind() == Kind::Colon {
                let after_colon = self.peek_kind_ahead(1);
                let after = self.peek_kind_ahead(2);
                if is_compound_kind(after_colon) && (after == Kind::RParen || after == Kind::Comma || after
                    == Kind::Semicolon || after == Kind::RBrace || after == Kind::Colon) {
                    self.next();
                    let part = self.next();
                    let ghost before = name@;
                    push_char(&mut name, ':');
                    push_str(&mut name, part.value.as_str());
                    proof {
                        assert(is_prefix_of(first, before));
                        assert(name@.subrange(0, first.len() as int) =~= before.subrange(0, first.len() as int));
                    }
                    return Ok(Expr::Identifier(name));
                }
            }
            return Ok(Expr::Identifier(name));
        }
        if k == Kind::LParen {
            self.next();
            let expr = self.parse_expression()?;
            self.expect(Kind::RParen)?;
            return Ok(expr);
        }
        if k == Kind::BinaryOperator && str_eq(self.at().value.as_str(), "-") {
            proof {
                reveal_strlit("-");
                assert(current(self.tokens@, self.pos as int).value@ =~= seq!['-']);
            }
            let ghost p_minus = self.pos as int;
            self.next();
            let expr = self.parse_primary()?;
            proof {
                assert(starts_primary(current(self.tokens@, p_minus)));
            }
            return Ok(
                match expr {
                    Expr::IntLiteral(n) => Expr::IntLiteral(if n == i32::MIN { n } else { -n }),
                    Expr::LongLiteral(n) => Expr::LongLiteral(if n == i64::MIN { n } else { -n }),
                    other => Expr::BinaryOp {
                        op: BinOp::Sub,
                        lhs: Box::new(Expr::IntLiteral(0)),
                        rhs: Box::new(other),
                    },
                },
            );
        }
        let tok = self.at().clone();
        let mut m = to_owned_string("Unexpected token: ");
        push_str(&mut m, tok.kind.name());
        push_str(&mut m, " '");
        push_str(&mut m, tok.value.as_str());
        push_str(&mut m, "'");
        Err(self.error_at(&tok, m))
    }

    /// Parses the text inside `<...>` of a string as an expression: a
    /// variable for a `$`, `%` or `^` prefix, else whatever a sub-parser
    /// reads from it, else an identifier of the whole text.
    fn parse_string_embedded_expr(&self, expr_str: &str) -> (e: Expr)
        requires
            self.wf(),
            expr_str@.len() < self.limit,
        ensures
            expr_str@.len() > 0 && expr_str@[0] == '$' ==> (e matches Expr::LocalVar(n, l) && n@ == expr_str@.skip(1)
                && l == 0),
            expr_str@.len() > 0 && expr_str@[0] == '%' ==> (e matches Expr::GameVar(n, l) && n@ == expr_str@.skip(1)
                && l == 0),
            expr_str@.len() > 0 && expr_str@[0] == '^' ==> (e matches Expr::ConstantVar(n, l) && n@
                == expr_str@.skip(1) && l == 0),
        decreases self.limit, self.remaining(), 0nat,
    {
        let v = chars_of(expr_str);
        if v.len() > 0 && v[0] == '$' {
            return Expr::LocalVar(string_from_range(&v, 1, v.len()), 0);
        }
        if v.len() > 0 && v[0] == '%' {
            return Expr::GameVar(string_from_range(&v, 1, v.len()), 0);
        }
        if v.len() > 0 && v[0] == '^' {
            return Expr::ConstantVar(string_from_range(&v, 1, v.len()), 0);
        }
        let bytes = expr_str.as_bytes_vec();
        if bytes.len() < usize::MAX - 8 {
            let mut lexer = Lexer::new(expr_str, self.file_path.as_str());
            if let Ok(tokens) = lexer.tokenize() {
                proof {
                    assert(tokens_ok(tokens@));
                }
                let mut sub = Parser::new(tokens, self.file_path.as_str());
                sub.is_sub_parser = true;
                if sub.limit <= v.len() as u128 {
                    if let Ok(expr) = sub.parse_expression() {
                        return expr;
                    }
                }
            }
        }
        Expr::Identifier(to_owned_string(expr_str))
    }

    /// Splits a string literal's text at its `<...>` tags: code tags become
    /// expressions, formatting tags and the text between stay literal.
    fn parse_interpolated_string(&self, raw: &str) -> (e: Expr)
        requires
            self.wf(),
            raw@.len() < self.limit,
        ensures
            !raw@.contains('<') && raw@.len() > 0 ==> (e matches Expr::StringLiteral(t) && t@ == raw@),
            !raw@.contains('<') && raw@.len() == 0 ==> (e matches Expr::JoinedString { parts } && parts@.len() == 0),
        decreases self.limit, self.remaining(), 1nat,
    {
        let chars = chars_of(raw);
        let mut parts: Vec<StringPart> = Vec::new();
        let mut current: Vec<char> = Vec::new();
        let mut expr_str: Vec<char> = Vec::new();
        let mut depth: i128 = 0;
        let mut in_expr = false;
        let mut i: usize = 0;
        while i < chars.len()
            invariant
                i <= chars@.len(),
                chars@ == raw@,
                self.wf(),
                raw@.len() < self.limit,
                expr_str@.len() <= i,
                -(i as int) <= depth <= i,
                (forall|j: int| 0 <= j < i ==> chars@[j] != '<') ==> (!in_expr && parts@.len() == 0
                    && current@ == chars@.take(i as int)),
            decreases chars@.len() - i,
        {
            let ghost cur0 = current@;
            let ch = chars[i];
            if in_expr {
                if ch == '>' && depth == 0 {
                    in_expr = false;
                    if code_tag(&expr_str) {
                        let text = string_from_chars(&expr_str);
                        let expr = self.parse_string_embedded_expr(text.as_str());
                        parts.push(StringPart::Expr(expr));
                    } else {
                        let mut tag = to_owned_string("<");
                        let text = string_from_chars(&expr_str);
                        push_str(&mut tag, text.as_str());
                        push_char(&mut tag, '>');
                        parts.push(StringPart::Literal(tag));
                    }
                    expr_str = Vec::new();
                } else {
                    if ch == '(' {
                        depth = depth + 1;
                    }
                    if ch == ')' {
                        depth = depth - 1;
                    }
                    expr_str.push(ch);
                }
            } else if ch == '<' {
                if current.len() > 0 {
                    parts.push(StringPart::Literal(string_from_chars(&current)));
                    current = Vec::new();
                }
                in_expr = true;
                depth = 0;
            } else {
                current.push(ch);
                proof {
                    if forall|j: int| 0 <= j < i ==> chars@[j] != '<' {
                        assert(current@ =~= chars@.take(i + 1));
                    }
                }
            }
            i += 1;
        }
        proof {
            if !raw@.contains('<') {
                assert forall|j: int| 0 <= j < chars@.len() implies chars@[j] != '<' by {
                    if chars@[j] == '<' {
                        assert(raw@.contains(raw@[j]));
                    }
                }
                assert(current@ =~= raw@);
            }
        }
        if current.len() > 0 {
            parts.push(StringPart::Literal(string_from_chars(&current)));
        }
        if parts.len() == 1 {
            let part = parts.pop().unwrap();
            return match part {
                StringPart::Literal(s) => Expr::StringLiteral(s),
                StringPart::Expr(e) => e,
            };
        }
        Expr::JoinedString { parts }
    }
}

impl Parser {
    fn skip_semicolon(&mut self)
        requires
            old(self).wf(),
        ensures
            old(self).later(final(self)),
    {
        if self.peek_kind() == Kind::Semicolon {
            self.next();
        }
    }

    /// Parses one statement.
    fn parse_statement(&mut self) -> (r: Result<Statement, SyntaxError>)
        requires
            old(self).wf(),
        ensures
            old(self).later(final(self)),
            r is Ok ==> final(self).pos > old(self).pos,
            r matches Err(e) ==> e.path == old(self).file_path,
        decreases old(self).limit, old(self).remaining(), 4nat,
    {
        let k = self.peek_kind();
        if k == Kind::Semicolon {
            self.next();
            Ok(Statement::Empty)
        } else if k == Kind::Def {
            self.parse_var_declaration()
        } else if k == Kind::If {
            self.parse_if_statement()
        } else if k == Kind::While {
            self.parse_while_statement()
        } else if k == Kind::Switch {
            self.parse_switch_statement()
        } else if k == Kind::Return {
            self.parse_return_statement()
        } else if k == Kind::Case {
            self.parse_orphan_case()
        } else if k == Kind::LocalVar || k == Kind::Dot {
            self.parse_assignment_or_expression()
        } else if k == Kind::GameVar {
            self.parse_game_var_assignment()
        } else {
            self.parse_expression_statement()
        }
    }

    fn parse_var_declaration(&mut self) -> (r: Result<Statement, SyntaxError>)
        requires
            old(self).wf(),
        ensures
            old(self).later(final(self)),
            r is Ok ==> final(self).pos > old(self).pos,
            r matches Err(e) ==> e.path == old(self).file_path,
        decreases old(self).limit, old(self).remaining(), 3nat,
    {
        let line = self.line();
        let def_tok = self.next();
        let var_type = match Type::from_def_str(def_tok.value.as_str()) {
            Some(t) => t,
            None => {
                let mut m = to_owned_string("Unknown type definition: ");
                push_str(&mut m, def_tok.value.as_str());
                return Err(self.error_at(&def_tok, m));
            },
        };
        self.expect(Kind::LocalVar)?;
        let name_tok = self.next();
        let name = name_tok.value;
        if self.peek_kind() == Kind::LParen {
            self.expect(Kind::LParen)?;
            let size = self.parse_expression()?;
            self.expect(Kind::RParen)?;
            self.skip_semicolon();
            return Ok(Statement::ArrayDeclaration { element_type: var_type, name, size, line });
        }
        let value = if self.peek_kind() == Kind::Equals {
            self.next();
            Some(self.parse_expression()?)
        } else {
            None
        };
        self.skip_semicolon();
        Ok(Statement::VarDeclaration { var_type, name, value, line })
    }

    fn parse_if_statement(&mut self) -> (r: Result<Statement, SyntaxError>)
        requires
            old(self).wf(),
        ensures
            old(self).later(final(self)),
            r is Ok ==> final(self).pos > old(self).pos,
            r matches Err(e) ==> e.path == old(self).file_path,
        decreases old(self).limit, old(self).remaining(), 3nat,
    {
        let line = self.line();
        self.expect(Kind::If)?;
        self.expect(Kind::LParen)?;
        let condition = self.parse_expression()?;
        self.expect(Kind::RParen)?;
        let body = self.parse_block_or_stmt()?;
        let mut else_if: Vec<(Expr, Vec<Statement>, usize)> = Vec::new();
        let mut else_body: Option<Vec<Statement>> = None;
        let mut else_line: usize = 0;
        while self.peek_kind() == Kind::Else
            invariant
                old(self).later(self),
                self.pos > old(self).pos,
            decreases self.remaining(),
        {
            let el = self.line();
            self.next();
            if self.peek_kind() == Kind::If {
                self.next();
                self.expect(Kind::LParen)?;
                let cond = self.parse_expression()?;
                self.expect(Kind::RParen)?;
                let b = self.parse_block_or_stmt()?;
                else_if.push((cond, b, el));
            } else {
                else_line = el;
                else_body = Some(self.parse_block_or_stmt()?);
                break;
            }
        }
        Ok(Statement::If { condition, body, else_if, else_body, else_line, line })
    }

    fn parse_while_statement(&mut self) -> (r: Result<Statement, SyntaxError>)
        requires
            old(self).wf(),
        ensures
            old(self).later(final(self)),
            r is Ok ==> final(self).pos > old(self).pos,
            r matches Err(e) ==> e.path == old(self).file_path,
        decreases old(self).limit, old(self).remaining(), 3nat,
    {
        let line = self.line();
        self.expect(Kind::While)?;
        self.expect(Kind::LParen)?;
        let condition = self.parse_expression()?;
        self.expect(Kind::RParen)?;
        let body = self.parse_block_or_stmt()?;
        Ok(Statement::While { condition, body, line })
    }

    fn duplicate_default(&self, tok: &Token) -> (e: SyntaxError)
        ensures
            e.path == self.file_path,
    {
        self.error_at(tok, to_owned_string(msg::SWITCH_DUPLICATE_DEFAULT))
    }

    fn parse_switch_statement(&mut self) -> (r: Result<Statement, SyntaxError>)
        requires
            old(self).wf(),
        ensures
            old(self).later(final(self)),
            r is Ok ==> final(self).pos > old(self).pos,
            r matches Err(e) ==> e.path == old(self).file_path,
        decreases old(self).limit, old(self).remaining(), 3nat,
    {
        let line = self.line();
        let switch_tok = self.next();
        let switch_type = switch_tok.value;
        self.expect(Kind::LParen)?;
        let expr = self.parse_expression()?;
        self.expect(Kind::RParen)?;
        self.expect(Kind::LBrace)?;
        let mut cases: Vec<SwitchCase> = Vec::new();
        let mut default: Option<Vec<Statement>> = None;
        let mut default_index: usize = 0;
        while self.peek_kind() != Kind::RBrace
            invariant
                old(self).later(self),
                self.pos > old(self).pos,
            decreases self.remaining(),
        {
            let ghost iter_pos = self.pos;
            let k = self.peek_kind();
            if k == Kind::Case {
                self.next();
                if self.peek_kind() == Kind::Default {
                    let default_tok = self.next();
                    if default.is_some() {
                        return Err(self.duplicate_default(&default_tok));
                    }
                    self.expect(Kind::Colon)?;
                    default = Some(self.parse_case_body()?);
                    default_index = cases.len();
                    continue;
                }
                let mut values: Vec<Expr> = Vec::new();
                loop
                    invariant
                        old(self).later(self),
                        self.pos > old(self).pos,
                        self.pos > iter_pos,
                    decreases self.remaining(),
                {
                    let val = self.parse_expression()?;
                    let val = match val {
                        Expr::Identifier(name) => {
                            if self.peek_kind() == Kind::Colon && is_compound_kind(self.peek_kind_ahead(1)) && (
                            self.peek_kind_ahead(2) == Kind::Colon || self.peek_kind_ahead(2) == Kind::Comma) {
                                self.next();
                                let part = self.next();
                                let mut n = name;
                                push_char(&mut n, ':');
                                push_str(&mut n, part.value.as_str());
                                Expr::Identifier(n)
                            } else {
                                Expr::Identifier(name)
                            }
                        },
                        other => other,
                    };
                    values.push(val);
                    if self.peek_kind() == Kind::Comma {
                        self.next();
                    } else {
                        break;
                    }
                }
                self.expect(Kind::Colon)?;
                let body = self.parse_case_body()?;
                cases.push(SwitchCase { values, body });
            } else if k == Kind::Default {
                let default_tok = self.next();
                if default.is_some() {
                    return Err(self.duplicate_default(&default_tok));
                }
                self.expect(Kind::Colon)?;
                default = Some(self.parse_case_body()?);
            } else {
                let tok = self.at().clone();
                let mut m = to_owned_string("Expected 'case' or 'default' in switch, got ");
                push_str(&mut m, tok.kind.name());
                return Err(self.error_at(&tok, m));
            }
        }
        self.expect(Kind::RBrace)?;
        Ok(Statement::Switch { switch_type, expr, cases, default, default_index, line })
    }

    /// Parses the statements of a case: a braced block, or statements up to
    /// the next `case`, `default`, `}` or the end of file.
    fn parse_case_body(&mut self) -> (r: Result<Vec<Statement>, SyntaxError>)
        requires
            old(self).wf(),
        ensures
            old(self).later(final(self)),
            r matches Err(e) ==> e.path == old(self).file_path,
            old(self).cur().kind != Kind::LBrace && r is Ok ==> case_boundary(final(self).cur().kind),
            old(self).cur().kind != Kind::LBrace && case_boundary(old(self).cur().kind) ==> (r matches Ok(v)
                && v@.len() == 0 && final(self).pos == old(self).pos),
        decreases old(self).limit, old(self).remaining(), 6nat,
    {
        if self.peek_kind() == Kind::LBrace {
            return self.parse_block();
        }
        let mut stmts: Vec<Statement> = Vec::new();
        while !self.is_eof() && self.peek_kind() != Kind::Case && self.peek_kind() != Kind::Default
            && self.peek_kind() != Kind::RBrace
            invariant
                old(self).later(self),
                old(self).cur().kind != Kind::LBrace && case_boundary(old(self).cur().kind) ==> stmts@.len() == 0
                    && self.pos == old(self).pos,
            decreases self.remaining(),
        {
            stmts.push(self.parse_statement()?);
        }
        Ok(stmts)
    }

    fn parse_orphan_case(&mut self) -> (r: Result<Statement, SyntaxError>)
        requires
            old(self).wf(),
        ensures
            old(self).later(final(self)),
            r is Ok ==> final(self).pos > old(self).pos,
            r matches Err(e) ==> e.path == old(self).file_path,
        decreases old(self).limit, old(self).remaining(), 3nat,
    {
        let line = self.line();
        self.next();
        let mut values: Vec<Expr> = Vec::new();
        if self.peek_kind() == Kind::Default {
            self.next();
        } else {
            values.push(self.parse_expression()?);
            while self.peek_kind() == Kind::Comma
                invariant
                    old(self).later(self),
                    self.pos > old(self).pos,
                decreases self.remaining(),
            {
                self.next();
                values.push(self.parse_expression()?);
            }
        }
        if self.peek_kind() == Kind::Colon {
            self.next();
        }
        let body = self.parse_case_body()?;
        Ok(Statement::OrphanCase { case: SwitchCase { values, body }, line })
    }

    fn parse_return_statement(&mut self) -> (r: Result<Statement, SyntaxError>)
        requires
            old(self).wf(),
        ensures
            old(self).later(final(self)),
            r is Ok ==> final(self).pos > old(self).pos,
            r matches Err(e) ==> e.path == old(self).file_path,
        decreases old(self).limit, old(self).remaining(), 3nat,
    {
        let line = self.line();
        self.expect(Kind::Return)?;
        let mut values: Vec<Expr> = Vec::new();
        if self.peek_kind() == Kind::LParen {
            self.expect(Kind::LParen)?;
            while self.peek_kind() != Kind::RParen
                invariant
                    old(self).later(self),
                    self.pos > old(self).pos,
                decreases self.remaining(),
            {
                if values.len() > 0 {
                    self.expect(Kind::Comma)?;
                }
                values.push(self.parse_expression()?);
            }
            self.expect(Kind::RParen)?;
        }
        self.skip_semicolon();
        Ok(Statement::Return { values, line })
    }

    /// After a first target `expr`: a multi-target assignment
    /// (`a, b = value`), a single assignment (`a = value`) or an expression
    /// statement.
    fn finish_assignment(&mut self, expr: Expr, line: usize) -> (r: Result<Statement, SyntaxError>)
        requires
            old(self).wf(),
        ensures
            old(self).later(final(self)),
            r matches Err(e) ==> e.path == old(self).file_path,
            old(self).cur().kind != Kind::Comma && old(self).cur().kind != Kind::Equals ==> (r matches Ok(
                Statement::Expression { expr: x, line: l },
            ) && x == expr && l == line),
            old(self).cur().kind == Kind::Equals ==> (r matches Ok(Statement::Assignment { target: t, line: l, .. })
                ==> t == expr && l == line),
            old(self).cur().kind == Kind::Equals ==> (r is Ok ==> r->Ok_0 is Assignment),
            old(self).cur().kind == Kind::Comma ==> (r is Ok ==> ((r->Ok_0 matches Statement::Expression {
                expr: x,
                line: l,
            } && x == expr && l == line) || (r->Ok_0 matches Statement::Assignment { target: Expr::MultiAssign(ts, ls), line: l, .. }
                && ts@.len() >= 2 && ts@.len() == ls@.len() && ts@[0] == expr && ls@[0] == line && l == line))),
        decreases old(self).limit, old(self).remaining(), 8nat,
    {
        if self.peek_kind() == Kind::Comma {
            let mut targets: Vec<Expr> = Vec::new();
            targets.push(expr);
            let mut target_lines: Vec<usize> = Vec::new();
            target_lines.push(line);
            while self.peek_kind() == Kind::Comma
                invariant
                    old(self).later(self),
                    targets@.len() >= 1,
                    targets@.len() >= 2 || self.cur().kind == Kind::Comma,
                    old(self).cur().kind == Kind::Comma,
                    targets@.len() == target_lines@.len(),
                    targets@[0] == expr,
                    target_lines@[0] == line,
                decreases self.remaining(),
            {
                self.next();
                let tgt_line = self.line();
                let target = self.parse_primary()?;
                targets.push(target);
                target_lines.push(tgt_line);
            }
            if self.peek_kind() == Kind::Equals {
                self.next();
                let value = self.parse_expression()?;
                self.skip_semicolon();
                return Ok(Statement::Assignment {
                    target: Expr::MultiAssign(targets, target_lines),
                    value,
                    line,
                });
            }
            self.skip_semicolon();
            let first = targets.remove(0);
            return Ok(Statement::Expression { expr: first, line });
        }
        if self.peek_kind() == Kind::Equals {
            self.next();
            let value = self.parse_expression()?;
            self.skip_semicolon();
            return Ok(Statement::Assignment { target: expr, value, line });
        }
        self.skip_semicolon();
        Ok(Statement::Expression { expr, line })
    }

    /// A statement that starts with a local variable or a `.`: an assignment
    /// or an expression statement.
    fn parse_assignment_or_expression(&mut self) -> (r: Result<Statement, SyntaxError>)
        requires
            old(self).wf(),
        ensures
            old(self).later(final(self)),
            r is Ok ==> final(self).pos > old(self).pos,
            r matches Err(e) ==> e.path == old(self).file_path,
        decreases old(self).limit, old(self).remaining(), 3nat,
    {
        let line = self.line();
        let expr = self.parse_primary()?;
        self.finish_assignment(expr, line)
    }

    /// A statement that starts with a game variable: an assignment or an
    /// expression statement.
    fn parse_game_var_assignment(&mut self) -> (r: Result<Statement, SyntaxError>)
        requires
            old(self).wf(),
        ensures
            old(self).later(final(self)),
            r is Ok ==> final(self).pos > old(self).pos,
            r matches Err(e) ==> e.path == old(self).file_path,
        decreases old(self).limit, old(self).remaining(), 3nat,
    {
        let line = self.line();
        let expr = self.parse_primary()?;
        self.finish_assignment(expr, line)
    }

    fn parse_expression_statement(&mut self) -> (r: Result<Statement, SyntaxError>)
        requires
            old(self).wf(),
        ensures
            old(self).later(final(self)),
            r is Ok ==> final(self).pos > old(self).pos,
            r matches Err(e) ==> e.path == old(self).file_path,
        decreases old(self).limit, old(self).remaining(), 3nat,
    {
        let line = self.line();
        let expr = self.parse_expression()?;
        self.finish_assignment(expr, line)
    }

    fn parse_block(&mut self) -> (r: Result<Vec<Statement>, SyntaxError>)
        requires
            old(self).wf(),
        ensures
            old(self).later(final(self)),
            r is Ok ==> final(self).pos > old(self).pos,
            r matches Err(e) ==> e.path == old(self).file_path,
        decreases old(self).limit, old(self).remaining(), 5nat,
    {
        self.expect(Kind::LBrace)?;
        let mut stmts: Vec<Statement> = Vec::new();
        while self.peek_kind() != Kind::RBrace && !self.is_eof()
            invariant
                old(self).later(self),
                self.pos > old(self).pos,
            decreases self.remaining(),
        {
            stmts.push(self.parse_statement()?);
        }
        self.expect(Kind::RBrace)?;
        Ok(stmts)
    }

    /// A braced block, or a single statement as a braceless body.
    fn parse_block_or_stmt(&mut self) -> (r: Result<Vec<Statement>, SyntaxError>)
        requires
            old(self).wf(),
        ensures
            old(self).later(final(self)),
            r is Ok ==> final(self).pos > old(self).pos,
            r matches Err(e) ==> e.path == old(self).file_path,
        decreases old(self).limit, old(self).remaining(), 6nat,
    {
        if self.peek_kind() == Kind::LBrace {
            self.parse_block()
        } else {
            let stmt = self.parse_statement()?;
            let mut v: Vec<Statement> = Vec::new();
            v.push(stmt);
            Ok(v)
        }
    }
}

/// Whether a token of kind `k` may stand as a part of a script name.
pub open spec fn name_part_kind(k: Kind) -> bool {
    k == Kind::Identifier || k == Kind::Trigger || k == Kind::Calc || k == Kind::Command || k
        == Kind::BooleanTrue || k == Kind::BooleanFalse || k == Kind::Null || k == Kind::If || k
        == Kind::While || k == Kind::Else || k == Kind::Switch || k == Kind::Case || k == Kind::Default
        || k == Kind::Return || k == Kind::Def || k == Kind::Number
}

fn is_name_part(k: Kind) -> (r: bool)
    ensures
        r == name_part_kind(k),
{
    k == Kind::Identifier || k == Kind::Trigger || k == Kind::Calc || k == Kind::Command || k
        == Kind::BooleanTrue || k == Kind::BooleanFalse || k == Kind::Null || k == Kind::If || k
        == Kind::While || k == Kind::Else || k == Kind::Switch || k == Kind::Case || k == Kind::Default
        || k == Kind::Return || k == Kind::Def || k == Kind::Number
}

impl Parser {
    /// Parses the whole token sequence as script declarations.
    pub fn parse(&mut self) -> (r: Result<ScriptFile, SyntaxError>)
        requires
            old(self).wf(),
        ensures
            final(self).wf(),
            final(self).toks() == old(self).toks(),
            r is Ok ==> current(final(self).toks(), final(self).offset()).kind == Kind::EndOfFile,
            r matches Err(e) ==> e.path@ == old(self).path(),
            current(old(self).toks(), old(self).offset()).kind == Kind::EndOfFile ==> (r matches Ok(f)
                && f.scripts@.len() == 0),
            current(old(self).toks(), old(self).offset()).kind != Kind::EndOfFile && script_header_at(
                old(self).toks(),
                old(self).offset(),
            ) is None ==> r is Err,
            ({
                let c = current(old(self).toks(), old(self).offset());
                c.kind != Kind::EndOfFile && c.kind != Kind::LBracket ==> (r matches Err(e) && e.line == c.line
                    && e.position == c.column && e.message@ == expected_message(Kind::LBracket, c))
            }),
            current(old(self).toks(), old(self).offset()).kind != Kind::EndOfFile ==> (r matches Ok(f)
                ==> f.scripts@.len() > 0 && (script_header_at(old(self).toks(), old(self).offset()) matches Some(h)
                && has_header(f.scripts@[0], h))),
            bare_file(old(self).toks(), old(self).offset()) matches Some(hs) ==> (r matches Ok(f) && f.scripts@.len()
                == hs.len() && forall|i: int|
                0 <= i < hs.len() ==> has_header(#[trigger] f.scripts@[i], hs[i]) && f.scripts@[i].body@.len() == 0),
    {
        let ghost ts = self.tokens@;
        let ghost p0 = self.pos as int;
        let ghost done: Seq<(Seq<char>, Seq<char>, Seq<(Type, Seq<char>)>, Seq<Type>, usize, int)> = Seq::empty();
        let mut scripts: Vec<ScriptDeclaration> = Vec::new();
        while !self.is_eof()
            invariant
                old(self).later(self),
                ts == self.tokens@,
                p0 == old(self).pos,
                scripts@.len() == 0 ==> self.pos == old(self).pos,
                scripts@.len() > 0 ==> (script_header_at(old(self).tokens@, old(self).pos as int) matches Some(h)
                    && has_header(scripts@[0], h)),
                bare_file(ts, p0) is Some ==> {
                    &&& bare_file(ts, self.pos as int) is Some
                    &&& bare_file(ts, p0)->0 == done + bare_file(ts, self.pos as int)->0
                    &&& scripts@.len() == done.len()
                    &&& forall|i: int|
                        0 <= i < done.len() ==> has_header(#[trigger] scripts@[i], done[i]) && scripts@[i].body@.len()
                            == 0
                },
            decreases self.remaining(),
        {
            let ghost pos_before = self.pos as int;
            let d = self.parse_script_declaration()?;
            proof {
                if bare_file(ts, p0) is Some {
                    let h = script_header_at(ts, pos_before)->0;
                    let rest = bare_file(ts, self.pos as int)->0;
                    assert(bare_file(ts, pos_before)->0 == seq![h] + rest);
                    assert(done + (seq![h] + rest) =~= done.push(h) + rest);
                    done = done.push(h);
                }
            }
            scripts.push(d);
        }
        proof {
            if bare_file(ts, p0) is Some {
                assert(done + Seq::<(Seq<char>, Seq<char>, Seq<(Type, Seq<char>)>, Seq<Type>, usize, int)>::empty() =~= done);
            }
        }
        Ok(ScriptFile { scripts })
    }

    fn parse_script_declaration(&mut self) -> (r: Result<ScriptDeclaration, SyntaxError>)
        requires
            old(self).wf(),
        ensures
            old(self).later(final(self)),
            r is Ok ==> final(self).pos > old(self).pos,
            r matches Err(e) ==> e.path == old(self).file_path,
            script_header_at(old(self).tokens@, old(self).pos as int) is None ==> r is Err,
            r matches Ok(d) ==> script_header_at(old(self).tokens@, old(self).pos as int) matches Some(h) && has_header(d, h),
            bare_decl_end(old(self).tokens@, old(self).pos as int) matches Some(e) ==> (r matches Ok(d) && d.body@.len()
                == 0 && final(self).pos == e),
            old(self).cur().kind != Kind::LBracket ==> (r matches Err(e) && e.line == old(self).cur().line
                && e.position == old(self).cur().column && e.message@ == expected_message(Kind::LBracket, old(self).cur())),
    {
        let ghost ts = self.tokens@;
        let ghost p0 = self.pos as int;
        let line = self.line();
        self.expect(Kind::LBracket)?;
        let trigger_tok = self.next();
        let trigger = trigger_tok.value;
        self.expect(Kind::Comma)?;
        let name = self.parse_script_name()?;
        self.expect(Kind::RBracket)?;
        let params = if self.peek_kind() == Kind::LParen {
            self.parse_param_list()?
        } else {
            Vec::new()
        };
        proof {
            if params@.len() == 0 {
                assert(params_view(params@) =~= Seq::<(Type, Seq<char>)>::empty());
            }
        }
        let return_types = if self.peek_kind() == Kind::LParen {
            self.parse_return_types()?
        } else {
            Vec::new()
        };
        let ghost hdr_end = self.pos as int;
        proof {
            if script_header_at(ts, p0) is Some {
                assert((script_header_at(ts, p0)->0).5 == hdr_end);
            }
        }
        let has_brace = self.peek_kind() == Kind::LBrace;
        if has_brace {
            self.next();
        }
        let ghost body_start = self.pos as int;
        let mut body: Vec<Statement> = Vec::new();
        loop
            invariant_except_break
                bare_decl_end(ts, p0) is Some ==> body@.len() == 0 && self.pos == body_start,
            invariant
                old(self).later(self),
                self.pos > old(self).pos,
                ts == self.tokens@,
                ts == old(self).tokens@,
                p0 == old(self).pos as int,
                current(ts, p0).kind == Kind::LBracket,
                body_start == (if has_brace { after_current(ts, hdr_end) } else { hdr_end }),
                has_brace == (current(ts, hdr_end).kind == Kind::LBrace),
                script_header_at(ts, p0) is Some ==> (script_header_at(ts, p0)->0).5 == hdr_end,
            ensures
                bare_decl_end(ts, p0) matches Some(e) ==> body@.len() == 0 && self.pos == e,
            decreases self.remaining(),
        {
            if self.is_eof() {
                break;
            }
            if has_brace && self.peek_kind() == Kind::RBrace {
                self.next();
                break;
            }
            if !has_brace && self.peek_kind() == Kind::LBracket {
                break;
            }
            proof {
                if bare_decl_end(ts, p0) is Some {
                    assert(self.cur() == current(ts, body_start));
                    assert(false);
                }
            }
            body.push(self.parse_statement()?);
        }
        Ok(ScriptDeclaration { trigger, name, params, return_types, body, line })
    }

    /// Parses a script name: an optional leading `.`, a first part, then
    /// `_`-joined parts, identifiers, `:`-joined parts and `*`/`+` marks.
    fn parse_script_name(&mut self) -> (r: Result<String, SyntaxError>)
        requires
            old(self).wf(),
        ensures
            old(self).later(final(self)),
            r matches Err(e) ==> e.path == old(self).file_path,
            match script_name_at(old(self).tokens@, old(self).pos as int) {
                Some((text, end)) => r matches Ok(n) && n@ == text && final(self).pos == end,
                None => r is Err,
            },
    {
        let ghost ts = self.tokens@;
        let ghost want = script_name_at(ts, self.pos as int);
        let mut name = String::new();
        if self.peek_kind() == Kind::Dot {
            self.next();
            push_char(&mut name, '.');
        }
        proof {
            assert(name@ =~= (if current(ts, old(self).pos as int).kind == Kind::Dot { seq!['.'] } else { Seq::<char>::empty() }));
        }
        let tok = self.next();
        if is_name_part(tok.kind) || tok.kind == Kind::CoordLiteral {
            push_str(&mut name, tok.value.as_str());
        } else if tok.kind == Kind::Underscore {
            push_char(&mut name, '_');
        } else {
            let mut m = to_owned_string("Expected script name, got ");
            push_str(&mut m, tok.kind.name());
            return Err(self.error_at(&tok, m));
        }
        proof {
            assert(want == Some((name@ + name_rest(ts, self.pos as int).0, name_rest(ts, self.pos as int).1)));
        }
        loop
            invariant
                old(self).later(self),
                ts == self.tokens@,
                want == Some((name@ + name_rest(ts, self.pos as int).0, name_rest(ts, self.pos as int).1)),
            ensures
                name_rest(ts, self.pos as int) == (Seq::<char>::empty(), self.pos as int),
            decreases self.remaining(),
        {
            let ghost p0 = self.pos as int;
            let ghost n0 = name@;
            let k = self.peek_kind();
            if k == Kind::Underscore {
                self.next();
                push_char(&mut name, '_');
                if is_name_part(self.peek_kind()) {
                    let t = self.next();
                    push_str(&mut name, t.value.as_str());
                }
            } else if k == Kind::Identifier {
                let t = self.next();
                push_str(&mut name, t.value.as_str());
            } else if k == Kind::Colon {
                self.next();
                push_char(&mut name, ':');
                let part = self.next();
                push_str(&mut name, part.value.as_str());
            } else if k == Kind::BinaryOperator && str_eq(self.at().value.as_str(), "*") {
                self.next();
                push_char(&mut name, '*');
            } else if k == Kind::BinaryOperator && str_eq(self.at().value.as_str(), "+") {
                self.next();
                push_char(&mut name, '+');
            } else {
                proof {
                    assert(name@ + Seq::<char>::empty() =~= name@);
                    assert(name_rest(ts, self.pos as int) == (Seq::<char>::empty(), self.pos as int));
                }
                break;
            }
            proof {
                let r0 = name_rest(ts, p0);
                let r1 = name_rest(ts, self.pos as int);
                assert(n0 + r0.0 =~= name@ + r1.0);
            }
        }
        proof {
            assert(name@ + Seq::<char>::empty() =~= name@);
        }
        Ok(name)
    }

    /// Parses `(type $name, ...)`; each type names a [`Type`].
    fn parse_param_list(&mut self) -> (r: Result<Vec<ParamDef>, SyntaxError>)
        requires
            old(self).wf(),
        ensures
            old(self).later(final(self)),
            r matches Err(e) ==> e.path == old(self).file_path,
            match params_at(old(self).tokens@, old(self).pos as int) {
                Some((items, end)) => r matches Ok(v) && params_view(v@) == items && final(self).pos == end,
                None => r is Err,
            },
    {
        let ghost ts = self.tokens@;
        let ghost want = params_at(ts, self.pos as int);
        self.expect(Kind::LParen)?;
        let mut params: Vec<ParamDef> = Vec::new();
        while self.peek_kind() != Kind::RParen
            invariant
                old(self).later(self),
                ts == self.tokens@,
                want == params_at(ts, old(self).pos as int),
                want == (match params_from(ts, self.pos as int, params@.len() == 0) {
                    Some((rest, end)) => Some((params_view(params@) + rest, end)),
                    None => None,
                }),
            decreases self.remaining(),
        {
            let ghost p0 = self.pos as int;
            let ghost before = params_view(params@);
            proof {
                lemma_next_real(ts, p0);
            }
            if params.len() > 0 {
                self.expect(Kind::Comma)?;
            }
            let type_tok = self.next();
            let param_type = match Type::from_name(type_tok.value.as_str()) {
                Some(t) => t,
                None => {
                    let mut m = to_owned_string("Unknown parameter type: ");
                    push_str(&mut m, type_tok.value.as_str());
                    return Err(self.error_at(&type_tok, m));
                },
            };
            self.expect(Kind::LocalVar)?;
            let name_tok = self.next();
            params.push(ParamDef { param_type, name: name_tok.value });
            proof {
                assert(params_view(params@) =~= before.push((param_type, name_tok.value@)));
                let pr = params_from(ts, self.pos as int, false);
                if pr is Some {
                    assert(params_view(params@) + (pr->0).0 =~= before + (seq![(param_type, name_tok.value@)] + (pr->0).0));
                }
            }
        }
        self.expect(Kind::RParen)?;
        proof {
            assert(params_view(params@) + Seq::<(Type, Seq<char>)>::empty() =~= params_view(params@));
        }
        Ok(params)
    }

    /// Parses `(type, ...)`; each names a [`Type`].
    fn parse_return_types(&mut self) -> (r: Result<Vec<Type>, SyntaxError>)
        requires
            old(self).wf(),
        ensures
            old(self).later(final(self)),
            r matches Err(e) ==> e.path == old(self).file_path,
            match return_types_at(old(self).tokens@, old(self).pos as int) {
                Some((tys, end)) => r matches Ok(v) && v@ == tys && final(self).pos == end,
                None => r is Err,
            },
    {
        let ghost ts = self.tokens@;
        let ghost want = return_types_at(ts, self.pos as int);
        self.expect(Kind::LParen)?;
        let mut types: Vec<Type> = Vec::new();
        while self.peek_kind() != Kind::RParen
            invariant
                old(self).later(self),
                ts == self.tokens@,
                want == return_types_at(ts, old(self).pos as int),
                want == (match return_types_from(ts, self.pos as int, types@.len() == 0) {
                    Some((rest, end)) => Some((types@ + rest, end)),
                    None => None,
                }),
            decreases self.remaining(), if types@.len() == 0 { 1nat } else { 0nat },
        {
            let ghost before = types@;
            proof {
                lemma_next_real(ts, self.pos as int);
            }
            if types.len() > 0 {
                self.expect(Kind::Comma)?;
            }
            let tok = self.next();
            let ty = match Type::from_name(tok.value.as_str()) {
                Some(t) => t,
                None => {
                    let mut m = to_owned_string("Unknown return type: ");
                    push_str(&mut m, tok.value.as_str());
                    return Err(self.error_at(&tok, m));
                },
            };
            types.push(ty);
            proof {
                let pr = return_types_from(ts, self.pos as int, false);
                if pr is Some {
                    assert(types@ + (pr->0).0 =~= before + (seq![ty] + (pr->0).0));
                }
            }
        }
        self.expect(Kind::RParen)?;
        proof {
            assert(types@ + Seq::<Type>::empty() =~= types@);
        }
        Ok(types)
    }
}

} // verus!
