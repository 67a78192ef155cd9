//! The lexer: turns RuneScript source bytes into tokens.
use vstd::prelude::*;
use vstd::string::{StrSliceExecFns, StringSliceAdditionalSpecFns};
use crate::error::LexingError;
use crate::strings::{is_prefix, starts_with, str_eq, str_in_list, string_from_chars, to_owned_string};
use crate::token::{Kind, Token};
use crate::types::{named_type, Type};

verus! {

// ── Byte classes ───────────────────────────────────────────────────────────

/// ASCII whitespace as `u8::is_ascii_whitespace` defines it.
pub open spec fn ws_byte(b: u8) -> bool {
    b == 32 || b == 9 || b == 10 || b == 12 || b == 13
}

pub open spec fn alpha_byte(b: u8) -> bool {
    (65 <= b <= 90) || (97 <= b <= 122)
}

pub open spec fn digit_byte(b: u8) -> bool {
    48 <= b <= 57
}

pub open spec fn ident_byte(b: u8) -> bool {
    alpha_byte(b) || digit_byte(b) || b == 95
}

pub open spec fn hex_byte(b: u8) -> bool {
    digit_byte(b) || (65 <= b <= 70) || (97 <= b <= 102)
}

fn is_ws(b: u8) -> (r: bool)
    ensures
        r == ws_byte(b),
{
    b == 32 || b == 9 || b == 10 || b == 12 || b == 13
}

fn is_alpha(b: u8) -> (r: bool)
    ensures
        r == alpha_byte(b),
{
    (65 <= b && b <= 90) || (97 <= b && b <= 122)
}

fn is_digit(b: u8) -> (r: bool)
    ensures
        r == digit_byte(b),
{
    48 <= b && b <= 57
}

fn is_ident(b: u8) -> (r: bool)
    ensures
        r == ident_byte(b),
{
    is_alpha(b) || is_digit(b) || b == 95
}

fn is_hex(b: u8) -> (r: bool)
    ensures
        r == hex_byte(b),
{
    is_digit(b) || (65 <= b && b <= 70) || (97 <= b && b <= 102)
}

/// The end of the run of bytes from `pos` that satisfy `f`.
pub open spec fn run_end(src: Seq<u8>, pos: int, f: spec_fn(u8) -> bool) -> int
    decreases src.len() - pos,
{
    if 0 <= pos < src.len() && f(src[pos]) {
        run_end(src, pos + 1, f)
    } else {
        pos
    }
}

pub proof fn lemma_run_end(src: Seq<u8>, pos: int, f: spec_fn(u8) -> bool)
    requires
        0 <= pos <= src.len(),
    ensures
        pos <= run_end(src, pos, f) <= src.len(),
        forall|i: int| pos <= i < run_end(src, pos, f) ==> f(#[trigger] src[i]),
        run_end(src, pos, f) < src.len() ==> !f(src[run_end(src, pos, f)]),
    decreases src.len() - pos,
{
    if pos < src.len() && f(src[pos]) {
        lemma_run_end(src, pos + 1, f);
    }
}

/// The text of bytes `src[from..to]`, one character per byte.
pub open spec fn byte_text(src: Seq<u8>, from: int, to: int) -> Seq<char> {
    src.subrange(from, to).map_values(|b: u8| b as char)
}

/// The line and column after the bytes `src[from..to]`, starting at `(line, col)`.
pub open spec fn pos_after(src: Seq<u8>, from: int, to: int, line: int, col: int) -> (int, int)
    decreases to - from,
{
    if to <= from {
        (line, col)
    } else {
        let (l, c) = pos_after(src, from, to - 1, line, col);
        if src[to - 1] == 10u8 {
            (l + 1, 1)
        } else {
            (l, c + 1)
        }
    }
}

/// Whether position `(l1, c1)` comes no later than `(l2, c2)`.
pub open spec fn pos_le(l1: int, c1: int, l2: int, c2: int) -> bool {
    l1 < l2 || (l1 == l2 && c1 <= c2)
}

// ── Identifier classes ─────────────────────────────────────────────────────

/// The words that lex as trigger keywords.
pub open spec fn trigger_words() -> Seq<Seq<char>> {
    seq![
        "proc"@,
        "clientscript"@,
        "label"@,
        "debugproc"@,
        "walktrigger"@,
        "queue"@,
        "timer"@,
        "softtimer"@,
        "ai_queue"@,
        "ai_timer"@,
        "opnpc"@,
        "opnpc1"@,
        "opnpc2"@,
        "opnpc3"@,
        "opnpc4"@,
        "opnpc5"@,
        "opobj"@,
        "opobj1"@,
        "opobj2"@,
        "opobj3"@,
        "opobj4"@,
        "opobj5"@,
        "oploc"@,
        "oploc1"@,
        "oploc2"@,
        "oploc3"@,
        "oploc4"@,
        "oploc5"@,
        "opplayer"@,
        "opplayer1"@,
        "opplayer2"@,
        "opplayer3"@,
        "opplayer4"@,
        "opplayer5"@,
        "opheld"@,
        "opheld1"@,
        "opheld2"@,
        "opheld3"@,
        "opheld4"@,
        "opheld5"@,
        "oplocu"@,
        "opobju"@,
        "opnpcu"@,
        "opplayeru"@,
        "opheldu"@,
        "opnpct"@,
        "oploct"@,
        "opplayert"@,
        "opheldt"@,
        "opobjt"@,
        "apnpc"@,
        "apnpc1"@,
        "apnpc2"@,
        "apnpc3"@,
        "apnpc4"@,
        "apnpc5"@,
        "aploc"@,
        "aploc1"@,
        "aploc2"@,
        "aploc3"@,
        "aploc4"@,
        "aploc5"@,
        "apobj"@,
        "apobj1"@,
        "apobj2"@,
        "apobj3"@,
        "apobj4"@,
        "apobj5"@,
        "applayer"@,
        "applayer1"@,
        "applayer2"@,
        "applayer3"@,
        "applayer4"@,
        "applayer5"@,
        "if_button"@,
        "if_close"@,
        "login"@,
        "logout"@,
        "inv_button1"@,
        "inv_button2"@,
        "inv_button3"@,
        "inv_button4"@,
        "inv_button5"@,
        "inv_button6"@,
        "inv_button7"@,
        "inv_button8"@,
        "inv_button9"@,
        "inv_button10"@,
        "inv_buttond"@,
        "mapzone"@,
        "maplength"@,
        "mapenter"@
    ]
}

/// The kind of an identifier-shaped word: a trigger keyword, a statement or
/// literal keyword, a `switch_*` word, a `def_*` word naming a type, or a
/// plain identifier.
pub open spec fn classify(s: Seq<char>) -> Kind {
    if trigger_words().contains(s) {
        Kind::Trigger
    } else if s == "if"@ {
        Kind::If
    } else if s == "else"@ {
        Kind::Else
    } else if s == "while"@ {
        Kind::While
    } else if s == "return"@ {
        Kind::Return
    } else if s == "calc"@ {
        Kind::Calc
    } else if s == "null"@ {
        Kind::Null
    } else if s == "true"@ {
        Kind::BooleanTrue
    } else if s == "false"@ {
        Kind::BooleanFalse
    } else if s == "case"@ {
        Kind::Case
    } else if s == "default"@ {
        Kind::Default
    } else if is_prefix("switch_"@, s) {
        Kind::Switch
    } else if is_prefix("def_"@, s) {
        if named_type(s.skip(4)) is Some {
            Kind::Def
        } else {
            Kind::Identifier
        }
    } else {
        Kind::Identifier
    }
}

fn is_trigger_word(s: &str) -> (r: bool)
    ensures
        r == trigger_words().contains(s@),
{
    let words = vec![
        "proc",
        "clientscript",
        "label",
        "debugproc",
        "walktrigger",
        "queue",
        "timer",
        "softtimer",
        "ai_queue",
        "ai_timer",
        "opnpc",
        "opnpc1",
        "opnpc2",
        "opnpc3",
        "opnpc4",
        "opnpc5",
        "opobj",
        "opobj1",
        "opobj2",
        "opobj3",
        "opobj4",
        "opobj5",
        "oploc",
        "oploc1",
        "oploc2",
        "oploc3",
        "oploc4",
        "oploc5",
        "opplayer",
        "opplayer1",
        "opplayer2",
        "opplayer3",
        "opplayer4",
        "opplayer5",
        "opheld",
        "opheld1",
        "opheld2",
        "opheld3",
        "opheld4",
        "opheld5",
        "oplocu",
        "opobju",
        "opnpcu",
        "opplayeru",
        "opheldu",
        "opnpct",
        "oploct",
        "opplayert",
        "opheldt",
        "opobjt",
        "apnpc",
        "apnpc1",
        "apnpc2",
        "apnpc3",
        "apnpc4",
        "apnpc5",
        "aploc",
        "aploc1",
        "aploc2",
        "aploc3",
        "aploc4",
        "aploc5",
        "apobj",
        "apobj1",
        "apobj2",
        "apobj3",
        "apobj4",
        "apobj5",
        "applayer",
        "applayer1",
        "applayer2",
        "applayer3",
        "applayer4",
        "applayer5",
        "if_button",
        "if_close",
        "login",
        "logout",
        "inv_button1",
        "inv_button2",
        "inv_button3",
        "inv_button4",
        "inv_button5",
        "inv_button6",
        "inv_button7",
        "inv_button8",
        "inv_button9",
        "inv_button10",
        "inv_buttond",
        "mapzone",
        "maplength",
        "mapenter"
    ];
    let r = str_in_list(&words, s);
    proof {
        assert(words@.map_values(|w: &'static str| w@) =~= trigger_words());
    }
    r
}

/// The token kind of an identifier-shaped word (see [`classify`]).
pub fn classify_identifier(ident: &str) -> (k: Kind)
    ensures
        k == classify(ident@),
{
    if is_trigger_word(ident) {
        Kind::Trigger
    } else if str_eq(ident, "if") {
        Kind::If
    } else if str_eq(ident, "else") {
        Kind::Else
    } else if str_eq(ident, "while") {
        Kind::While
    } else if str_eq(ident, "return") {
        Kind::Return
    } else if str_eq(ident, "calc") {
        Kind::Calc
    } else if str_eq(ident, "null") {
        Kind::Null
    } else if str_eq(ident, "true") {
        Kind::BooleanTrue
    } else if str_eq(ident, "false") {
        Kind::BooleanFalse
    } else if str_eq(ident, "case") {
        Kind::Case
    } else if str_eq(ident, "default") {
        Kind::Default
    } else if starts_with(ident, "switch_") {
        Kind::Switch
    } else if starts_with(ident, "def_") {
        if Type::from_def_str(ident).is_some() {
            Kind::Def
        } else {
            Kind::Identifier
        }
    } else {
        Kind::Identifier
    }
}

// ── Decoding ───────────────────────────────────────────────────────────────

/// The text `String::from_utf8_lossy` makes of the bytes `b`.
pub uninterp spec fn utf8_lossy(b: Seq<u8>) -> Seq<char>;

/// The text `std::str::from_utf8` decodes from the bytes `b`, or `None` when
/// they are not valid UTF-8.
pub open spec fn utf8_decoded(b: Seq<u8>) -> Option<Seq<char>> {
    if vstd::utf8::valid_utf8(b) {
        Some(vstd::utf8::decode_utf8(b))
    } else {
        None
    }
}

/// `String::from_utf8_lossy`: valid UTF-8 is decoded as it stands; what it
/// makes of invalid sequences (replacement characters) is left to the name.
#[verifier::external_body]
fn lossy_text(b: &Vec<u8>) -> (r: String)
    ensures
        r@ == utf8_lossy(b@),
        vstd::utf8::valid_utf8(b@) ==> r@ == vstd::utf8::decode_utf8(b@),
{
    String::from_utf8_lossy(b.as_slice()).into_owned()
}

/// `std::str::from_utf8`, with the error mapped to `None`.
#[verifier::external_body]
fn decode_utf8(b: &Vec<u8>) -> (r: Option<String>)
    ensures
        match r {
            Some(s) => utf8_decoded(b@) == Some(s@),
            None => utf8_decoded(b@) is None,
        },
{
    match std::str::from_utf8(b.as_slice()) {
        Ok(s) => Some(s.to_string()),
        Err(_) => None,
    }
}

/// The line and column after one byte `b` read at `(line, col)`.
pub open spec fn step(b: u8, line: int, col: int) -> (int, int) {
    if b == 10u8 {
        (line + 1, 1)
    } else {
        (line, col + 1)
    }
}

proof fn lemma_pos_after_mono(src: Seq<u8>, from: int, to: int, line: int, col: int)
    requires
        from <= to,
    ensures
        pos_le(line, col, pos_after(src, from, to, line, col).0, pos_after(src, from, to, line, col).1),
        pos_after(src, from, to, line, col).0 >= line,
        col >= 1 ==> pos_after(src, from, to, line, col).1 >= 1,
    decreases to - from,
{
    if to > from {
        lemma_pos_after_mono(src, from, to - 1, line, col);
    }
}

/// The lexer's state over the source bytes.
pub struct Lexer {
    source: Vec<u8>,
    file_name: String,
    pos: usize,
    line: usize,
    col: usize,
}

impl Lexer {
    /// The source bytes.
    pub closed spec fn src(&self) -> Seq<u8> {
        self.source@
    }

    /// The offset of the next byte.
    pub closed spec fn offset(&self) -> int {
        self.pos as int
    }

    /// The line of the next byte.
    pub closed spec fn cur_line(&self) -> int {
        self.line as int
    }

    /// The column of the next byte.
    pub closed spec fn cur_col(&self) -> int {
        self.col as int
    }

    /// The file name reported in errors.
    pub closed spec fn path(&self) -> Seq<char> {
        self.file_name@
    }

    /// The state is consistent: the position is inside the source and line
    /// and column count no more than the bytes read.
    pub closed spec fn wf(&self) -> bool {
        &&& self.pos <= self.source@.len()
        &&& self.source@.len() + 4 < usize::MAX
        &&& 1 <= self.line
        &&& 1 <= self.col
        &&& self.line + self.col <= self.pos + 2
    }

    /// A lexer at the start of `input`.
    pub fn new(input: &str, file_name: &str) -> (l: Lexer)
        requires
            input.spec_bytes().len() + 4 < usize::MAX,
        ensures
            l.wf(),
            l.src() == input.spec_bytes(),
            l.offset() == 0,
            l.cur_line() == 1,
            l.cur_col() == 1,
            l.path() == file_name@,
    {
        Lexer {
            source: input.as_bytes_vec(),
            file_name: to_owned_string(file_name),
            pos: 0,
            line: 1,
            col: 1,
        }
    }

    fn peek(&self) -> (r: Option<u8>)
        ensures
            r == (if self.pos < self.source@.len() {
                Some(self.source@[self.pos as int])
            } else {
                None
            }),
    {
        if self.pos < self.source.len() {
            Some(self.source[self.pos])
        } else {
            None
        }
    }

    fn peek_ahead(&self, offset: usize) -> (r: Option<u8>)
        requires
            self.wf(),
            offset <= 2,
        ensures
            r == (if self.pos + offset < self.source@.len() {
                Some(self.source@[self.pos + offset])
            } else {
                None
            }),
    {
        if self.pos + offset < self.source.len() {
            Some(self.source[self.pos + offset])
        } else {
            None
        }
    }

    fn advance(&mut self) -> (r: Option<u8>)
        requires
            old(self).wf(),
        ensures
            final(self).wf(),
            final(self).source@ == old(self).source@,
            final(self).file_name == old(self).file_name,
            old(self).pos < old(self).source@.len() ==> {
                &&& r == Some(old(self).source@[old(self).pos as int])
                &&& final(self).pos == old(self).pos + 1
                &&& (final(self).line as int, final(self).col as int) == step(
                    old(self).source@[old(self).pos as int],
                    old(self).line as int,
                    old(self).col as int,
                )
            },
            old(self).pos >= old(self).source@.len() ==> r is None && *final(self) == *old(self),
    {
        if self.pos >= self.source.len() {
            return None;
        }
        let ch = self.source[self.pos];
        self.pos = self.pos + 1;
        if ch == 10 {
            self.line = self.line + 1;
            self.col = 1;
        } else {
            self.col = self.col + 1;
        }
        Some(ch)
    }
}

proof fn lemma_run_end_at(src: Seq<u8>, a: int, p: int, f: spec_fn(u8) -> bool)
    requires
        0 <= a <= p <= src.len(),
        forall|i: int| a <= i < p ==> f(#[trigger] src[i]),
        p == src.len() || !f(src[p]),
    ensures
        run_end(src, a, f) == p,
    decreases p - a,
{
    if a < p {
        lemma_run_end_at(src, a + 1, p, f);
    }
}

/// Whether a token of kind `k` always has the same text, and which.
pub open spec fn fixed_text(k: Kind) -> Option<Seq<char>> {
    match k {
        Kind::LBracket => Some("["@),
        Kind::RBracket => Some("]"@),
        Kind::LParen => Some("("@),
        Kind::RParen => Some(")"@),
        Kind::LBrace => Some("{"@),
        Kind::RBrace => Some("}"@),
        Kind::Semicolon => Some(";"@),
        Kind::Comma => Some(","@),
        Kind::Colon => Some(":"@),
        Kind::Equals => Some("="@),
        Kind::LogicalAnd => Some("&"@),
        Kind::LogicalOr => Some("|"@),
        Kind::Not => Some("!"@),
        Kind::Underscore => Some("_"@),
        Kind::Dot => Some("."@),
        Kind::ScriptCall => Some("~"@),
        Kind::JumpCall => Some("@"@),
        Kind::Hash => Some("#"@),
        Kind::LocalVar => Some("$"@),
        Kind::GameVar => Some("%"@),
        Kind::ConstantVar => Some("^"@),
        Kind::EndOfFile => Some("EOF"@),
        _ => None,
    }
}

/// Whether `k` is a keyword kind, given to a word by [`classify`].
pub open spec fn keyword_kind(k: Kind) -> bool {
    k == Kind::Trigger || k == Kind::If || k == Kind::Else || k == Kind::While || k == Kind::Return
        || k == Kind::Calc || k == Kind::Null || k == Kind::BooleanTrue || k == Kind::BooleanFalse
        || k == Kind::Case || k == Kind::Default || k == Kind::Switch || k == Kind::Def
}

/// What every lexed token satisfies: a fixed-text kind carries its text, an
/// operator one of its spellings, a keyword kind a word that classifies as
/// that kind, a long literal a non-empty run of digits; its position is
/// 1-based.
pub open spec fn token_ok(t: Token) -> bool {
    &&& t.line >= 1
    &&& t.column >= 1
    &&& fixed_text(t.kind) matches Some(text) ==> t.value@ == text
    &&& t.kind == Kind::BinaryOperator ==> (t.value@ == "+"@ || t.value@ == "-"@ || t.value@ == "*"@
        || t.value@ == "/"@ || t.value@ == "%"@)
    &&& t.kind == Kind::ComparisonOperator ==> (t.value@ == "<"@ || t.value@ == "<="@ || t.value@
        == ">"@ || t.value@ == ">="@)
    &&& keyword_kind(t.kind) ==> classify(t.value@) == t.kind
    &&& t.kind == Kind::LongLiteral ==> t.value@.len() > 0 && (forall|i: int|
        0 <= i < t.value@.len() ==> crate::strings::is_digit(#[trigger] t.value@[i]))
}

/// The messages the lexer fails with.
pub open spec fn lex_error_message(m: Seq<char>) -> bool {
    m == "Unterminated string literal"@ || m == "Unterminated character literal"@ || m
        == "Expected closing single quote"@ || m == "Unterminated multi-line comment"@ || is_prefix(
        "Unrecognized character '"@,
        m,
    )
}

impl Lexer {
    /// `next` is this lexer moved forward to offset `to`.
    spec fn moved_to(&self, next: &Lexer, to: int) -> bool {
        &&& next.wf()
        &&& next.source@ == self.source@
        &&& next.file_name == self.file_name
        &&& next.pos == to
        &&& self.pos <= to
        &&& (next.line as int, next.col as int) == pos_after(
            self.source@,
            self.pos as int,
            to,
            self.line as int,
            self.col as int,
        )
    }

    proof fn lemma_moved_trans(a: &Lexer, b: &Lexer, c: &Lexer)
        requires
            a.moved_to(b, b.pos as int),
            b.moved_to(c, c.pos as int),
        ensures
            a.moved_to(c, c.pos as int),
        decreases c.pos - b.pos,
    {
        Self::lemma_pos_after_concat(
            a.source@,
            a.pos as int,
            b.pos as int,
            c.pos as int,
            a.line as int,
            a.col as int,
        );
    }

    proof fn lemma_pos_after_concat(src: Seq<u8>, a: int, b: int, c: int, line: int, col: int)
        requires
            a <= b <= c,
        ensures
            pos_after(src, a, c, line, col) == pos_after(
                src,
                b,
                c,
                pos_after(src, a, b, line, col).0,
                pos_after(src, a, b, line, col).1,
            ),
        decreases c - b,
    {
        if c > b {
            Self::lemma_pos_after_concat(src, a, b, c - 1, line, col);
        }
    }

    /// Advances one byte and records the step.
    fn bump(&mut self)
        requires
            old(self).wf(),
            old(self).pos < old(self).source@.len(),
        ensures
            old(self).moved_to(final(self), old(self).pos + 1),
    {
        let ghost p = self.pos as int;
        let ghost l = self.line as int;
        let ghost c = self.col as int;
        self.advance();
        proof {
            assert(pos_after(self.source@, p, p, l, c) == (l, c));
        }
    }

    fn skip_whitespace(&mut self)
        requires
            old(self).wf(),
        ensures
            old(self).moved_to(final(self), run_end(old(self).source@, old(self).pos as int, |b: u8| ws_byte(b))),
    {
        let ghost start = *self;
        while self.pos < self.source.len()
            invariant
                start.wf(),
                start.moved_to(self, self.pos as int),
                forall|i: int| start.pos <= i < self.pos ==> ws_byte(#[trigger] self.source@[i]),
            ensures
                self.pos == self.source@.len() || !ws_byte(self.source@[self.pos as int]),
            decreases self.source@.len() - self.pos,
        {
            let ch = self.source[self.pos];
            if !is_ws(ch) {
                break;
            }
            let ghost mid = *self;
            self.bump();
            proof {
                Self::lemma_moved_trans(&start, &mid, self);
            }
        }
        proof {
            lemma_run_end_at(self.source@, start.pos as int, self.pos as int, |b: u8| ws_byte(b));
        }
    }

    /// Reads the run of identifier bytes at the current position.
    fn read_identifier(&mut self) -> (r: String)
        requires
            old(self).wf(),
        ensures
            old(self).moved_to(final(self), run_end(old(self).source@, old(self).pos as int, |b: u8| ident_byte(b))),
            r@ == byte_text(old(self).source@, old(self).pos as int, final(self).pos as int),
    {
        let ghost start = *self;
        let mut text: Vec<char> = Vec::new();
        while self.pos < self.source.len()
            invariant
                start.wf(),
                start.moved_to(self, self.pos as int),
                forall|i: int| start.pos <= i < self.pos ==> ident_byte(#[trigger] self.source@[i]),
                text@ == byte_text(self.source@, start.pos as int, self.pos as int),
            ensures
                self.pos == self.source@.len() || !ident_byte(self.source@[self.pos as int]),
            decreases self.source@.len() - self.pos,
        {
            let ch = self.source[self.pos];
            if !is_ident(ch) {
                break;
            }
            let ghost mid = *self;
            text.push(ch as char);
            self.bump();
            proof {
                Self::lemma_moved_trans(&start, &mid, self);
                assert(text@ =~= byte_text(self.source@, start.pos as int, self.pos as int));
            }
        }
        proof {
            lemma_run_end_at(self.source@, start.pos as int, self.pos as int, |b: u8| ident_byte(b));
        }
        string_from_chars(&text)
    }

    /// Reads a run of decimal digits and an optional `L`/`l` suffix; the text
    /// of the digits and whether the suffix was there.
    fn read_number(&mut self) -> (r: (String, bool))
        requires
            old(self).wf(),
        ensures
            ({
                let end = run_end(old(self).source@, old(self).pos as int, |b: u8| digit_byte(b));
                let long = end < old(self).source@.len() && (old(self).source@[end] == 76u8
                    || old(self).source@[end] == 108u8);
                &&& old(self).moved_to(final(self), if long { end + 1 } else { end })
                &&& r.0@ == byte_text(old(self).source@, old(self).pos as int, end)
                &&& r.1 == long
            }),
    {
        let ghost start = *self;
        let mut text: Vec<char> = Vec::new();
        while self.pos < self.source.len()
            invariant
                start.wf(),
                start.moved_to(self, self.pos as int),
                forall|i: int| start.pos <= i < self.pos ==> digit_byte(#[trigger] self.source@[i]),
                text@ == byte_text(self.source@, start.pos as int, self.pos as int),
            ensures
                self.pos == self.source@.len() || !digit_byte(self.source@[self.pos as int]),
            decreases self.source@.len() - self.pos,
        {
            let ch = self.source[self.pos];
            if !is_digit(ch) {
                break;
            }
            let ghost mid = *self;
            text.push(ch as char);
            self.bump();
            proof {
                Self::lemma_moved_trans(&start, &mid, self);
                assert(text@ =~= byte_text(self.source@, start.pos as int, self.pos as int));
            }
        }
        proof {
            lemma_run_end_at(self.source@, start.pos as int, self.pos as int, |b: u8| digit_byte(b));
        }
        let mut is_long = false;
        if self.pos < self.source.len() && (self.source[self.pos] == 76 || self.source[self.pos] == 108) {
            let ghost mid = *self;
            self.bump();
            proof {
                Self::lemma_moved_trans(&start, &mid, self);
            }
            is_long = true;
        }
        (string_from_chars(&text), is_long)
    }

    /// Reads up to (not including) the next newline; the text of the bytes read.
    fn read_single_line_comment(&mut self) -> (r: String)
        requires
            old(self).wf(),
        ensures
            old(self).moved_to(final(self), run_end(old(self).source@, old(self).pos as int, |b: u8| b != 10u8)),
            r@ == utf8_lossy(old(self).source@.subrange(old(self).pos as int, final(self).pos as int)),
    {
        let ghost start = *self;
        let mut bytes: Vec<u8> = Vec::new();
        while self.pos < self.source.len()
            invariant
                start.wf(),
                start.moved_to(self, self.pos as int),
                forall|i: int| start.pos <= i < self.pos ==> #[trigger] self.source@[i] != 10u8,
                bytes@ == self.source@.subrange(start.pos as int, self.pos as int),
            ensures
                self.pos == self.source@.len() || self.source@[self.pos as int] == 10u8,
            decreases self.source@.len() - self.pos,
        {
            let ch = self.source[self.pos];
            if ch == 10 {
                break;
            }
            let ghost mid = *self;
            bytes.push(ch);
            self.bump();
            proof {
                Self::lemma_moved_trans(&start, &mid, self);
                assert(bytes@ =~= self.source@.subrange(start.pos as int, self.pos as int));
            }
        }
        proof {
            lemma_run_end_at(self.source@, start.pos as int, self.pos as int, |b: u8| b != 10u8);
        }
        lossy_text(&bytes)
    }
}

/// Where a `/* ... */` comment whose body starts at `i` ends (just past its
/// closing `*/`), at nesting depth `depth`: each `/*` opens one level and
/// each `*/` closes one; none when the source ends first.
pub open spec fn comment_end(src: Seq<u8>, i: int, depth: int) -> Option<int>
    decreases src.len() - i,
{
    if i < 0 || i >= src.len() {
        None
    } else if src[i] == 47u8 && i + 1 < src.len() && src[i + 1] == 42u8 {
        comment_end(src, i + 2, depth + 1)
    } else if src[i] == 42u8 && i + 1 < src.len() && src[i + 1] == 47u8 {
        if depth <= 1 {
            Some(i + 2)
        } else {
            comment_end(src, i + 2, depth - 1)
        }
    } else {
        comment_end(src, i + 1, depth)
    }
}

/// Whether `b` continues a multi-byte UTF-8 sequence.
pub open spec fn cont_byte(b: u8) -> bool {
    128 <= b < 192
}

/// The text a byte group of a string literal stands for: its UTF-8
/// decoding, or one character per byte when it is not valid UTF-8.
pub open spec fn group_text(bytes: Seq<u8>) -> Seq<char> {
    match utf8_decoded(bytes) {
        Some(t) => t,
        None => bytes.map_values(|b: u8| b as char),
    }
}

/// The text of a string literal read from `i` on (after its opening quote)
/// with `<...>` nesting `depth` and text `value` so far, and the position
/// after its closing quote; none when the source ends first. Inside `<...>`
/// a quote does not end the literal; `\\`, `\"` and `\<` are escapes and
/// any other backslash stays as written.
pub open spec fn string_lit(src: Seq<u8>, i: int, depth: int, value: Seq<char>) -> Option<(Seq<char>, int)>
    decreases src.len() - i,
{
    if i < 0 || i >= src.len() {
        None
    } else {
        let ch = src[i];
        if ch == 34u8 {
            if depth > 0 {
                string_lit(src, i + 1, depth, value.push('"'))
            } else {
                Some((value, i + 1))
            }
        } else if ch == 60u8 {
            string_lit(src, i + 1, depth + 1, value.push('<'))
        } else if ch == 62u8 {
            string_lit(src, i + 1, if depth > 0 { depth - 1 } else { 0 }, value.push('>'))
        } else if ch == 92u8 {
            if i + 1 >= src.len() {
                None
            } else {
                let esc = src[i + 1];
                let add = if esc == 92u8 {
                    seq!['\\']
                } else if esc == 34u8 {
                    seq!['"']
                } else if esc == 60u8 {
                    seq!['<']
                } else {
                    seq!['\\', esc as char]
                };
                string_lit(src, i + 2, depth, value + add)
            }
        } else if ch < 128u8 {
            string_lit(src, i + 1, depth, value.push(ch as char))
        } else if ch >= 192u8 {
            let e = run_end(src, i + 1, |b: u8| cont_byte(b));
            proof {
                lemma_run_end(src, i + 1, |b: u8| cont_byte(b));
            }
            string_lit(src, e, depth, value + group_text(src.subrange(i, e)))
        } else {
            string_lit(src, i + 1, depth, value.push(ch as char))
        }
    }
}

/// The character an escape `\\b` in a character literal stands for.
pub open spec fn char_escape(esc: u8) -> char {
    if esc == 110u8 {
        '\n'
    } else if esc == 116u8 {
        '\t'
    } else if esc == 92u8 {
        '\\'
    } else if esc == 39u8 {
        '\''
    } else {
        esc as char
    }
}

/// The character literal whose opening quote is at `p` (at `line`, `col`):
/// its character and the position after its closing quote, or the error's
/// message, line and column.
pub open spec fn char_lit(src: Seq<u8>, p: int, line: int, col: int) -> Result<(char, int), (Seq<char>, int, int)> {
    let i1 = p + 1;
    if i1 >= src.len() {
        Err(("Unterminated character literal"@, line, col))
    } else if src[i1] == 92u8 && i1 + 1 >= src.len() {
        Err(("Unterminated character literal"@, line, col))
    } else {
        let ch = if src[i1] == 92u8 { char_escape(src[i1 + 1]) } else { src[i1] as char };
        let i3 = if src[i1] == 92u8 { i1 + 2 } else { i1 + 1 };
        if i3 < src.len() && src[i3] == 39u8 {
            Ok((ch, i3 + 1))
        } else {
            Err(("Expected closing single quote"@, pos_after(src, p, i3, line, col).0, pos_after(src, p, i3, line, col).1))
        }
    }
}

impl Lexer {
    fn error_at(&self, message: &str, line: usize, col: usize) -> (e: LexingError)
        ensures
            e.path == self.file_name,
            e.message@ == message@,
            e.line == line,
            e.position == col,
    {
        LexingError::new(self.file_name.clone(), to_owned_string(message), line, col)
    }

    /// Reads the rest of a `/* ... */` comment whose opening has been read,
    /// honouring nested comments; the text inside, or an error at the
    /// comment's start when the source ends first.
    fn read_multi_line_comment(&mut self, start_line: usize, start_col: usize) -> (r: Result<String, LexingError>)
        requires
            old(self).wf(),
        ensures
            old(self).moved_to(final(self), final(self).pos as int),
            r matches Err(e) ==> e.message@ == "Unterminated multi-line comment"@ && e.line == start_line
                && e.position == start_col && e.path == old(self).file_name && final(self).pos
                == final(self).source@.len(),
            match comment_end(old(self).source@, old(self).pos as int, 1) {
                Some(end) => r matches Ok(t) && final(self).pos == end && t@ == byte_text(
                    old(self).source@,
                    old(self).pos as int,
                    end - 2,
                ),
                None => r is Err,
            },
    {
        let ghost start = *self;
        let ghost target = comment_end(start.source@, start.pos as int, 1);
        let mut comment: Vec<char> = Vec::new();
        let mut depth: usize = 1;
        proof {
            assert(byte_text(start.source@, start.pos as int, start.pos as int) =~= Seq::<char>::empty());
        }
        while depth > 0
            invariant
                start.wf(),
                start == *old(self),
                start.moved_to(self, self.pos as int),
                depth <= self.pos - start.pos + 1,
                target == comment_end(start.source@, start.pos as int, 1),
                depth > 0 ==> comment_end(self.source@, self.pos as int, depth as int) == target
                    && comment@ == byte_text(self.source@, start.pos as int, self.pos as int),
                depth == 0 ==> target == Some(self.pos as int) && self.pos >= start.pos + 2
                    && comment@ == byte_text(self.source@, start.pos as int, self.pos - 2),
            decreases self.source@.len() - self.pos + depth,
        {
            let ghost before = *self;
            if self.pos >= self.source.len() {
                return Err(self.error_at("Unterminated multi-line comment", start_line, start_col));
            }
            let ch = self.source[self.pos];
            self.bump();
            proof {
                Self::lemma_moved_trans(&start, &before, self);
                let src = self.source@;
                let p = before.pos as int;
                assert(byte_text(src, start.pos as int, p + 1) =~= byte_text(src, start.pos as int, p).push(src[p] as char));
                if p + 2 <= src.len() {
                    assert(byte_text(src, start.pos as int, p + 2) =~= byte_text(src, start.pos as int, p + 1).push(src[p + 1] as char));
                }
            }
            if ch == 47 {
                if self.pos < self.source.len() && self.source[self.pos] == 42 {
                    let ghost mid = *self;
                    self.bump();
                    proof {
                        Self::lemma_moved_trans(&start, &mid, self);
                    }
                    comment.push('/');
                    comment.push('*');
                    depth = depth + 1;
                } else {
                    comment.push('/');
                }
            } else if ch == 42 {
                if self.pos < self.source.len() && self.source[self.pos] == 47 {
                    let ghost mid = *self;
                    self.bump();
                    proof {
                        Self::lemma_moved_trans(&start, &mid, self);
                    }
                    depth = depth - 1;
                    if depth > 0 {
                        comment.push('*');
                        comment.push('/');
                    }
                } else {
                    comment.push('*');
                }
            } else {
                comment.push(ch as char);
            }
        }
        Ok(string_from_chars(&comment))
    }

    /// Reads a string literal starting at its opening quote. Inside `<...>`
    /// interpolations a quote does not end the literal; `\\`, `\"` and `\<`
    /// are escapes and any other backslash stays as written.
    fn read_string_literal(&mut self) -> (r: Result<Token, LexingError>)
        requires
            old(self).wf(),
            old(self).pos < old(self).source@.len(),
        ensures
            old(self).moved_to(final(self), final(self).pos as int),
            r matches Ok(t) ==> t.kind == Kind::StringLiteral && t.line == old(self).line && t.column
                == old(self).col,
            final(self).pos > old(self).pos,
            r matches Err(e) ==> e.message@ == "Unterminated string literal"@ && e.line == old(self).line
                && e.position == old(self).col && e.path == old(self).file_name,
            match string_lit(old(self).source@, old(self).pos + 1, 0, Seq::empty()) {
                Some((v, end)) => r matches Ok(t) && t.value@ == v && final(self).pos == end,
                None => r is Err,
            },
    {
        let ghost start = *self;
        let ghost target = string_lit(start.source@, start.pos + 1, 0, Seq::empty());
        let start_line = self.line;
        let start_col = self.col;
        self.bump();
        let mut value: Vec<char> = Vec::new();
        let mut interp_depth: usize = 0;
        loop
            invariant_except_break
                target == string_lit(self.source@, self.pos as int, interp_depth as int, value@),
            invariant
                start.wf(),
                start == *old(self),
                start.moved_to(self, self.pos as int),
                start.pos < self.pos,
                interp_depth <= self.pos,
                start_line == start.line,
                start_col == start.col,
                target == string_lit(start.source@, start.pos + 1, 0, Seq::empty()),
            ensures
                start.moved_to(self, self.pos as int),
                start.pos < self.pos,
                target == Some((value@, self.pos as int)),
            decreases self.source@.len() - self.pos,
        {
            let ghost before = *self;
            let ghost v0 = value@;
            let ghost d0 = interp_depth as int;
            if self.pos >= self.source.len() {
                return Err(self.error_at("Unterminated string literal", start_line, start_col));
            }
            let ch = self.source[self.pos];
            self.bump();
            proof {
                Self::lemma_moved_trans(&start, &before, self);
            }
            if ch == 34 {
                if interp_depth > 0 {
                    value.push('"');
                } else {
                    break;
                }
            } else if ch == 60 {
                interp_depth = interp_depth + 1;
                value.push('<');
            } else if ch == 62 {
                if interp_depth > 0 {
                    interp_depth = interp_depth - 1;
                }
                value.push('>');
            } else if ch == 92 {
                let ghost mid = *self;
                if self.pos >= self.source.len() {
                    return Err(self.error_at("Unterminated string literal", start_line, start_col));
                }
                let esc = self.source[self.pos];
                self.bump();
                proof {
                    Self::lemma_moved_trans(&start, &mid, self);
                }
                if esc == 92 {
                    value.push('\\');
                } else if esc == 34 {
                    value.push('"');
                } else if esc == 60 {
                    value.push('<');
                } else {
                    value.push('\\');
                    value.push(esc as char);
                }
                proof {
                    let add = if esc == 92u8 {
                        seq!['\\']
                    } else if esc == 34u8 {
                        seq!['"']
                    } else if esc == 60u8 {
                        seq!['<']
                    } else {
                        seq!['\\', esc as char]
                    };
                    assert(value@ =~= v0 + add);
                }
            } else if ch < 128 {
                value.push(ch as char);
            } else if ch >= 192 {
                let mut bytes: Vec<u8> = Vec::new();
                bytes.push(ch);
                proof {
                    assert(bytes@ =~= self.source@.subrange(before.pos as int, self.pos as int));
                }
                while self.pos < self.source.len()
                    invariant
                        start.wf(),
                        start == *old(self),
                        before.pos < self.pos,
                        start.moved_to(self, self.pos as int),
                        start.pos < self.pos,
                        interp_depth <= self.pos,
                        start_line == start.line,
                        start_col == start.col,
                        value@ == v0,
                        self.source@ == before.source@,
                        bytes@ == self.source@.subrange(before.pos as int, self.pos as int),
                        forall|j: int| before.pos + 1 <= j < self.pos ==> cont_byte(#[trigger] self.source@[j]),
                    ensures
                        start.moved_to(self, self.pos as int),
                        start.pos < self.pos,
                        interp_depth <= self.pos,
                        value@ == v0,
                        bytes@ == self.source@.subrange(before.pos as int, self.pos as int),
                        self.source@ == before.source@,
                        forall|j: int| before.pos + 1 <= j < self.pos ==> cont_byte(#[trigger] self.source@[j]),
                        self.pos == self.source@.len() || !cont_byte(self.source@[self.pos as int]),
                    decreases self.source@.len() - self.pos,
                {
                    let next = self.source[self.pos];
                    if next >= 128 && next < 192 {
                        let ghost mid = *self;
                        bytes.push(next);
                        self.bump();
                        proof {
                            Self::lemma_moved_trans(&start, &mid, self);
                            assert(bytes@ =~= self.source@.subrange(before.pos as int, self.pos as int));
                        }
                    } else {
                        break;
                    }
                }
                proof {
                    lemma_run_end_at(self.source@, before.pos + 1, self.pos as int, |b: u8| cont_byte(b));
                }
                match decode_utf8(&bytes) {
                    Some(text) => {
                        let tv = crate::strings::chars_of(text.as_str());
                        let mut k: usize = 0;
                        while k < tv.len()
                            invariant
                                k <= tv@.len(),
                                value@ == v0 + tv@.take(k as int),
                            decreases tv@.len() - k,
                        {
                            value.push(tv[k]);
                            proof {
                                assert(value@ =~= v0 + tv@.take(k + 1));
                            }
                            k += 1;
                        }
                        proof {
                            assert(tv@.take(tv@.len() as int) =~= tv@);
                        }
                    },
                    None => {
                        let mut k: usize = 0;
                        while k < bytes.len()
                            invariant
                                k <= bytes@.len(),
                                value@ == v0 + bytes@.take(k as int).map_values(|b: u8| b as char),
                            decreases bytes@.len() - k,
                        {
                            value.push(bytes[k] as char);
                            proof {
                                assert(value@ =~= v0 + bytes@.take(k + 1).map_values(|b: u8| b as char));
                            }
                            k += 1;
                        }
                        proof {
                            assert(bytes@.take(bytes@.len() as int) =~= bytes@);
                        }
                    },
                }
                proof {
                    assert(value@ == v0 + group_text(bytes@));
                }
            } else {
                value.push(ch as char);
            }
        }
        Ok(Token::new(Kind::StringLiteral, string_from_chars(&value), start_line, start_col))
    }

    /// Reads a character literal starting at its opening quote; `\n`, `\t`,
    /// `\\` and `\'` are escapes, a backslash before any other byte gives
    /// that byte.
    fn read_char_literal(&mut self) -> (r: Result<Token, LexingError>)
        requires
            old(self).wf(),
            old(self).pos < old(self).source@.len(),
        ensures
            old(self).moved_to(final(self), final(self).pos as int),
            r matches Ok(t) ==> t.kind == Kind::CharLiteral && t.line == old(self).line && t.column
                == old(self).col && t.value@.len() == 1,
            final(self).pos > old(self).pos,
            r matches Err(e) ==> (e.message@ == "Unterminated character literal"@ || e.message@
                == "Expected closing single quote"@) && e.path == old(self).file_name,
            match char_lit(old(self).source@, old(self).pos as int, old(self).line as int, old(self).col as int) {
                Ok((c, end)) => r matches Ok(t) && t.value@ == seq![c] && final(self).pos == end,
                Err((m, l, c)) => r matches Err(e) && e.message@ == m && e.line == l && e.position == c,
            },
    {
        let ghost start = *self;
        let start_line = self.line;
        let start_col = self.col;
        self.bump();
        if self.pos >= self.source.len() {
            return Err(self.error_at("Unterminated character literal", start_line, start_col));
        }
        let first = self.source[self.pos];
        let ghost m1 = *self;
        self.bump();
        proof {
            Self::lemma_moved_trans(&start, &m1, self);
        }
        let ch: char = if first == 92 {
            if self.pos >= self.source.len() {
                return Err(self.error_at("Unterminated character literal", start_line, start_col));
            }
            let esc = self.source[self.pos];
            let ghost m2 = *self;
            self.bump();
            proof {
                Self::lemma_moved_trans(&start, &m2, self);
            }
            if esc == 110 {
                '\n'
            } else if esc == 116 {
                '\t'
            } else if esc == 92 {
                '\\'
            } else if esc == 39 {
                '\''
            } else {
                esc as char
            }
        } else {
            first as char
        };
        let ghost m3 = *self;
        if self.pos < self.source.len() && self.source[self.pos] == 39 {
            self.bump();
            proof {
                Self::lemma_moved_trans(&start, &m3, self);
            }
        } else {
            let line = self.line;
            let col = self.col;
            if self.pos < self.source.len() {
                self.bump();
                proof {
                    Self::lemma_moved_trans(&start, &m3, self);
                }
            }
            return Err(self.error_at("Expected closing single quote", line, col));
        }
        let mut v: Vec<char> = Vec::new();
        v.push(ch);
        proof {
            assert(v@ =~= seq![ch]);
        }
        Ok(Token::new(Kind::CharLiteral, string_from_chars(&v), start_line, start_col))
    }
}

/// The value of a hexadecimal digit byte.
pub open spec fn hex_digit_value(b: u8) -> int {
    if digit_byte(b) {
        b - 48
    } else if 65 <= b <= 70 {
        b - 55
    } else {
        b - 87
    }
}

/// The value of a run of hexadecimal digit bytes.
pub open spec fn hex_digits_value(s: Seq<u8>) -> int
    decreases s.len(),
{
    if s.len() == 0 {
        0
    } else {
        hex_digits_value(s.drop_last()) * 16 + hex_digit_value(s.last())
    }
}

/// The value `u32::from_str_radix(text, 16).unwrap_or(0)` gives for a run
/// of hexadecimal digits: 0 for no digits or a value beyond `u32::MAX`.
pub open spec fn hex_u32(s: Seq<u8>) -> u32 {
    if s.len() == 0 || hex_digits_value(s) > u32::MAX {
        0u32
    } else {
        hex_digits_value(s) as u32
    }
}

proof fn lemma_hex_mono(s: Seq<u8>)
    requires
        forall|i: int| 0 <= i < s.len() ==> hex_byte(#[trigger] s[i]),
    ensures
        hex_digits_value(s) >= 0,
        s.len() > 0 ==> hex_digits_value(s) >= hex_digits_value(s.drop_last()),
    decreases s.len(),
{
    if s.len() > 0 {
        lemma_hex_mono(s.drop_last());
    }
}

fn hex_value(b: u8) -> (r: u64)
    requires
        hex_byte(b),
    ensures
        r == hex_digit_value(b),
        r < 16,
{
    if 48 <= b && b <= 57 {
        (b - 48) as u64
    } else if 65 <= b && b <= 70 {
        (b - 55) as u64
    } else {
        (b - 87) as u64
    }
}

/// The decimal text of `hex_u32(s)` read as an `i32`.
fn hex_text(s: &Vec<u8>) -> (r: String)
    requires
        forall|i: int| 0 <= i < s@.len() ==> hex_byte(#[trigger] s@[i]),
    ensures
        r@ == crate::strings::int_decimal((hex_u32(s@) as i32) as int),
{
    let mut acc: u64 = 0;
    let mut over = false;
    let mut i: usize = 0;
    while i < s.len()
        invariant
            i <= s@.len(),
            forall|k: int| 0 <= k < s@.len() ==> hex_byte(#[trigger] s@[k]),
            !over ==> acc == hex_digits_value(s@.take(i as int)) && acc <= u32::MAX,
            over ==> hex_digits_value(s@.take(i as int)) > u32::MAX,
        decreases s@.len() - i,
    {
        proof {
            assert(s@.take(i + 1).drop_last() =~= s@.take(i as int));
            assert forall|k: int| 0 <= k < s@.take(i + 1).len() implies hex_byte(#[trigger] s@.take(i + 1)[k]) by {
                assert(s@.take(i + 1)[k] == s@[k]);
            }
            lemma_hex_mono(s@.take(i + 1));
        }
        if !over {
            let d = hex_value(s[i]);
            let next = acc * 16 + d;
            if next > 0xffff_ffffu64 {
                over = true;
            } else {
                acc = next;
            }
        } else {
            proof {
                lemma_hex_mono(s@.take(i + 1));
            }
        }
        i += 1;
    }
    proof {
        assert(s@.take(s@.len() as int) =~= s@);
    }
    let v: u32 = if over || s.len() == 0 { 0 } else { acc as u32 };
    crate::strings::i64_to_decimal((v as i32) as i64)
}

/// The single-byte token that byte `b` starts, if it is one: its kind and text.
pub open spec fn punct(b: u8) -> Option<(Kind, Seq<char>)> {
    if b == 91u8 { Some((Kind::LBracket, "["@)) }
    else if b == 93u8 { Some((Kind::RBracket, "]"@)) }
    else if b == 40u8 { Some((Kind::LParen, "("@)) }
    else if b == 41u8 { Some((Kind::RParen, ")"@)) }
    else if b == 123u8 { Some((Kind::LBrace, "{"@)) }
    else if b == 125u8 { Some((Kind::RBrace, "}"@)) }
    else if b == 59u8 { Some((Kind::Semicolon, ";"@)) }
    else if b == 44u8 { Some((Kind::Comma, ","@)) }
    else if b == 58u8 { Some((Kind::Colon, ":"@)) }
    else if b == 38u8 { Some((Kind::LogicalAnd, "&"@)) }
    else if b == 124u8 { Some((Kind::LogicalOr, "|"@)) }
    else if b == 33u8 { Some((Kind::Not, "!"@)) }
    else if b == 35u8 { Some((Kind::Hash, "#"@)) }
    else if b == 46u8 { Some((Kind::Dot, "."@)) }
    else if b == 126u8 { Some((Kind::ScriptCall, "~"@)) }
    else if b == 64u8 { Some((Kind::JumpCall, "@"@)) }
    else if b == 36u8 { Some((Kind::LocalVar, "$"@)) }
    else if b == 94u8 { Some((Kind::ConstantVar, "^"@)) }
    else if b == 61u8 { Some((Kind::Equals, "="@)) }
    else if b == 43u8 { Some((Kind::BinaryOperator, "+"@)) }
    else if b == 45u8 { Some((Kind::BinaryOperator, "-"@)) }
    else if b == 42u8 { Some((Kind::BinaryOperator, "*"@)) }
    else { None }
}

fn punct_token(b: u8) -> (r: Option<(Kind, &'static str)>)
    ensures
        match r {
            Some((k, t)) => punct(b) == Some((k, t@)),
            None => punct(b) is None,
        },
{
    if b == 91 { Some((Kind::LBracket, "[")) }
    else if b == 93 { Some((Kind::RBracket, "]")) }
    else if b == 40 { Some((Kind::LParen, "(")) }
    else if b == 41 { Some((Kind::RParen, ")")) }
    else if b == 123 { Some((Kind::LBrace, "{")) }
    else if b == 125 { Some((Kind::RBrace, "}")) }
    else if b == 59 { Some((Kind::Semicolon, ";")) }
    else if b == 44 { Some((Kind::Comma, ",")) }
    else if b == 58 { Some((Kind::Colon, ":")) }
    else if b == 38 { Some((Kind::LogicalAnd, "&")) }
    else if b == 124 { Some((Kind::LogicalOr, "|")) }
    else if b == 33 { Some((Kind::Not, "!")) }
    else if b == 35 { Some((Kind::Hash, "#")) }
    else if b == 46 { Some((Kind::Dot, ".")) }
    else if b == 126 { Some((Kind::ScriptCall, "~")) }
    else if b == 64 { Some((Kind::JumpCall, "@")) }
    else if b == 36 { Some((Kind::LocalVar, "$")) }
    else if b == 94 { Some((Kind::ConstantVar, "^")) }
    else if b == 61 { Some((Kind::Equals, "=")) }
    else if b == 43 { Some((Kind::BinaryOperator, "+")) }
    else if b == 45 { Some((Kind::BinaryOperator, "-")) }
    else if b == 42 { Some((Kind::BinaryOperator, "*")) }
    else { None }
}

/// Whether the tokens are a well-formed lexing result: each token is
/// well-formed, they come in source order, and exactly the last one is the
/// end-of-file token.
pub open spec fn tokens_ok(ts: Seq<Token>) -> bool {
    &&& ts.len() >= 1
    &&& ts.last().kind == Kind::EndOfFile
    &&& forall|i: int| 0 <= i < ts.len() - 1 ==> (#[trigger] ts[i]).kind != Kind::EndOfFile
    &&& forall|i: int| 0 <= i < ts.len() ==> token_ok(#[trigger] ts[i])
    &&& forall|i: int, j: int|
        0 <= i < j < ts.len() ==> pos_le(
            (#[trigger] ts[i]).line as int,
            ts[i].column as int,
            (#[trigger] ts[j]).line as int,
            ts[j].column as int,
        )
}

proof fn lemma_digit_text(src: Seq<u8>, from: int, to: int)
    requires
        0 <= from <= to <= src.len(),
        forall|i: int| from <= i < to ==> digit_byte(#[trigger] src[i]),
    ensures
        forall|i: int| 0 <= i < byte_text(src, from, to).len() ==> crate::strings::is_digit(#[trigger] byte_text(src, from, to)[i]),
        byte_text(src, from, to).len() == to - from,
{
    assert forall|i: int| 0 <= i < byte_text(src, from, to).len() implies crate::strings::is_digit(#[trigger] byte_text(src, from, to)[i]) by {
        let b = src[from + i];
        assert(digit_byte(b));
        assert(byte_text(src, from, to)[i] == (b as char));
    }
}

/// The head of a numeric token at `p`: a hexadecimal literal `0x...` as
/// the decimal text of its `i32` value, or a run of decimal digits with an
/// optional `L`/`l` suffix; its text, whether it is long, and where it ends.
pub open spec fn num_head(src: Seq<u8>, p: int) -> (Seq<char>, bool, int) {
    if src[p] == 48u8 && p + 1 < src.len() && src[p + 1] == 120u8 {
        let e = run_end(src, p + 2, |b: u8| hex_byte(b));
        (crate::strings::int_decimal((hex_u32(src.subrange(p + 2, e)) as i32) as int), false, e)
    } else {
        let end = run_end(src, p, |b: u8| digit_byte(b));
        let long = end < src.len() && (src[end] == 76u8 || src[end] == 108u8);
        (byte_text(src, p, end), long, if long { end + 1 } else { end })
    }
}

/// The `k` remaining `_digits` parts of a coordinate literal from `q`: their
/// text and where they end; none when a part is missing or long.
pub open spec fn coord_rest(src: Seq<u8>, q: int, k: nat) -> Option<(Seq<char>, int)>
    decreases k,
{
    if k == 0 {
        Some((Seq::empty(), q))
    } else if 0 <= q && q + 1 < src.len() && src[q] == 95u8 && digit_byte(src[q + 1]) {
        let end = run_end(src, q + 1, |b: u8| digit_byte(b));
        if end < src.len() && (src[end] == 76u8 || src[end] == 108u8) {
            None
        } else {
            match coord_rest(src, end, (k - 1) as nat) {
                Some((t, e)) => Some((seq!['_'] + byte_text(src, q + 1, end) + t, e)),
                None => None,
            }
        }
    } else {
        None
    }
}

/// `acc` in front of the text of `o`.
pub open spec fn prepend_text(acc: Seq<char>, o: Option<(Seq<char>, int)>) -> Option<(Seq<char>, int)> {
    match o {
        Some((t, e)) => Some((acc + t, e)),
        None => None,
    }
}

/// The token that starts with a decimal digit at `p`: its kind, text and
/// end. A head followed by a letter, or by `_` that does not make a
/// coordinate `a_b_c_d_e` standing alone, continues as an identifier.
pub open spec fn number_tok(src: Seq<u8>, p: int) -> (Kind, Seq<char>, int) {
    let (value, long, q) = num_head(src, p);
    let as_ident = (Kind::Identifier, value + byte_text(src, q, run_end(src, q, |b: u8| ident_byte(b))), run_end(
        src,
        q,
        |b: u8| ident_byte(b),
    ));
    if !long && q < src.len() && alpha_byte(src[q]) {
        as_ident
    } else if !long && q < src.len() && src[q] == 95u8 {
        match coord_rest(src, q, 4) {
            Some((t, e)) => if !(e < src.len() && (src[e] == 95u8 || ident_byte(src[e]))) {
                (Kind::CoordLiteral, value + t, e)
            } else {
                as_ident
            },
            None => as_ident,
        }
    } else {
        (if long { Kind::LongLiteral } else { Kind::Number }, value, q)
    }
}

proof fn lemma_prepend_step(acc: Seq<char>, mid: Seq<char>, o: Option<(Seq<char>, int)>)
    ensures
        prepend_text(
            acc,
            match o {
                Some((t, e)) => Some((mid + t, e)),
                None => None,
            },
        ) == prepend_text(acc + mid, o),
{
    if let Some((t, e)) = o {
        assert(acc + (mid + t) =~= (acc + mid) + t);
    }
}

impl Lexer {
    /// Lexes a token that starts with a decimal digit: a hexadecimal literal
    /// (given as its decimal `i32` value), a number, a long literal, a
    /// coordinate literal `a_b_c_d_e`, or an identifier that starts with digits.
    fn lex_number(&mut self) -> (t: Token)
        requires
            old(self).wf(),
            old(self).pos < old(self).source@.len(),
            digit_byte(old(self).source@[old(self).pos as int]),
        ensures
            old(self).moved_to(final(self), final(self).pos as int),
            final(self).pos > old(self).pos,
            t.line == old(self).line,
            t.column == old(self).col,
            token_ok(t),
            t.kind == Kind::Number || t.kind == Kind::LongLiteral || t.kind == Kind::Identifier || t.kind
                == Kind::CoordLiteral,
            (t.kind, t.value@, final(self).pos as int) == number_tok(old(self).source@, old(self).pos as int),
    {
        let ghost start = *self;
        let start_line = self.line;
        let start_col = self.col;
        let c = self.source[self.pos];
        let (value, is_long) = if c == 48 && self.pos + 1 < self.source.len() && self.source[self.pos + 1] == 120 {
            self.bump();
            let ghost m1 = *self;
            self.bump();
            proof {
                Self::lemma_moved_trans(&start, &m1, self);
            }
            let mut hex: Vec<u8> = Vec::new();
            proof {
                assert(hex@ =~= self.source@.subrange(start.pos + 2, self.pos as int));
                if self.pos >= self.source@.len() {
                    lemma_run_end_at(self.source@, start.pos + 2, self.pos as int, |b: u8| hex_byte(b));
                }
            }
            while self.pos < self.source.len()
                invariant
                    start.wf(),
                    start.moved_to(self, self.pos as int),
                    start.pos + 2 <= self.pos,
                    forall|i: int| 0 <= i < hex@.len() ==> hex_byte(#[trigger] hex@[i]),
                    hex@ == self.source@.subrange(start.pos + 2, self.pos as int),
                    forall|j: int| start.pos + 2 <= j < self.pos ==> hex_byte(#[trigger] self.source@[j]),
                    self.pos >= self.source@.len() ==> self.pos as int == run_end(self.source@, start.pos + 2, |b: u8| hex_byte(b)),
                ensures
                    start.moved_to(self, self.pos as int),
                    start.pos + 2 <= self.pos,
                    forall|i: int| 0 <= i < hex@.len() ==> hex_byte(#[trigger] hex@[i]),
                    hex@ == self.source@.subrange(start.pos + 2, self.pos as int),
                    self.pos as int == run_end(self.source@, start.pos + 2, |b: u8| hex_byte(b)),
                decreases self.source@.len() - self.pos,
            {
                let b = self.source[self.pos];
                if !is_hex(b) {
                    proof {
                        lemma_run_end_at(self.source@, start.pos + 2, self.pos as int, |b: u8| hex_byte(b));
                    }
                    break;
                }
                let ghost mid = *self;
                hex.push(b);
                self.bump();
                proof {
                    Self::lemma_moved_trans(&start, &mid, self);
                    assert(hex@ =~= self.source@.subrange(start.pos + 2, self.pos as int));
                    if self.pos >= self.source@.len() {
                        lemma_run_end_at(self.source@, start.pos + 2, self.pos as int, |b: u8| hex_byte(b));
                    }
                }
            }
            (hex_text(&hex), false)
        } else {
            let ghost m0 = *self;
            let (v, l) = self.read_number();
            proof {
                lemma_run_end(m0.source@, m0.pos as int, |b: u8| digit_byte(b));
                let end = run_end(m0.source@, m0.pos as int, |b: u8| digit_byte(b));
                assert(end > m0.pos);
                lemma_digit_text(m0.source@, m0.pos as int, end);
            }
            (v, l)
        };
        proof {
            assert((value@, is_long, self.pos as int) == num_head(start.source@, start.pos as int));
        }
        let next_is_ident = self.pos < self.source.len() && is_alpha(self.source[self.pos]);
        if !is_long && next_is_ident {
            let ghost m2 = *self;
            let rest = self.read_identifier();
            proof {
                Self::lemma_moved_trans(&start, &m2, self);
            }
            let mut ident = value;
            crate::strings::push_str(&mut ident, rest.as_str());
            return Token::new(Kind::Identifier, ident, start_line, start_col);
        }
        if !is_long && self.pos < self.source.len() && self.source[self.pos] == 95 {
            let ghost saved = *self;
            let saved_pos = self.pos;
            let saved_line = self.line;
            let saved_col = self.col;
            let mut coord = to_owned_string(value.as_str());
            let mut is_coord = true;
            let mut k: usize = 0;
            let ghost src = self.source@;
            let ghost mut acc: Seq<char> = Seq::empty();
            proof {
                assert(coord@ =~= value@ + acc);
                lemma_prepend_step(Seq::empty(), Seq::empty(), coord_rest(src, self.pos as int, 4));
                assert(Seq::<char>::empty() + Seq::<char>::empty() =~= Seq::<char>::empty());
                match coord_rest(src, self.pos as int, 4) {
                    Some((t, e)) => {
                        assert(Seq::<char>::empty() + t =~= t);
                    },
                    None => {},
                }
            }
            while k < 4
                invariant_except_break
                    coord_rest(src, saved.pos as int, 4) == prepend_text(acc, coord_rest(src, self.pos as int, (4 - k) as nat)),
                    coord@ == value@ + acc,
                    is_coord,
                invariant
                    start.wf(),
                    start.moved_to(self, self.pos as int),
                    saved.pos <= self.pos,
                    k <= 4,
                    src == self.source@,
                ensures
                    start.moved_to(self, self.pos as int),
                    saved.pos <= self.pos,
                    src == self.source@,
                    is_coord ==> coord@ == value@ + acc,
                    is_coord ==> coord_rest(src, saved.pos as int, 4) == prepend_text(acc, coord_rest(src, self.pos as int, 0)),
                    !is_coord ==> coord_rest(src, saved.pos as int, 4) is None,
                decreases 4 - k,
            {
                let ghost q = self.pos as int;
                let ghost kk = (4 - k) as nat;
                if self.pos < self.source.len() && self.source[self.pos] == 95 {
                    let ghost m3 = *self;
                    self.bump();
                    proof {
                        Self::lemma_moved_trans(&start, &m3, self);
                    }
                    crate::strings::push_char(&mut coord, '_');
                    if self.pos < self.source.len() && is_digit(self.source[self.pos]) {
                        let ghost m4 = *self;
                        let (part, part_long) = self.read_number();
                        proof {
                            Self::lemma_moved_trans(&start, &m4, self);
                        }
                        if part_long {
                            is_coord = false;
                            proof {
                                assert(coord_rest(src, q, kk) is None);
                            }
                            break;
                        }
                        crate::strings::push_str(&mut coord, part.as_str());
                        proof {
                            let mid = seq!['_'] + part@;
                            lemma_prepend_step(acc, mid, coord_rest(src, self.pos as int, (kk - 1) as nat));
                            acc = acc + mid;
                            assert(coord@ =~= value@ + acc);
                        }
                    } else {
                        is_coord = false;
                        proof {
                            assert(coord_rest(src, q, kk) is None);
                        }
                        break;
                    }
                } else {
                    is_coord = false;
                    proof {
                        assert(coord_rest(src, q, kk) is None);
                    }
                    break;
                }
                k += 1;
            }
            let follows = self.pos < self.source.len() && (self.source[self.pos] == 95 || is_ident(self.source[self.pos]));
            if is_coord && !follows {
                proof {
                    assert(acc + Seq::<char>::empty() =~= acc);
                }
                return Token::new(Kind::CoordLiteral, coord, start_line, start_col);
            }
            self.pos = saved_pos;
            self.line = saved_line;
            self.col = saved_col;
            proof {
                assert(self.source@ == saved.source@);
            }
            if self.pos < self.source.len() && self.source[self.pos] == 95 {
                let ghost m5 = *self;
                let rest = self.read_identifier();
                proof {
                    Self::lemma_moved_trans(&start, &m5, self);
                }
                let mut ident = value;
                crate::strings::push_str(&mut ident, rest.as_str());
                return Token::new(Kind::Identifier, ident, start_line, start_col);
            }
            return Token::new(Kind::Number, value, start_line, start_col);
        }
        let kind = if is_long { Kind::LongLiteral } else { Kind::Number };
        Token::new(kind, value, start_line, start_col)
    }
}

/// The token that starts at the non-whitespace byte `p` (at `line`, `col`):
/// its kind, text and end; or the error's message, line and column.
pub open spec fn lex_token(src: Seq<u8>, p: int, line: int, col: int) -> Result<(Kind, Seq<char>, int), (Seq<char>, int, int)> {
    let b = src[p];
    let ident_end = run_end(src, p, |x: u8| ident_byte(x));
    if punct(b) is Some {
        Ok(((punct(b)->0).0, (punct(b)->0).1, p + 1))
    } else if b == 37u8 {
        Ok((
            if p + 1 < src.len() && (alpha_byte(src[p + 1]) || src[p + 1] == 95u8) {
                Kind::GameVar
            } else {
                Kind::BinaryOperator
            },
            "%"@,
            p + 1,
        ))
    } else if b == 60u8 || b == 62u8 {
        if p + 1 < src.len() && src[p + 1] == 61u8 {
            Ok((Kind::ComparisonOperator, if b == 60u8 { "<="@ } else { ">="@ }, p + 2))
        } else {
            Ok((Kind::ComparisonOperator, if b == 60u8 { "<"@ } else { ">"@ }, p + 1))
        }
    } else if b == 47u8 {
        if p + 1 < src.len() && src[p + 1] == 47u8 {
            let e = run_end(src, p + 2, |x: u8| x != 10u8);
            Ok((Kind::SingleLineComment, utf8_lossy(src.subrange(p + 2, e)), e))
        } else if p + 1 < src.len() && src[p + 1] == 42u8 {
            match comment_end(src, p + 2, 1) {
                Some(e) => Ok((Kind::MultiLineComment, byte_text(src, p + 2, e - 2), e)),
                None => Err(("Unterminated multi-line comment"@, line, col)),
            }
        } else {
            Ok((Kind::BinaryOperator, "/"@, p + 1))
        }
    } else if b == 34u8 {
        match string_lit(src, p + 1, 0, Seq::empty()) {
            Some((v, e)) => Ok((Kind::StringLiteral, v, e)),
            None => Err(("Unterminated string literal"@, line, col)),
        }
    } else if b == 39u8 {
        match char_lit(src, p, line, col) {
            Ok((c, e)) => Ok((Kind::CharLiteral, seq![c], e)),
            Err(er) => Err(er),
        }
    } else if (b == 95u8 && p + 1 < src.len() && ident_byte(src[p + 1])) || alpha_byte(b) {
        Ok((classify(byte_text(src, p, ident_end)), byte_text(src, p, ident_end), ident_end))
    } else if b == 95u8 {
        Ok((Kind::Underscore, "_"@, p + 1))
    } else if digit_byte(b) {
        Ok(number_tok(src, p))
    } else {
        Err(("Unrecognized character '"@ + seq![b as char] + "'"@, line, col))
    }
}

/// A token as plain values: kind, text, line and column.
pub open spec fn tok_view(t: Token) -> (Kind, Seq<char>, int, int) {
    (t.kind, t.value@, t.line as int, t.column as int)
}

/// The tokens of `src` from `pos` (at `line`, `col`): whitespace skipped,
/// each token with the line and column it starts at, comments included,
/// ending with one end-of-file token; or the first error's message, line
/// and column.
pub open spec fn lex_from(src: Seq<u8>, pos: int, line: int, col: int) -> Result<Seq<(Kind, Seq<char>, int, int)>, (Seq<char>, int, int)>
    decreases src.len() - pos,
{
    if pos < 0 || pos > src.len() {
        Err((Seq::empty(), 0, 0))
    } else {
        let p = run_end(src, pos, |b: u8| ws_byte(b));
        proof {
            lemma_run_end(src, pos, |b: u8| ws_byte(b));
        }
        let lc = pos_after(src, pos, p, line, col);
        if p >= src.len() {
            Ok(seq![(Kind::EndOfFile, "EOF"@, lc.0, lc.1)])
        } else {
            match lex_token(src, p, lc.0, lc.1) {
                Err(er) => Err(er),
                Ok((k, v, e)) => if e <= p || e > src.len() {
                    Err((Seq::empty(), 0, 0))
                } else {
                    let lc2 = pos_after(src, p, e, lc.0, lc.1);
                    match lex_from(src, e, lc2.0, lc2.1) {
                        Ok(rest) => Ok(seq![(k, v, lc.0, lc.1)] + rest),
                        Err(er) => Err(er),
                    }
                },
            }
        }
    }
}

/// A run of whitespace ends where the run from any earlier point of it ends.
proof fn lemma_run_end_idem(src: Seq<u8>, a: int, p: int)
    requires
        0 <= a <= p <= src.len(),
        p == run_end(src, a, |b: u8| ws_byte(b)),
    ensures
        run_end(src, p, |b: u8| ws_byte(b)) == p,
{
    lemma_run_end(src, a, |b: u8| ws_byte(b));
}

/// `acc` in front of the tokens of `r`.
pub open spec fn prepend_toks(
    acc: Seq<(Kind, Seq<char>, int, int)>,
    r: Result<Seq<(Kind, Seq<char>, int, int)>, (Seq<char>, int, int)>,
) -> Result<Seq<(Kind, Seq<char>, int, int)>, (Seq<char>, int, int)> {
    match r {
        Ok(rest) => Ok(acc + rest),
        Err(er) => Err(er),
    }
}

impl Lexer {
    fn token_of(kind: Kind, text: &str, line: usize, col: usize) -> (t: Token)
        ensures
            t.kind == kind,
            t.value@ == text@,
            t.line == line,
            t.column == col,
    {
        Token::new(kind, to_owned_string(text), line, col)
    }

    /// Lexes the token that starts at the current, non-whitespace byte.
    fn next_token(&mut self) -> (r: Result<Token, LexingError>)
        requires
            old(self).wf(),
            old(self).pos < old(self).source@.len(),
        ensures
            old(self).moved_to(final(self), final(self).pos as int),
            r matches Ok(t) ==> token_ok(t) && t.line == old(self).line && t.column == old(self).col
                && t.kind != Kind::EndOfFile,
            r is Ok ==> final(self).pos > old(self).pos,
            r matches Err(e) ==> lex_error_message(e.message@) && e.path == old(self).file_name,
            match lex_token(old(self).source@, old(self).pos as int, old(self).line as int, old(self).col as int) {
                Ok((k, v, e)) => r matches Ok(t) && t.kind == k && t.value@ == v && final(self).pos == e,
                Err((m, l, c)) => r matches Err(er) && er.message@ == m && er.line == l && er.position == c,
            },
    {
        let ghost start = *self;
        let line = self.line;
        let col = self.col;
        let ch = self.source[self.pos];
        if let Some((kind, text)) = punct_token(ch) {
            self.bump();
            return Ok(Self::token_of(kind, text, line, col));
        }
        if ch == 37 {
            self.bump();
            let is_gamevar = self.pos < self.source.len() && (is_alpha(self.source[self.pos])
                || self.source[self.pos] == 95);
            if is_gamevar {
                return Ok(Self::token_of(Kind::GameVar, "%", line, col));
            }
            return Ok(Self::token_of(Kind::BinaryOperator, "%", line, col));
        }
        if ch == 60 || ch == 62 {
            self.bump();
            if self.pos < self.source.len() && self.source[self.pos] == 61 {
                let ghost m = *self;
                self.bump();
                proof {
                    Self::lemma_moved_trans(&start, &m, self);
                }
                return Ok(Self::token_of(Kind::ComparisonOperator, if ch == 60 { "<=" } else { ">=" }, line, col));
            }
            return Ok(Self::token_of(Kind::ComparisonOperator, if ch == 60 { "<" } else { ">" }, line, col));
        }
        if ch == 47 {
            self.bump();
            if self.pos < self.source.len() && self.source[self.pos] == 47 {
                let ghost m = *self;
                self.bump();
                let ghost m2 = *self;
                let comment = self.read_single_line_comment();
                proof {
                    Self::lemma_moved_trans(&start, &m, &m2);
                    Self::lemma_moved_trans(&start, &m2, self);
                }
                return Ok(Token::new(Kind::SingleLineComment, comment, line, col));
            }
            if self.pos < self.source.len() && self.source[self.pos] == 42 {
                let ghost m = *self;
                self.bump();
                let ghost m2 = *self;
                let comment = self.read_multi_line_comment(line, col);
                proof {
                    Self::lemma_moved_trans(&start, &m, &m2);
                    Self::lemma_moved_trans(&start, &m2, self);
                }
                return match comment {
                    Ok(text) => Ok(Token::new(Kind::MultiLineComment, text, line, col)),
                    Err(e) => Err(e),
                };
            }
            return Ok(Self::token_of(Kind::BinaryOperator, "/", line, col));
        }
        if ch == 34 {
            return self.read_string_literal();
        }
        if ch == 39 {
            return self.read_char_literal();
        }
        if ch == 95 {
            let ident_follows = self.pos + 1 < self.source.len() && is_ident(self.source[self.pos + 1]);
            if ident_follows {
                let ident = self.read_identifier();
                proof {
                    lemma_run_end(start.source@, start.pos as int, |b: u8| ident_byte(b));
                }
                let kind = classify_identifier(ident.as_str());
                return Ok(Token::new(kind, ident, line, col));
            }
            self.bump();
            return Ok(Self::token_of(Kind::Underscore, "_", line, col));
        }
        if is_alpha(ch) {
            let ident = self.read_identifier();
            proof {
                lemma_run_end(start.source@, start.pos as int, |b: u8| ident_byte(b));
            }
            let kind = classify_identifier(ident.as_str());
            return Ok(Token::new(kind, ident, line, col));
        }
        if is_digit(ch) {
            return Ok(self.lex_number());
        }
        let mut m = to_owned_string("Unrecognized character '");
        crate::strings::push_char(&mut m, ch as char);
        crate::strings::push_str(&mut m, "'");
        proof {
            reveal_strlit("Unrecognized character '");
            let p = "Unrecognized character '"@;
            assert(m@.take(p.len() as int) =~= p);
            assert(m@ =~= "Unrecognized character '"@ + seq![ch as char] + "'"@);
        }
        Err(LexingError::new(self.file_name.clone(), m, line, col))
    }

    /// Lexes the whole source: the tokens in source order, comments
    /// included, ending with one end-of-file token; or the first lexing error.
    pub fn tokenize(&mut self) -> (r: Result<Vec<Token>, LexingError>)
        requires
            old(self).wf(),
        ensures
            final(self).wf(),
            final(self).src() == old(self).src(),
            r matches Ok(ts) ==> tokens_ok(ts@),
            r matches Err(e) ==> lex_error_message(e.message@) && e.path@ == old(self).path(),
            match lex_from(old(self).src(), old(self).offset(), old(self).cur_line(), old(self).cur_col()) {
                Ok(vs) => r matches Ok(ts) && ts@.map_values(|t: Token| tok_view(t)) == vs,
                Err((m, l, c)) => r matches Err(e) && e.message@ == m && e.line == l && e.position == c,
            },
    {
        let ghost start = *self;
        let ghost target = lex_from(start.source@, start.pos as int, start.line as int, start.col as int);
        let mut tokens: Vec<Token> = Vec::new();
        proof {
            assert(prepend_toks(tokens@.map_values(|t: Token| tok_view(t)), target) == target) by {
                if target is Ok {
                    assert(tokens@.map_values(|t: Token| tok_view(t)) + target->Ok_0 =~= target->Ok_0);
                }
            }
        }
        loop
            invariant
                start.wf(),
                start == *old(self),
                start.moved_to(self, self.pos as int),
                target == lex_from(start.source@, start.pos as int, start.line as int, start.col as int),
                target == prepend_toks(
                    tokens@.map_values(|t: Token| tok_view(t)),
                    lex_from(self.source@, self.pos as int, self.line as int, self.col as int),
                ),
                forall|i: int| 0 <= i < tokens@.len() ==> (#[trigger] tokens@[i]).kind != Kind::EndOfFile,
                forall|i: int| 0 <= i < tokens@.len() ==> token_ok(#[trigger] tokens@[i]),
                forall|i: int, j: int|
                    0 <= i < j < tokens@.len() ==> pos_le(
                        (#[trigger] tokens@[i]).line as int,
                        tokens@[i].column as int,
                        (#[trigger] tokens@[j]).line as int,
                        tokens@[j].column as int,
                    ),
                forall|i: int|
                    0 <= i < tokens@.len() ==> pos_le(
                        (#[trigger] tokens@[i]).line as int,
                        tokens@[i].column as int,
                        self.line as int,
                        self.col as int,
                    ),
            decreases self.source@.len() - self.pos,
        {
            let ghost before = *self;
            let ghost acc = tokens@.map_values(|t: Token| tok_view(t));
            self.skip_whitespace();
            proof {
                Self::lemma_moved_trans(&start, &before, self);
                lemma_pos_after_mono(before.source@, before.pos as int, self.pos as int, before.line as int, before.col as int);
            }
            proof {
                assert(lex_from(before.source@, before.pos as int, before.line as int, before.col as int)
                    == lex_from(self.source@, self.pos as int, self.line as int, self.col as int)) by {
                    lemma_run_end(self.source@, self.pos as int, |b: u8| ws_byte(b));
                    lemma_run_end_idem(self.source@, before.pos as int, self.pos as int);
                }
            }
            if self.pos >= self.source.len() {
                proof {
                    assert(run_end(self.source@, self.pos as int, |b: u8| ws_byte(b)) == self.pos);
                    assert(pos_after(self.source@, self.pos as int, self.pos as int, self.line as int, self.col as int)
                        == (self.line as int, self.col as int));
                }
                let eof = Self::token_of(Kind::EndOfFile, "EOF", self.line, self.col);
                tokens.push(eof);
                proof {
                    assert(tokens@.map_values(|t: Token| tok_view(t)) =~= acc + seq![tok_view(eof)]);
                }
                return Ok(tokens);
            }
            let ghost mid = *self;
            proof {
                assert(run_end(self.source@, self.pos as int, |b: u8| ws_byte(b)) == self.pos) by {
                    lemma_run_end(self.source@, self.pos as int, |b: u8| ws_byte(b));
                    lemma_run_end_idem(self.source@, before.pos as int, self.pos as int);
                }
                assert(pos_after(self.source@, self.pos as int, self.pos as int, self.line as int, self.col as int)
                    == (self.line as int, self.col as int));
            }
            let res = self.next_token();
            let t = match res {
                Ok(t) => t,
                Err(e) => {
                    return Err(e);
                },
            };
            proof {
                Self::lemma_moved_trans(&start, &mid, self);
                lemma_pos_after_mono(mid.source@, mid.pos as int, self.pos as int, mid.line as int, mid.col as int);
            }
            tokens.push(t);
            proof {
                let tv = tok_view(t);
                assert(tokens@.map_values(|t: Token| tok_view(t)) =~= acc.push(tv));
                let rest = lex_from(self.source@, self.pos as int, self.line as int, self.col as int);
                if rest is Ok {
                    assert(acc + (seq![tv] + rest->Ok_0) =~= acc.push(tv) + rest->Ok_0);
                }
            }
        }
    }
}

} // verus!
