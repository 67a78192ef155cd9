//! Diagnostics collected across the compiler phases, and how they render.
use vstd::prelude::*;
use crate::strings::{
    chars_of, int_decimal, is_prefix, push_str, replace_char, replace_char_spec,
    starts_with, str_eq, string_from_range, to_owned_string,
};

verus! {

/// Severity of a diagnostic.
#[derive(Debug, Clone, Copy, PartialEq, Eq, Structural)]
pub enum Severity {
    Error,
    Warning,
    Info,
}

/// How safe it is to apply a suggestion automatically.
#[derive(Debug, Clone, Copy, PartialEq, Eq, Structural)]
pub enum Applicability {
    /// Definitely correct; may be applied without review.
    MachineApplicable,
    /// Likely correct; review before applying.
    MaybeIncorrect,
    /// Holds `<placeholder>` tokens a human must fill in.
    HasPlaceholders,
    /// Confidence unknown.
    Unspecified,
}

/// One text replacement: the inclusive line range `line_range` of `file` is
/// replaced by `replacement`. A pure insertion has `start == end + 1`.
#[derive(Debug)]
pub struct Suggestion {
    pub file: String,
    pub line_range: (usize, usize),
    pub replacement: String,
    /// Optional short label, e.g. "at the call site".
    pub label: Option<String>,
}

/// A help message with optional concrete suggestions.
#[derive(Debug)]
pub struct Help {
    pub message: String,
    pub suggestions: Vec<Suggestion>,
    pub applicability: Applicability,
}

/// A diagnostic message with its source location.
#[derive(Debug)]
pub struct Diagnostic {
    pub file: String,
    pub line: usize,
    pub column: usize,
    pub message: String,
    pub severity: Severity,
    pub phase: Phase,
    /// Help blocks with suggested fixes (often empty).
    pub help: Vec<Help>,
}

/// The compiler phase that produced a diagnostic.
#[derive(Debug, Clone, Copy, PartialEq, Eq, Structural)]
pub enum Phase {
    Lexing,
    Parsing,
    SymbolRegistration,
    TypeChecking,
    CodeGeneration,
    PointerCheck,
}

/// How a path is shown in diagnostics, relative to the working directory
/// `cwd`: separators become `/`; a path under `cwd` loses the `cwd/` prefix;
/// `cwd` itself shows as `.`.
pub open spec fn shown_path(path: Seq<char>, cwd: Seq<char>) -> Seq<char> {
    let p = replace_char_spec(path, '\\', '/');
    let c = replace_char_spec(cwd, '\\', '/');
    let prefix = c.push('/');
    if is_prefix(prefix, p) {
        p.skip(prefix.len() as int)
    } else if p == c {
        seq!['.']
    } else {
        p
    }
}

/// Renders `path` relative to the working directory `cwd` (see [`shown_path`]).
pub fn format_path_in(path: &str, cwd: &str) -> (r: String)
    ensures
        r@ == shown_path(path@, cwd@),
{
    let p = replace_char(path, '\\', '/');
    let c = replace_char(cwd, '\\', '/');
    let mut prefix = c.clone();
    crate::strings::push_char(&mut prefix, '/');
    if starts_with(p.as_str(), prefix.as_str()) {
        let v = chars_of(p.as_str());
        let pv = chars_of(prefix.as_str());
        let rest = string_from_range(&v, pv.len(), v.len());
        assert(v@.subrange(prefix@.len() as int, v@.len() as int) == v@.skip(prefix@.len() as int));
        rest
    } else if str_eq(p.as_str(), c.as_str()) {
        let mut dot = String::new();
        crate::strings::push_char(&mut dot, '.');
        dot
    } else {
        p
    }
}

/// The word for a severity.
pub open spec fn severity_word(s: Severity) -> Seq<char> {
    match s {
        Severity::Error => "error"@,
        Severity::Warning => "warning"@,
        Severity::Info => "info"@,
    }
}

/// The rendered form of a diagnostic: `<severity>: <message>` then
/// `  --> <path>:<line>[:<column>]`, where the column is shown only when it
/// is positive.
pub open spec fn rendered(d: Diagnostic, cwd: Seq<char>) -> Seq<char> {
    severity_word(d.severity) + ": "@ + d.message@ + "\n  --> "@ + shown_path(d.file@, cwd)
        + ":"@ + int_decimal(d.line as int) + if d.column > 0 {
        ":"@ + int_decimal(d.column as int)
    } else {
        Seq::empty()
    }
}

impl Diagnostic {
    /// The diagnostic as the compiler prints it (see [`rendered`]).
    pub fn render(&self, cwd: &str) -> (r: String)
        ensures
            r@ == rendered(*self, cwd@),
    {
        let mut out = to_owned_string(match self.severity {
            Severity::Error => "error",
            Severity::Warning => "warning",
            Severity::Info => "info",
        });
        push_str(&mut out, ": ");
        push_str(&mut out, self.message.as_str());
        push_str(&mut out, "\n  --> ");
        let path = format_path_in(self.file.as_str(), cwd);
        push_str(&mut out, path.as_str());
        push_str(&mut out, ":");
        let line = crate::strings::u64_to_decimal(self.line as u64);
        push_str(&mut out, line.as_str());
        if self.column > 0 {
            push_str(&mut out, ":");
            let col = crate::strings::u64_to_decimal(self.column as u64);
            push_str(&mut out, col.as_str());
        } else {
            assert(out@ + Seq::<char>::empty() == out@);
        }
        out
    }
}

/// The number of diagnostics of severity `sev` in `s`.
pub open spec fn count_severity(s: Seq<Diagnostic>, sev: Severity) -> nat
    decreases s.len(),
{
    if s.len() == 0 {
        0
    } else {
        count_severity(s.drop_last(), sev) + if s.last().severity == sev {
            1nat
        } else {
            0nat
        }
    }
}

proof fn lemma_count_severity_le(s: Seq<Diagnostic>, sev: Severity)
    ensures
        count_severity(s, sev) <= s.len(),
    decreases s.len(),
{
    if s.len() > 0 {
        lemma_count_severity_le(s.drop_last(), sev);
    }
}

/// A collection holds a diagnostic of severity `sev` exactly when its count
/// of that severity is positive: `has_errors` agrees with `error_count() > 0`.
pub proof fn lemma_count_severity_pos(s: Seq<Diagnostic>, sev: Severity)
    ensures
        count_severity(s, sev) > 0 <==> exists|i: int| 0 <= i < s.len() && s[i].severity == sev,
    decreases s.len(),
{
    if s.len() > 0 {
        lemma_count_severity_pos(s.drop_last(), sev);
        if s.last().severity != sev {
            assert forall|i: int| 0 <= i < s.len() && s[i].severity == sev implies exists|j: int|
                0 <= j < s.drop_last().len() && s.drop_last()[j].severity == sev by {
                assert(s.drop_last()[i].severity == sev);
            }
        }
        if exists|i: int| 0 <= i < s.drop_last().len() && s.drop_last()[i].severity == sev {
            let i = choose|i: int| 0 <= i < s.drop_last().len() && s.drop_last()[i].severity == sev;
            assert(s[i].severity == sev);
        }
    }
}

/// Merging collections adds their counts: after `a.merge(b)` the count of
/// every severity is the sum of the two.
pub proof fn lemma_count_severity_concat(a: Seq<Diagnostic>, b: Seq<Diagnostic>, sev: Severity)
    ensures
        count_severity(a + b, sev) == count_severity(a, sev) + count_severity(b, sev),
    decreases b.len(),
{
    if b.len() == 0 {
        assert(a + b =~= a);
    } else {
        lemma_count_severity_concat(a, b.drop_last(), sev);
        assert((a + b).drop_last() =~= a + b.drop_last());
        assert((a + b).last() == b.last());
    }
}

/// Collects diagnostics across all compiler phases, in the order added.
#[derive(Debug)]
pub struct DiagnosticsCollector {
    diagnostics: Vec<Diagnostic>,
}

impl View for DiagnosticsCollector {
    type V = Seq<Diagnostic>;

    closed spec fn view(&self) -> Seq<Diagnostic> {
        self.diagnostics@
    }
}

impl DiagnosticsCollector {
    pub fn new() -> (c: Self)
        ensures
            c@ == Seq::<Diagnostic>::empty(),
    {
        DiagnosticsCollector { diagnostics: Vec::new() }
    }

    /// Appends a diagnostic.
    pub fn add(&mut self, diagnostic: Diagnostic)
        ensures
            final(self)@ == old(self)@.push(diagnostic),
    {
        self.diagnostics.push(diagnostic);
    }

    /// Appends an error without help blocks.
    pub fn error(&mut self, file: String, line: usize, column: usize, message: String, phase: Phase)
        ensures
            final(self)@.len() == old(self)@.len() + 1,
            final(self)@.drop_last() == old(self)@,
            final(self)@.last().file == file,
            final(self)@.last().line == line,
            final(self)@.last().column == column,
            final(self)@.last().message == message,
            final(self)@.last().severity == Severity::Error,
            final(self)@.last().phase == phase,
            final(self)@.last().help@.len() == 0,
    {
        self.add(
            Diagnostic {
                file,
                line,
                column,
                message,
                severity: Severity::Error,
                phase,
                help: Vec::new(),
            },
        );
    }

    /// Appends a warning without help blocks.
    pub fn warning(
        &mut self,
        file: String,
        line: usize,
        column: usize,
        message: String,
        phase: Phase,
    )
        ensures
            final(self)@.len() == old(self)@.len() + 1,
            final(self)@.drop_last() == old(self)@,
            final(self)@.last().file == file,
            final(self)@.last().line == line,
            final(self)@.last().column == column,
            final(self)@.last().message == message,
            final(self)@.last().severity == Severity::Warning,
            final(self)@.last().phase == phase,
            final(self)@.last().help@.len() == 0,
    {
        self.add(
            Diagnostic {
                file,
                line,
                column,
                message,
                severity: Severity::Warning,
                phase,
                help: Vec::new(),
            },
        );
    }

    /// Whether any diagnostic is an error.
    pub fn has_errors(&self) -> (b: bool)
        ensures
            b == exists|i: int| 0 <= i < self@.len() && self@[i].severity == Severity::Error,
    {
        let mut i: usize = 0;
        while i < self.diagnostics.len()
            invariant
                i <= self@.len(),
                forall|j: int| 0 <= j < i ==> self@[j].severity != Severity::Error,
            decreases self@.len() - i,
        {
            if self.diagnostics[i].severity == Severity::Error {
                return true;
            }
            i += 1;
        }
        false
    }

    /// Whether any error came from `phase`.
    pub fn has_errors_in_phase(&self, phase: Phase) -> (b: bool)
        ensures
            b == exists|i: int|
                0 <= i < self@.len() && self@[i].severity == Severity::Error && self@[i].phase
                    == phase,
    {
        let mut i: usize = 0;
        while i < self.diagnostics.len()
            invariant
                i <= self@.len(),
                forall|j: int|
                    0 <= j < i ==> !(self@[j].severity == Severity::Error && self@[j].phase
                        == phase),
            decreases self@.len() - i,
        {
            if self.diagnostics[i].severity == Severity::Error && self.diagnostics[i].phase == phase {
                return true;
            }
            i += 1;
        }
        false
    }

    fn count(&self, sev: Severity) -> (n: usize)
        ensures
            n == count_severity(self@, sev),
    {
        let mut n: usize = 0;
        let mut i: usize = 0;
        while i < self.diagnostics.len()
            invariant
                i <= self@.len(),
                n == count_severity(self@.take(i as int), sev),
                n <= i,
            decreases self@.len() - i,
        {
            assert(self@.take(i + 1).drop_last() == self@.take(i as int));
            if self.diagnostics[i].severity == sev {
                n += 1;
            }
            i += 1;
        }
        assert(self@.take(self@.len() as int) == self@);
        n
    }

    /// The number of errors.
    pub fn error_count(&self) -> (n: usize)
        ensures
            n == count_severity(self@, Severity::Error),
    {
        self.count(Severity::Error)
    }

    /// The number of warnings.
    pub fn warning_count(&self) -> (n: usize)
        ensures
            n == count_severity(self@, Severity::Warning),
    {
        self.count(Severity::Warning)
    }

    /// All diagnostics, in the order added.
    pub fn diagnostics(&self) -> (r: &[Diagnostic])
        ensures
            r@ == self@,
    {
        self.diagnostics.as_slice()
    }

    /// The errors, in the order added.
    pub fn errors(&self) -> (r: Vec<&Diagnostic>)
        ensures
            r@.map_values(|d: &Diagnostic| *d) == self@.filter(
                |d: Diagnostic| d.severity == Severity::Error,
            ),
    {
        let mut r: Vec<&Diagnostic> = Vec::new();
        let mut i: usize = 0;
        while i < self.diagnostics.len()
            invariant
                i <= self@.len(),
                r@.map_values(|d: &Diagnostic| *d) == self@.take(i as int).filter(
                    |d: Diagnostic| d.severity == Severity::Error,
                ),
            decreases self@.len() - i,
        {
            let ghost prev = r@;
            assert(self@.take(i + 1).drop_last() == self@.take(i as int));
            reveal_with_fuel(Seq::filter, 1);
            if self.diagnostics[i].severity == Severity::Error {
                r.push(&self.diagnostics[i]);
                assert(r@.map_values(|d: &Diagnostic| *d) =~= prev.map_values(|d: &Diagnostic| *d).push(
                    self@[i as int],
                ));
            } else {
                assert(r@.map_values(|d: &Diagnostic| *d) =~= prev.map_values(|d: &Diagnostic| *d));
            }
            i += 1;
        }
        assert(self@.take(self@.len() as int) == self@);
        r
    }

    /// Removes every diagnostic.
    pub fn clear(&mut self)
        ensures
            final(self)@ == Seq::<Diagnostic>::empty(),
    {
        self.diagnostics.clear();
    }

    /// Appends all of `other`'s diagnostics after this collector's.
    pub fn merge(&mut self, other: DiagnosticsCollector)
        ensures
            final(self)@ == old(self)@ + other@,
    {
        let mut o = other.diagnostics;
        self.diagnostics.append(&mut o);
    }
}

} // verus!
