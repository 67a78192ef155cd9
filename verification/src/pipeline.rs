//! The compile pipeline over parsed sources: the `#testscript` boundary,
//! script registration, trigger-subject checks, code generation, and the
//! pointer and lint passes. Reading and writing files is left to the caller.
use vstd::prelude::*;
use crate::compiler::{lookup_key, subject_warning, validates, Compiler};
use crate::diagnostic_messages::{
    filled, fmt, SCRIPT_REDECLARATION, SCRIPT_TRIGGER_INVALID, SCRIPT_TRIGGER_NO_RETURNS,
};
use crate::bytecode::{targets_within, CompiledScript};
use crate::diagnostics::{Diagnostic, DiagnosticsCollector, Phase, Severity};
use crate::error::{LexingError, SyntaxError};
use crate::lexer::{lex_error_message, Lexer};
use crate::lints::{lint_findings, run_lints};
use crate::parser::{Parser, ScriptDeclaration, ScriptFile};
use crate::pointer_checker::{script_findings, warnings_about_pointers, PointerChecker};
use crate::source_text::{lines_of, text_lines, trim, trim_chars};
use crate::strings::{
    chars_eq, chars_occur_at, chars_of, is_prefix, occurs_at, push_str, string_from_chars,
    string_from_range, to_owned_string,
};
use crate::strmap::StrMap;
use crate::symbol::{trigger_key, SymbolRegistry};
use crate::trigger_table::{allows_returns, is_valid_trigger, returns_allowed, valid_trigger};
use crate::types::Type;

verus! {

// ── The `#testscript` boundary ─────────────────────────────────────────────

/// Whether a line is the `#testscript` marker (surrounding white space aside).
pub open spec fn is_marker(line: Seq<char>) -> bool {
    trim(line) == "#testscript"@
}

/// The index of the first marker line at or after `k`.
pub open spec fn marker_from(ls: Seq<Seq<char>>, k: int) -> Option<int>
    decreases ls.len() - k,
{
    if k < 0 || k >= ls.len() {
        None
    } else if is_marker(ls[k]) {
        Some(k)
    } else {
        marker_from(ls, k + 1)
    }
}

/// The 1-based line of the first `#testscript` marker of `text`.
pub open spec fn marker_line(text: Seq<char>) -> Option<int> {
    match marker_from(text_lines(text), 0) {
        Some(i) => Some(i + 1),
        None => None,
    }
}

/// `ls` joined with `\n` between consecutive lines.
pub open spec fn join_lines(ls: Seq<Seq<char>>) -> Seq<char>
    decreases ls.len(),
{
    if ls.len() == 0 {
        Seq::empty()
    } else if ls.len() == 1 {
        ls[0]
    } else {
        join_lines(ls.drop_last()) + "\n"@ + ls.last()
    }
}

/// The text before line `line_no` (1-based): its first `line_no - 1` lines.
pub open spec fn lines_before(text: Seq<char>, line_no: int) -> Seq<char> {
    let ls = text_lines(text);
    if line_no - 1 <= ls.len() {
        join_lines(ls.take(line_no - 1))
    } else {
        join_lines(ls)
    }
}

/// A line with the marker blanked out.
pub open spec fn unmarked(line: Seq<char>) -> Seq<char> {
    if is_marker(line) {
        Seq::empty()
    } else {
        line
    }
}

/// `text` with every marker line blanked, lines rejoined with `\n`.
pub open spec fn without_markers(text: Seq<char>) -> Seq<char> {
    join_lines(text_lines(text).map_values(|l: Seq<char>| unmarked(l)))
}

proof fn lemma_join_step(ls: Seq<Seq<char>>, k: int)
    requires
        0 <= k < ls.len(),
    ensures
        join_lines(ls.take(k + 1)) == if k == 0 {
            ls[0]
        } else {
            join_lines(ls.take(k)) + "\n"@ + ls[k]
        },
{
    assert(ls.take(k + 1).drop_last() =~= ls.take(k));
    assert(ls.take(k + 1).last() == ls[k]);
}

fn marker_chars() -> (v: Vec<char>)
    ensures
        v@ == "#testscript"@,
{
    let s = "#testscript";
    proof {
        reveal_strlit("#testscript");
    }
    chars_of(s)
}

fn line_is_marker(line: &Vec<char>, marker: &Vec<char>) -> (b: bool)
    requires
        marker@ == "#testscript"@,
    ensures
        b == is_marker(line@),
{
    let t = trim_chars(line);
    chars_eq(&t, marker)
}

/// The 1-based line of the first `#testscript` marker in `source`.
pub fn find_testscript_line(source: &str) -> (r: Option<usize>)
    ensures
        match r {
            Some(n) => marker_line(source@) == Some(n as int),
            None => marker_line(source@) is None,
        },
{
    let ls = lines_of(source);
    let marker = marker_chars();
    let ghost tl = text_lines(source@);
    let mut i: usize = 0;
    while i < ls.len()
        invariant
            i <= ls@.len(),
            ls@.len() == tl.len(),
            tl == text_lines(source@),
            marker@ == "#testscript"@,
            forall|k: int| 0 <= k < ls@.len() ==> (#[trigger] ls@[k])@ == tl[k],
            marker_from(tl, 0) == marker_from(tl, i as int),
        decreases ls@.len() - i,
    {
        if line_is_marker(&ls[i], &marker) {
            return Some(i + 1);
        }
        i += 1;
    }
    None
}

/// Appends `line` to the `\n`-joined `out`, holding `k` lines so far.
fn push_line(out: &mut Vec<char>, line: &Vec<char>, k: usize)
    ensures
        final(out)@ == if k == 0 {
            old(out)@ + line@
        } else {
            old(out)@ + "\n"@ + line@
        },
{
    let ghost start = out@;
    if k > 0 {
        out.push('\n');
        proof {
            reveal_strlit("\n");
        }
        assert(out@ == start + "\n"@);
    }
    let ghost mid = out@;
    let mut j: usize = 0;
    while j < line.len()
        invariant
            j <= line@.len(),
            out@ == mid + line@.take(j as int),
        decreases line@.len() - j,
    {
        out.push(line[j]);
        assert(line@.take(j + 1) == line@.take(j as int).push(line@[j as int]));
        j += 1;
    }
    assert(line@.take(line@.len() as int) == line@);
}

/// `source` cut before line `line_no` (1-based): its first `line_no - 1`
/// lines joined with `\n`.
pub fn truncate_at_line(source: &str, line_no: usize) -> (r: String)
    requires
        line_no >= 1,
    ensures
        r@ == lines_before(source@, line_no as int),
{
    let ls = lines_of(source);
    let ghost tl = text_lines(source@);
    let n: usize = if line_no - 1 <= ls.len() {
        line_no - 1
    } else {
        ls.len()
    };
    let mut out: Vec<char> = Vec::new();
    let mut k: usize = 0;
    while k < n
        invariant
            k <= n <= ls@.len(),
            ls@.len() == tl.len(),
            forall|i: int| 0 <= i < ls@.len() ==> (#[trigger] ls@[i])@ == tl[i],
            out@ == join_lines(tl.take(k as int)),
        decreases n - k,
    {
        proof {
            lemma_join_step(tl, k as int);
        }
        push_line(&mut out, &ls[k], k);
        k += 1;
    }
    proof {
        if line_no - 1 > ls@.len() {
            assert(tl.take(n as int) =~= tl);
        }
    }
    string_from_chars(&out)
}

/// `source` with every `#testscript` marker line blanked, lines rejoined
/// with `\n`.
pub fn strip_testscript_annotation(source: &str) -> (r: String)
    ensures
        r@ == without_markers(source@),
{
    let ls = lines_of(source);
    let marker = marker_chars();
    let ghost tl = text_lines(source@);
    let ghost ml = tl.map_values(|l: Seq<char>| unmarked(l));
    let empty: Vec<char> = Vec::new();
    let mut out: Vec<char> = Vec::new();
    let mut k: usize = 0;
    while k < ls.len()
        invariant
            k <= ls@.len(),
            ls@.len() == tl.len(),
            ml == tl.map_values(|l: Seq<char>| unmarked(l)),
            marker@ == "#testscript"@,
            empty@.len() == 0,
            forall|i: int| 0 <= i < ls@.len() ==> (#[trigger] ls@[i])@ == tl[i],
            out@ == join_lines(ml.take(k as int)),
        decreases ls@.len() - k,
    {
        proof {
            lemma_join_step(ml, k as int);
        }
        if line_is_marker(&ls[k], &marker) {
            assert(empty@ == ml[k as int]);
            push_line(&mut out, &empty, k);
        } else {
            push_line(&mut out, &ls[k], k);
        }
        k += 1;
    }
    assert(ml.take(ls@.len() as int) =~= ml);
    string_from_chars(&out)
}

// ── Registration ───────────────────────────────────────────────────────────

/// One parsed source file.
#[derive(Debug)]
pub struct ParsedFile {
    /// The path the file was read from, as diagnostics show it.
    pub path: String,
    pub file: ScriptFile,
    /// The 1-based line of its `#testscript` marker, where test sections are kept.
    pub testscript_line: Option<usize>,
    /// The normalized path its compiled scripts record, and the source cache key.
    pub source_path: String,
}

/// What registration reads of one script declaration: its file's path, its
/// trigger, name and line, whether it declares return types, and whether it
/// lies in the file's test section.
pub type Entry = (Seq<char>, Seq<char>, Seq<char>, usize, bool, bool);

/// The registration view of `s`, declared in file `path` with test marker `ts`.
pub open spec fn entry_of(path: Seq<char>, s: ScriptDeclaration, ts: Option<usize>) -> Entry {
    (
        path,
        s.trigger@,
        s.name@,
        s.line,
        s.return_types@.len() > 0,
        ts matches Some(t) && s.line >= t,
    )
}

/// The declarations of one file, in order.
pub open spec fn file_entries(pf: ParsedFile) -> Seq<Entry> {
    pf.file.scripts@.map_values(|s: ScriptDeclaration| entry_of(pf.path@, s, pf.testscript_line))
}

/// The declarations of all files, file by file, in order.
pub open spec fn entries(files: Seq<ParsedFile>) -> Seq<Entry>
    decreases files.len(),
{
    if files.len() == 0 {
        Seq::empty()
    } else {
        entries(files.drop_last()) + file_entries(files.last())
    }
}

/// Whether a declaration is registered (`command` declarations are not).
pub open spec fn registers(e: Entry) -> bool {
    e.1 != "command"@
}

/// The `trigger:name` key of a declaration.
pub open spec fn key_of(e: Entry) -> Seq<char> {
    trigger_key(e.1, e.2)
}

/// Whether a registered declaration before `k` has the key of declaration `k`.
pub open spec fn seen_before(es: Seq<Entry>, k: int) -> bool {
    exists|j: int| 0 <= j < k && registers(es[j]) && key_of(#[trigger] es[j]) == key_of(es[k])
}

/// The warnings registering declaration `k` raises, in order: an unknown
/// trigger, a repeated `[trigger,name]`, return types on a trigger that
/// allows none.
pub open spec fn entry_messages(es: Seq<Entry>, k: int) -> Seq<Seq<char>> {
    let e = es[k];
    if !registers(e) {
        Seq::empty()
    } else {
        (if !valid_trigger(e.1) {
            seq![filled(SCRIPT_TRIGGER_INVALID@, seq![e.1])]
        } else {
            Seq::empty()
        }) + (if seen_before(es, k) {
            seq![filled(SCRIPT_REDECLARATION@, seq![e.1, e.2])]
        } else {
            Seq::empty()
        }) + (if e.4 && !returns_allowed(e.1) {
            seq![filled(SCRIPT_TRIGGER_NO_RETURNS@, seq![e.1])]
        } else {
            Seq::empty()
        })
    }
}

/// A warning to report: file, line and message.
pub type Report = (Seq<char>, usize, Seq<char>);

/// The warnings registering the first `n` declarations raises, in order.
pub open spec fn registration_reports(es: Seq<Entry>, n: int) -> Seq<Report>
    decreases n,
{
    if n <= 0 {
        Seq::empty()
    } else {
        registration_reports(es, n - 1) + entry_messages(es, n - 1).map_values(
            |m: Seq<char>| (es[n - 1].0, es[n - 1].3, m),
        )
    }
}

/// Whether declaration `e` takes a fresh id: it registers and no id was
/// preassigned to its key.
pub open spec fn fresh(e: Entry, pre: Map<Seq<char>, i32>) -> bool {
    registers(e) && !pre.contains_key(key_of(e))
}

/// How many of the first `n` declarations take fresh ids.
pub open spec fn fresh_count(es: Seq<Entry>, n: int, pre: Map<Seq<char>, i32>) -> int
    decreases n,
{
    if n <= 0 {
        0
    } else {
        fresh_count(es, n - 1, pre) + if fresh(es[n - 1], pre) {
            1int
        } else {
            0int
        }
    }
}

/// The keys of the registered test-section declarations among the first `n`.
pub open spec fn test_keys(es: Seq<Entry>, n: int) -> Set<Seq<char>> {
    Set::new(
        |key: Seq<char>|
            exists|j: int| 0 <= j < n && registers(es[j]) && es[j].5 && key_of(#[trigger] es[j]) == key,
    )
}

/// Whether `new` is `old` followed by one warning per report, at column 0,
/// raised in `phase`.
pub open spec fn appended(old: Seq<Diagnostic>, new: Seq<Diagnostic>, reports: Seq<Report>, phase: Phase) -> bool {
    &&& new.len() == old.len() + reports.len()
    &&& new.take(old.len() as int) == old
    &&& forall|j: int|
        0 <= j < reports.len() ==> {
            let d = #[trigger] new[old.len() + j];
            &&& d.file@ == reports[j].0
            &&& d.line == reports[j].1
            &&& d.column == 0
            &&& d.message@ == reports[j].2
            &&& d.severity == Severity::Warning
            &&& d.phase == phase
        }
}

proof fn lemma_appended_trans(
    a: Seq<Diagnostic>,
    b: Seq<Diagnostic>,
    c: Seq<Diagnostic>,
    r1: Seq<Report>,
    r2: Seq<Report>,
    phase: Phase,
)
    requires
        appended(a, b, r1, phase),
        appended(b, c, r2, phase),
    ensures
        appended(a, c, r1 + r2, phase),
{
    assert(c.take(a.len() as int) =~= b.take(a.len() as int));
    assert forall|j: int| 0 <= j < (r1 + r2).len() implies {
        let d = #[trigger] c[a.len() + j];
        &&& d.file@ == (r1 + r2)[j].0
        &&& d.line == (r1 + r2)[j].1
        &&& d.column == 0
        &&& d.message@ == (r1 + r2)[j].2
        &&& d.severity == Severity::Warning
        &&& d.phase == phase
    } by {
        if j < r1.len() {
            assert(c[a.len() + j] == c.take(b.len() as int)[a.len() + j]);
            assert(b[a.len() + j] == c[a.len() + j]);
        } else {
            assert(c[b.len() + (j - r1.len())] == c[a.len() + j]);
        }
    }
}

proof fn lemma_entries_step(files: Seq<ParsedFile>, i: int)
    requires
        0 <= i < files.len(),
    ensures
        entries(files.take(i + 1)) == entries(files.take(i)) + file_entries(files[i]),
{
    assert(files.take(i + 1).drop_last() =~= files.take(i));
    assert(files.take(i + 1).last() == files[i]);
}

proof fn lemma_entries_prefix(files: Seq<ParsedFile>, m: int, n: int)
    requires
        0 <= m <= n <= files.len(),
    ensures
        entries(files.take(m)).len() <= entries(files.take(n)).len(),
        entries(files.take(n)).take(entries(files.take(m)).len() as int) == entries(files.take(m)),
    decreases n,
{
    if m == n {
        assert(entries(files.take(n)).take(entries(files.take(n)).len() as int) =~= entries(files.take(n)));
    } else {
        lemma_entries_prefix(files, m, n - 1);
        lemma_entries_step(files, n - 1);
        assert(entries(files.take(n)).take(entries(files.take(m)).len() as int) =~= entries(
            files.take(n - 1),
        ).take(entries(files.take(m)).len() as int));
    }
}

proof fn lemma_fresh_count_mono(es: Seq<Entry>, m: int, n: int, pre: Map<Seq<char>, i32>)
    requires
        0 <= m <= n,
    ensures
        fresh_count(es, m, pre) <= fresh_count(es, n, pre),
    decreases n,
{
    if m < n {
        lemma_fresh_count_mono(es, m, n - 1, pre);
    }
}

/// `trigger:name`.
fn script_key(trigger: &str, name: &str) -> (k: String)
    ensures
        k@ == trigger_key(trigger@, name@),
{
    let mut k = to_owned_string(trigger);
    push_str(&mut k, ":");
    push_str(&mut k, name);
    proof {
        reveal_strlit(":");
        assert(k@ =~= trigger_key(trigger@, name@));
    }
    k
}

/// The parameter types of `s`, in order.
fn param_types_of(s: &ScriptDeclaration) -> (r: Vec<Type>)
    ensures
        r@ == s.params@.map_values(|p: crate::parser::ParamDef| p.param_type),
{
    let mut r: Vec<Type> = Vec::new();
    let mut i: usize = 0;
    while i < s.params.len()
        invariant
            i <= s.params@.len(),
            r@ == s.params@.take(i as int).map_values(|p: crate::parser::ParamDef| p.param_type),
        decreases s.params@.len() - i,
    {
        r.push(s.params[i].param_type);
        assert(s.params@.take(i + 1).map_values(|p: crate::parser::ParamDef| p.param_type)
            =~= s.params@.take(i as int).map_values(|p: crate::parser::ParamDef| p.param_type).push(
            s.params@[i as int].param_type,
        ));
        i += 1;
    }
    assert(s.params@.take(s.params@.len() as int) =~= s.params@);
    r
}

/// Whether `reg` is `start` after registering the first `n` declarations of
/// `es`: fresh ids were handed out in turn, every registered declaration is
/// filed by name and by `trigger:name`, test-section declarations are marked,
/// and the preassigned ids, commands and entities are untouched.
pub open spec fn registered(start: SymbolRegistry, reg: SymbolRegistry, es: Seq<Entry>, n: int) -> bool {
    &&& reg.next_id() == start.next_id() + fresh_count(es, n, start.preloaded_map())
    &&& reg.preloaded_map() == start.preloaded_map()
    &&& reg.command_map() == start.command_map()
    &&& reg.entity_map() == start.entity_map()
    &&& reg.component_map() == start.component_map()
    &&& forall|j: int|
        0 <= j < n && registers(#[trigger] es[j]) ==> reg.trigger_script_map().contains_key(key_of(es[j]))
            && reg.script_map().contains_key(es[j].2)
    &&& reg.test_script_set() == start.test_script_set().union(test_keys(es, n))
}

spec fn seen_keys(seen: Map<Seq<char>, bool>, es: Seq<Entry>, n: int) -> bool {
    forall|key: Seq<char>|
        #[trigger] seen.contains_key(key) <==> exists|j: int|
            0 <= j < n && registers(es[j]) && key_of(#[trigger] es[j]) == key
}

fn register_entry(
    registry: &mut SymbolRegistry,
    diagnostics: &mut DiagnosticsCollector,
    seen: &mut StrMap<bool>,
    path: &String,
    script: &ScriptDeclaration,
    ts: Option<usize>,
    Ghost(es): Ghost<Seq<Entry>>,
    Ghost(k): Ghost<int>,
    Ghost(start): Ghost<SymbolRegistry>,
    Ghost(start_diags): Ghost<Seq<Diagnostic>>,
) -> (r: bool)
    requires
        0 <= k < es.len(),
        es[k] == entry_of(path@, *script, ts),
        registered(start, *old(registry), es, k),
        appended(start_diags, old(diagnostics)@, registration_reports(es, k), Phase::SymbolRegistration),
        seen_keys(old(seen)@, es, k),
    ensures
        r ==> registered(start, *final(registry), es, k + 1),
        r ==> appended(
            start_diags,
            final(diagnostics)@,
            registration_reports(es, k + 1),
            Phase::SymbolRegistration,
        ),
        r ==> seen_keys(final(seen)@, es, k + 1),
        !r ==> fresh(es[k], start.preloaded_map()) && old(registry).next_id() == i32::MAX,
{
    let ghost e = es[k];
    let ghost pre = start.preloaded_map();
    let ghost d0 = diagnostics@;
    if crate::strings::str_eq(script.trigger.as_str(), "command") {
        proof {
            reveal_strlit("command");
            assert(!registers(e));
            assert(entry_messages(es, k) =~= Seq::<Seq<char>>::empty());
            assert(registration_reports(es, k + 1) =~= registration_reports(es, k));
            assert(test_keys(es, k + 1) =~= test_keys(es, k));
        }
        return true;
    }
    proof {
        reveal_strlit("command");
    }
    assert(registers(e));
    let key = script_key(script.trigger.as_str(), script.name.as_str());
    let preloaded = registry.preloaded_id(script.trigger.as_str(), script.name.as_str());
    if preloaded.is_none() && registry.next_script_id() == i32::MAX {
        return false;
    }
    let trigger = script.trigger.as_str();
    let name = script.name.as_str();
    let ghost mut msgs: Seq<Seq<char>> = Seq::empty();
    if !is_valid_trigger(trigger) {
        let args = [trigger];
        assert(args@.map_values(|a: &str| a@) =~= seq![trigger@]);
        let m = fmt(SCRIPT_TRIGGER_INVALID, &args);
        diagnostics.warning(path.clone(), script.line, 0, m, Phase::SymbolRegistration);
        proof {
            msgs = msgs.push(m@);
        }
    }
    let dup = seen.contains_key(key.as_str());
    proof {
        if dup {
            let j = choose|j: int| 0 <= j < k && registers(es[j]) && key_of(#[trigger] es[j]) == key@;
            assert(seen_before(es, k));
        } else {
            assert(!seen_before(es, k)) by {
                if seen_before(es, k) {
                    let j = choose|j: int| 0 <= j < k && registers(es[j]) && key_of(#[trigger] es[j]) == key_of(es[k]);
                    assert(seen@.contains_key(key@));
                }
            }
        }
    }
    if dup {
        let args = [trigger, name];
        assert(args@.map_values(|a: &str| a@) =~= seq![trigger@, name@]);
        let m = fmt(SCRIPT_REDECLARATION, &args);
        diagnostics.warning(path.clone(), script.line, 0, m, Phase::SymbolRegistration);
        proof {
            msgs = msgs.push(m@);
        }
    }
    seen.insert(key, true);
    if script.return_types.len() > 0 && !allows_returns(trigger) {
        let args = [trigger];
        assert(args@.map_values(|a: &str| a@) =~= seq![trigger@]);
        let m = fmt(SCRIPT_TRIGGER_NO_RETURNS, &args);
        diagnostics.warning(path.clone(), script.line, 0, m, Phase::SymbolRegistration);
        proof {
            msgs = msgs.push(m@);
        }
    }
    proof {
        assert(msgs =~= entry_messages(es, k));
        let reps = entry_messages(es, k).map_values(|m: Seq<char>| (es[k].0, es[k].3, m));
        assert(appended(d0, diagnostics@, reps, Phase::SymbolRegistration)) by {
            assert(diagnostics@.take(d0.len() as int) =~= d0);
        }
        lemma_appended_trans(start_diags, d0, diagnostics@, registration_reports(es, k), reps, Phase::SymbolRegistration);
        assert(registration_reports(es, k + 1) == registration_reports(es, k) + reps);
    }
    let ghost before = *registry;
    let params = param_types_of(script);
    registry.register_script(script.name.clone(), script.trigger.clone(), params, script.return_types.clone());
    let ghost after_reg = *registry;
    let is_test = match ts {
        Some(t) => script.line >= t,
        None => false,
    };
    if is_test {
        registry.mark_test_script(trigger, name);
    }
    proof {
        assert(fresh_count(es, k + 1, pre) == fresh_count(es, k, pre) + if fresh(e, pre) { 1int } else { 0int });
        assert(test_keys(es, k + 1) =~= if e.5 {
            test_keys(es, k).insert(key_of(e))
        } else {
            test_keys(es, k)
        }) by {
            assert forall|x: Seq<char>| #[trigger] test_keys(es, k + 1).contains(x) implies (if e.5 {
                test_keys(es, k).insert(key_of(e))
            } else {
                test_keys(es, k)
            }).contains(x) by {
                let j = choose|j: int| 0 <= j < k + 1 && registers(es[j]) && es[j].5 && key_of(#[trigger] es[j]) == x;
                if j < k {
                    assert(test_keys(es, k).contains(x));
                }
            }
            if e.5 {
                assert(test_keys(es, k + 1).contains(key_of(e))) by {
                    assert(registers(es[k]) && es[k].5 && key_of(es[k]) == key_of(e));
                }
            }
        }
        assert forall|j: int|
            0 <= j < k + 1 && registers(#[trigger] es[j]) implies registry.trigger_script_map().contains_key(key_of(es[j]))
                && registry.script_map().contains_key(es[j].2) by {
            if j < k {
                assert(before.trigger_script_map().contains_key(key_of(es[j])));
                assert(before.script_map().contains_key(es[j].2));
            }
        }
        assert(registry.test_script_set() =~= start.test_script_set().union(test_keys(es, k + 1)));
        assert forall|x: Seq<char>| #[trigger] seen@.contains_key(x) <==> exists|j: int|
            0 <= j < k + 1 && registers(es[j]) && key_of(#[trigger] es[j]) == x by {
            if seen@.contains_key(x) && x != key@ {
                assert(old(seen)@.contains_key(x));
                let j = choose|j: int| 0 <= j < k && registers(es[j]) && key_of(#[trigger] es[j]) == x;
                assert(0 <= j < k + 1 && registers(es[j]) && key_of(es[j]) == x);
            }
            if seen@.contains_key(x) && x == key@ {
                assert(0 <= k < k + 1 && registers(es[k]) && key_of(es[k]) == x);
            }
            if exists|j: int| 0 <= j < k + 1 && registers(es[j]) && key_of(#[trigger] es[j]) == x {
                let j = choose|j: int| 0 <= j < k + 1 && registers(es[j]) && key_of(#[trigger] es[j]) == x;
                if j < k {
                    assert(old(seen)@.contains_key(x));
                }
            }
        }
    }
    true
}

/// Registers every declared script of `files`, file by file, skipping
/// `command` declarations, and warns in turn of an unknown trigger, a
/// `[trigger,name]` declared before, and return types on a trigger that
/// allows none. Scripts below a file's `#testscript` marker are marked as
/// test scripts. Returns `false`, with registration cut short, where the ids
/// to hand out would pass `i32::MAX`.
pub fn register_scripts(
    registry: &mut SymbolRegistry,
    diagnostics: &mut DiagnosticsCollector,
    files: &[ParsedFile],
) -> (r: bool)
    ensures
        r == (old(registry).next_id() + fresh_count(
            entries(files@),
            entries(files@).len() as int,
            old(registry).preloaded_map(),
        ) <= i32::MAX),
        r ==> registered(*old(registry), *final(registry), entries(files@), entries(files@).len() as int),
        r ==> appended(
            old(diagnostics)@,
            final(diagnostics)@,
            registration_reports(entries(files@), entries(files@).len() as int),
            Phase::SymbolRegistration,
        ),
{
    let ghost es = entries(files@);
    let ghost start = *registry;
    let ghost start_diags = diagnostics@;
    let ghost pre = start.preloaded_map();
    let mut seen: StrMap<bool> = StrMap::new();
    proof {
        assert(files@.take(files@.len() as int) =~= files@);
        assert(diagnostics@.take(start_diags.len() as int) =~= start_diags);
        assert(test_keys(es, 0) =~= Set::empty());
        assert(registry.test_script_set() =~= start.test_script_set().union(test_keys(es, 0)));
    }
    let mut i: usize = 0;
    while i < files.len()
        invariant
            i <= files@.len(),
            es == entries(files@),
            pre == start.preloaded_map(),
            start == *old(registry),
            files@.take(files@.len() as int) == files@,
            entries(files@.take(i as int)).len() <= es.len(),
            es.take(entries(files@.take(i as int)).len() as int) == entries(files@.take(i as int)),
            registered(start, *registry, es, entries(files@.take(i as int)).len() as int),
            appended(
                start_diags,
                diagnostics@,
                registration_reports(es, entries(files@.take(i as int)).len() as int),
                Phase::SymbolRegistration,
            ),
            seen_keys(seen@, es, entries(files@.take(i as int)).len() as int),
        decreases files@.len() - i,
    {
        let pf = &files[i];
        let ghost base = entries(files@.take(i as int)).len() as int;
        proof {
            lemma_entries_step(files@, i as int);
            lemma_entries_prefix(files@, i + 1, files@.len() as int);
        }
        let mut j: usize = 0;
        while j < pf.file.scripts.len()
            invariant
                i < files@.len(),
                *pf == files@[i as int],
                j <= pf.file.scripts@.len(),
                es == entries(files@),
                pre == start.preloaded_map(),
                start == *old(registry),
                base == entries(files@.take(i as int)).len(),
                entries(files@.take(i + 1)) == entries(files@.take(i as int)) + file_entries(files@[i as int]),
                entries(files@.take(i + 1)).len() <= es.len(),
                es.take(entries(files@.take(i + 1)).len() as int) == entries(files@.take(i + 1)),
                registered(start, *registry, es, base + j),
                appended(start_diags, diagnostics@, registration_reports(es, base + j), Phase::SymbolRegistration),
                seen_keys(seen@, es, base + j),
            decreases pf.file.scripts@.len() - j,
        {
            let script = &pf.file.scripts[j];
            proof {
                assert(es[base + j] == entries(files@.take(i + 1))[base + j]);
                assert(file_entries(files@[i as int])[j as int] == entry_of(pf.path@, *script, pf.testscript_line));
            }
            let ok = register_entry(
                registry,
                diagnostics,
                &mut seen,
                &pf.path,
                script,
                pf.testscript_line,
                Ghost(es),
                Ghost(base + j),
                Ghost(start),
                Ghost(start_diags),
            );
            if !ok {
                proof {
                    assert(base + j + 1 <= es.len());
                    assert(fresh_count(es, base + j + 1, pre) == fresh_count(es, base + j, pre) + 1);
                    lemma_fresh_count_mono(es, base + j + 1, es.len() as int, pre);
                    assert(start.next_id() + fresh_count(es, base + j, pre) == i32::MAX);
                    assert(start.next_id() + fresh_count(es, es.len() as int, pre) > i32::MAX);
                }
                return false;
            }
            j += 1;
        }
        i += 1;
    }
    true
}

// ── Trigger subjects ───────────────────────────────────────────────────────

/// Whether the subject `name` of a `trigger` script should name an entity
/// and names none that `reg` knows.
pub open spec fn subject_unresolved(reg: SymbolRegistry, trigger: Seq<char>, name: Seq<char>) -> bool {
    &&& name.len() > 0
    &&& name != "_"@
    &&& name[0] != '_'
    &&& validates(trigger)
    &&& lookup_key(reg.entity_map(), reg.component_map(), trigger, name) == -1
}

/// The unresolved-subject warnings for the first `n` declarations of `es`.
pub open spec fn subject_reports(reg: SymbolRegistry, es: Seq<Entry>, n: int) -> Seq<Report>
    decreases n,
{
    if n <= 0 {
        Seq::empty()
    } else {
        let e = es[n - 1];
        subject_reports(reg, es, n - 1) + if subject_unresolved(reg, e.1, e.2) {
            seq![(e.0, e.3, subject_warning(e.1, e.2))]
        } else {
            Seq::empty()
        }
    }
}

/// Warns of every declared script, `command` ones included, whose trigger
/// wants a named entity subject that `registry` does not know.
pub fn validate_trigger_subjects(
    files: &[ParsedFile],
    registry: &SymbolRegistry,
    diagnostics: &mut DiagnosticsCollector,
)
    ensures
        appended(
            old(diagnostics)@,
            final(diagnostics)@,
            subject_reports(*registry, entries(files@), entries(files@).len() as int),
            Phase::SymbolRegistration,
        ),
{
    let ghost es = entries(files@);
    let ghost start_diags = diagnostics@;
    proof {
        assert(files@.take(files@.len() as int) =~= files@);
        assert(diagnostics@.take(start_diags.len() as int) =~= start_diags);
    }
    let mut i: usize = 0;
    while i < files.len()
        invariant
            i <= files@.len(),
            es == entries(files@),
            start_diags == old(diagnostics)@,
            files@.take(files@.len() as int) == files@,
            entries(files@.take(i as int)).len() <= es.len(),
            es.take(entries(files@.take(i as int)).len() as int) == entries(files@.take(i as int)),
            appended(
                start_diags,
                diagnostics@,
                subject_reports(*registry, es, entries(files@.take(i as int)).len() as int),
                Phase::SymbolRegistration,
            ),
        decreases files@.len() - i,
    {
        let pf = &files[i];
        let ghost base = entries(files@.take(i as int)).len() as int;
        proof {
            lemma_entries_step(files@, i as int);
            lemma_entries_prefix(files@, i + 1, files@.len() as int);
        }
        let mut j: usize = 0;
        while j < pf.file.scripts.len()
            invariant
                i < files@.len(),
                *pf == files@[i as int],
                j <= pf.file.scripts@.len(),
                es == entries(files@),
                start_diags == old(diagnostics)@,
                base == entries(files@.take(i as int)).len(),
                entries(files@.take(i + 1)) == entries(files@.take(i as int)) + file_entries(files@[i as int]),
                entries(files@.take(i + 1)).len() <= es.len(),
                es.take(entries(files@.take(i + 1)).len() as int) == entries(files@.take(i + 1)),
                appended(start_diags, diagnostics@, subject_reports(*registry, es, base + j), Phase::SymbolRegistration),
            decreases pf.file.scripts@.len() - j,
        {
            let script = &pf.file.scripts[j];
            let ghost k = base + j;
            proof {
                assert(es[k] == entries(files@.take(i + 1))[k]);
                assert(file_entries(files@[i as int])[j as int] == entry_of(pf.path@, *script, pf.testscript_line));
            }
            let ghost d0 = diagnostics@;
            match Compiler::validate_trigger_subject(script.trigger.as_str(), script.name.as_str(), registry) {
                Some(msg) => {
                    diagnostics.warning(pf.path.clone(), script.line, 0, msg, Phase::SymbolRegistration);
                    proof {
                        let reps = seq![(es[k].0, es[k].3, subject_warning(es[k].1, es[k].2))];
                        assert(appended(d0, diagnostics@, reps, Phase::SymbolRegistration)) by {
                            assert(diagnostics@.take(d0.len() as int) =~= d0);
                        }
                        lemma_appended_trans(start_diags, d0, diagnostics@, subject_reports(*registry, es, k), reps, Phase::SymbolRegistration);
                    }
                },
                None => {
                    proof {
                        assert(subject_reports(*registry, es, k + 1) =~= subject_reports(*registry, es, k));
                    }
                },
            }
            j += 1;
        }
        i += 1;
    }
}

// ── Code generation ────────────────────────────────────────────────────────

/// What code generation produces a script for: the source path recorded in
/// it, its trigger and its name.
pub type Unit = (Seq<char>, Seq<char>, Seq<char>);

/// The non-`command` declarations among the first `n` of `scripts`, each
/// with source path `sp`.
pub open spec fn decl_units(sp: Seq<char>, scripts: Seq<ScriptDeclaration>, n: int) -> Seq<Unit>
    decreases n,
{
    if n <= 0 {
        Seq::empty()
    } else {
        decl_units(sp, scripts, n - 1) + if scripts[n - 1].trigger@ == "command"@ {
            Seq::empty()
        } else {
            seq![(sp, scripts[n - 1].trigger@, scripts[n - 1].name@)]
        }
    }
}

/// The non-`command` declarations of all files, file by file, in order.
pub open spec fn units(files: Seq<ParsedFile>) -> Seq<Unit>
    decreases files.len(),
{
    if files.len() == 0 {
        Seq::empty()
    } else {
        let pf = files.last();
        units(files.drop_last()) + decl_units(pf.source_path@, pf.file.scripts@, pf.file.scripts@.len() as int)
    }
}

/// Whether `c` is the script compiled from `u` against `reg`: its full
/// `[trigger,name]`, trigger, source path, dispatch key and registered id,
/// with every jump landing inside its code.
pub open spec fn compiled_from(c: CompiledScript, u: Unit, reg: SymbolRegistry) -> bool {
    &&& c.name@ == "["@ + u.1 + ","@ + u.2 + "]"@
    &&& c.trigger@ == u.1
    &&& c.source_path@ == u.0
    &&& c.lookup_key == lookup_key(reg.entity_map(), reg.component_map(), u.1, u.2)
    &&& c.id == crate::compiler::compiled_script_id(reg, u.1, u.2)
    &&& c.instructions@.len() > 0
    &&& targets_within(c.instructions@)
}

/// Compiles every non-`command` script of `pf`, in order, recording the
/// file's source path in each.
pub fn compile_file(pf: &ParsedFile, compiler: &mut Compiler) -> (r: Vec<CompiledScript>)
    ensures
        final(compiler).registry_spec() == old(compiler).registry_spec(),
        r@.len() == decl_units(pf.source_path@, pf.file.scripts@, pf.file.scripts@.len() as int).len(),
        forall|m: int|
            0 <= m < r@.len() ==> compiled_from(
                #[trigger] r@[m],
                decl_units(pf.source_path@, pf.file.scripts@, pf.file.scripts@.len() as int)[m],
                old(compiler).registry_spec(),
            ),
{
    let ghost reg = compiler.registry_spec();
    let ghost sp = pf.source_path@;
    let ghost ss = pf.file.scripts@;
    let mut out: Vec<CompiledScript> = Vec::new();
    let mut j: usize = 0;
    while j < pf.file.scripts.len()
        invariant
            j <= ss.len(),
            ss == pf.file.scripts@,
            sp == pf.source_path@,
            reg == old(compiler).registry_spec(),
            compiler.registry_spec() == reg,
            out@.len() == decl_units(sp, ss, j as int).len(),
            forall|m: int| 0 <= m < out@.len() ==> compiled_from(#[trigger] out@[m], decl_units(sp, ss, j as int)[m], reg),
        decreases ss.len() - j,
    {
        let script = &pf.file.scripts[j];
        if crate::strings::str_eq(script.trigger.as_str(), "command") {
            proof {
                reveal_strlit("command");
                assert(decl_units(sp, ss, j + 1) =~= decl_units(sp, ss, j as int));
            }
        } else {
            proof {
                reveal_strlit("command");
            }
            let mut compiled = compiler.compile_script(script);
            compiled.source_path = pf.source_path.clone();
            let ghost before = out@;
            out.push(compiled);
            proof {
                let u = (sp, script.trigger@, script.name@);
                assert(decl_units(sp, ss, j + 1) == decl_units(sp, ss, j as int) + seq![u]);
                assert forall|m: int| 0 <= m < out@.len() implies compiled_from(#[trigger] out@[m], decl_units(sp, ss, j + 1)[m], reg) by {
                    if m < before.len() {
                        assert(out@[m] == before[m]);
                    }
                }
            }
        }
        j += 1;
    }
    out
}

proof fn lemma_units_step(files: Seq<ParsedFile>, i: int)
    requires
        0 <= i < files.len(),
    ensures
        units(files.take(i + 1)) == units(files.take(i)) + decl_units(
            files[i].source_path@,
            files[i].file.scripts@,
            files[i].file.scripts@.len() as int,
        ),
{
    assert(files.take(i + 1).drop_last() =~= files.take(i));
    assert(files.take(i + 1).last() == files[i]);
}

/// Compiles the scripts of all files against `registry`, file by file and
/// in declaration order, and hands the registry back.
pub fn codegen(files: &[ParsedFile], registry: SymbolRegistry) -> (r: (Vec<CompiledScript>, SymbolRegistry))
    ensures
        r.1 == registry,
        r.0@.len() == units(files@).len(),
        forall|m: int| 0 <= m < r.0@.len() ==> compiled_from(#[trigger] r.0@[m], units(files@)[m], registry),
{
    let ghost reg = registry;
    let mut compiler = Compiler::new(registry);
    let mut out: Vec<CompiledScript> = Vec::new();
    let mut i: usize = 0;
    while i < files.len()
        invariant
            i <= files@.len(),
            compiler.registry_spec() == reg,
            out@.len() == units(files@.take(i as int)).len(),
            forall|m: int| 0 <= m < out@.len() ==> compiled_from(#[trigger] out@[m], units(files@.take(i as int))[m], reg),
        decreases files@.len() - i,
    {
        let mut part = compile_file(&files[i], &mut compiler);
        let ghost before = out@;
        let ghost added = part@;
        proof {
            lemma_units_step(files@, i as int);
        }
        out.append(&mut part);
        proof {
            let us = units(files@.take(i + 1));
            assert forall|m: int| 0 <= m < out@.len() implies compiled_from(#[trigger] out@[m], us[m], reg) by {
                if m < before.len() {
                    assert(out@[m] == before[m]);
                } else {
                    assert(out@[m] == added[m - before.len()]);
                }
            }
        }
        i += 1;
    }
    proof {
        assert(files@.take(files@.len() as int) =~= files@);
    }
    (out, compiler.into_registry())
}

/// Whether `r` lists the scripts of `v` by ascending id, scripts of equal id
/// in their order in `v`: `p` maps each position of `r` to the position in
/// `v` it came from.
pub open spec fn stably_sorted(v: Seq<CompiledScript>, r: Seq<CompiledScript>, p: Seq<int>) -> bool {
    &&& r.len() == v.len()
    &&& p.len() == r.len()
    &&& forall|k: int| 0 <= k < p.len() ==> 0 <= #[trigger] p[k] < v.len() && r[k] == v[p[k]]
    &&& forall|a: int, b: int| 0 <= a < b < p.len() ==> #[trigger] p[a] != #[trigger] p[b]
    &&& forall|a: int, b: int| 0 <= a < b < r.len() ==> (#[trigger] r[a]).id <= (#[trigger] r[b]).id
    &&& forall|a: int, b: int|
        0 <= a < b < r.len() && (#[trigger] r[a]).id == (#[trigger] r[b]).id ==> p[a] < p[b]
}

/// `v` ordered by ascending id; scripts of equal id keep their order.
pub fn sort_by_id(v: Vec<CompiledScript>) -> (r: Vec<CompiledScript>)
    ensures
        exists|p: Seq<int>| stably_sorted(v@, r@, p),
{
    let ghost v0 = v@;
    let mut rest = v;
    let mut out: Vec<CompiledScript> = Vec::new();
    let ghost mut p: Seq<int> = Seq::empty();
    while rest.len() > 0
        invariant
            rest@ == v0.take(rest@.len() as int),
            rest@.len() <= v0.len(),
            out@.len() == v0.len() - rest@.len(),
            p.len() == out@.len(),
            forall|k: int| 0 <= k < p.len() ==> rest@.len() <= #[trigger] p[k] < v0.len() && out@[k] == v0[p[k]],
            forall|a: int, b: int| 0 <= a < b < p.len() ==> #[trigger] p[a] != #[trigger] p[b],
            forall|a: int, b: int| 0 <= a < b < out@.len() ==> (#[trigger] out@[a]).id <= (#[trigger] out@[b]).id,
            forall|a: int, b: int|
                0 <= a < b < out@.len() && (#[trigger] out@[a]).id == (#[trigger] out@[b]).id ==> p[a] < p[b],
        decreases rest@.len(),
    {
        let ghost m = rest@.len() - 1;
        let x = rest.pop().unwrap();
        assert(x == v0[m]);
        assert(rest@ =~= v0.take(m));
        let mut pos: usize = 0;
        while pos < out.len() && out[pos].id < x.id
            invariant
                pos <= out@.len(),
                forall|k: int| 0 <= k < pos ==> (#[trigger] out@[k]).id < x.id,
            decreases out@.len() - pos,
        {
            pos += 1;
        }
        let ghost old_out = out@;
        let ghost old_p = p;
        out.insert(pos, x);
        proof {
            p = old_p.insert(pos as int, m);
            assert forall|k: int| 0 <= k < p.len() implies rest@.len() <= #[trigger] p[k] < v0.len() && out@[k] == v0[p[k]] by {
                if k < pos {
                    assert(p[k] == old_p[k]);
                    assert(out@[k] == old_out[k]);
                } else if k == pos {
                } else {
                    assert(p[k] == old_p[k - 1]);
                    assert(out@[k] == old_out[k - 1]);
                }
            }
            assert forall|a: int, b: int| 0 <= a < b < p.len() implies #[trigger] p[a] != #[trigger] p[b] by {
                if a < pos && b < pos {
                    assert(p[a] == old_p[a] && p[b] == old_p[b]);
                } else if a < pos && b == pos {
                    assert(p[a] == old_p[a]);
                } else if a < pos {
                    assert(p[a] == old_p[a] && p[b] == old_p[b - 1]);
                } else if a == pos {
                    assert(p[b] == old_p[b - 1]);
                } else {
                    assert(p[a] == old_p[a - 1] && p[b] == old_p[b - 1]);
                }
            }
            assert forall|a: int, b: int| 0 <= a < b < out@.len() implies (#[trigger] out@[a]).id <= (#[trigger] out@[b]).id by {
                if a < pos && b < pos {
                    assert(out@[a] == old_out[a] && out@[b] == old_out[b]);
                } else if a < pos && b == pos {
                    assert(out@[a] == old_out[a]);
                } else if a < pos {
                    assert(out@[a] == old_out[a] && out@[b] == old_out[b - 1]);
                } else if a == pos {
                    assert(out@[b] == old_out[b - 1]);
                    assert(!(old_out[pos as int].id < x.id));
                    if b - 1 > pos {
                        assert(old_out[pos as int].id <= old_out[b - 1].id);
                    }
                } else {
                    assert(out@[a] == old_out[a - 1] && out@[b] == old_out[b - 1]);
                }
            }
            assert forall|a: int, b: int|
                0 <= a < b < out@.len() && (#[trigger] out@[a]).id == (#[trigger] out@[b]).id implies p[a] < p[b] by {
                if a < pos && b < pos {
                    assert(out@[a] == old_out[a] && out@[b] == old_out[b]);
                    assert(p[a] == old_p[a] && p[b] == old_p[b]);
                } else if a < pos && b == pos {
                    assert(out@[a] == old_out[a]);
                } else if a < pos {
                    assert(out@[a] == old_out[a] && out@[b] == old_out[b - 1]);
                    assert(p[a] == old_p[a] && p[b] == old_p[b - 1]);
                    assert(old_out[a].id < x.id);
                    assert(old_out[pos as int].id >= x.id);
                } else if a == pos {
                    assert(p[b] == old_p[b - 1]);
                } else {
                    assert(out@[a] == old_out[a - 1] && out@[b] == old_out[b - 1]);
                    assert(p[a] == old_p[a - 1] && p[b] == old_p[b - 1]);
                }
            }
        }
    }
    proof {
        assert(stably_sorted(v0, out@, p));
    }
    out
}

// ── Pointer and lint passes ────────────────────────────────────────────────

/// Runs the pointer check over `scripts` and, when `lint` is set, both lints,
/// appending their findings in that order.
pub fn check_pointers(
    lint: bool,
    diagnostics: &mut DiagnosticsCollector,
    source_cache: Option<&StrMap<String>>,
    registry: &SymbolRegistry,
    scripts: &[CompiledScript],
)
    ensures
        exists|p: Seq<Diagnostic>, l: Seq<Diagnostic>|
            {
                &&& final(diagnostics)@ == old(diagnostics)@ + p + l
                &&& script_findings(p, 0, scripts@)
                &&& warnings_about_pointers(p, 0)
                &&& if lint {
                    lint_findings(l, scripts@, source_cache)
                } else {
                    l.len() == 0
                }
            },
{
    let mut checker = PointerChecker::new(scripts, registry);
    match source_cache {
        Some(c) => checker.set_source_cache(c),
        None => {},
    }
    let pointer_diags = checker.run();
    let ghost p = pointer_diags@;
    diagnostics.merge(pointer_diags);
    if lint {
        let lint_diags = run_lints(scripts, source_cache);
        let ghost l = lint_diags@;
        diagnostics.merge(lint_diags);
        proof {
            assert(diagnostics@ == old(diagnostics)@ + p + l);
        }
    } else {
        proof {
            let l = Seq::<Diagnostic>::empty();
            assert(diagnostics@ =~= old(diagnostics)@ + p + l);
        }
    }
}

// ── Preparing and parsing one source ───────────────────────────────────────

/// The text parsed from source `raw`: with test sections kept, `raw` with its
/// markers blanked; otherwise `raw` cut before its first marker.
pub open spec fn prepared_text(raw: Seq<char>, include_tests: bool) -> Seq<char> {
    if include_tests {
        without_markers(raw)
    } else {
        match marker_line(raw) {
            Some(n) => lines_before(raw, n),
            None => raw,
        }
    }
}

/// The text to parse from `raw`, and the marker line the parsed file keeps
/// (only where test sections are kept).
pub fn prepare_source(raw: &str, include_tests: bool) -> (r: (String, Option<usize>))
    ensures
        r.0@ == prepared_text(raw@, include_tests),
        match r.1 {
            Some(n) => include_tests && marker_line(raw@) == Some(n as int),
            None => !include_tests || marker_line(raw@) is None,
        },
{
    let marker = find_testscript_line(raw);
    if include_tests {
        (strip_testscript_annotation(raw), marker)
    } else {
        match marker {
            Some(n) => {
                proof {
                    let ls = text_lines(raw@);
                    lemma_marker_from_range(ls, 0);
                }
                (truncate_at_line(raw, n), None)
            },
            None => (to_owned_string(raw), None),
        }
    }
}

proof fn lemma_marker_from_range(ls: Seq<Seq<char>>, k: int)
    requires
        0 <= k,
    ensures
        marker_from(ls, k) matches Some(i) ==> k <= i < ls.len(),
    decreases ls.len() - k,
{
    if k < ls.len() && !is_marker(ls[k]) {
        lemma_marker_from_range(ls, k + 1);
    }
}

/// The result of lexing and parsing one source.
#[derive(Debug)]
pub enum ParseOutcome {
    Parsed { file: ScriptFile, testscript_line: Option<usize> },
    Error { line: usize, position: usize, message: String, phase: Phase },
}

/// Prepares `raw` (see [`prepare_source`]) and lexes and parses it, naming
/// `path` in errors. `None` where the prepared text is too long for the
/// lexer's offsets.
pub fn parse_source(path: &str, raw: &str, include_tests: bool) -> (r: Option<ParseOutcome>)
    ensures
        r is None <==> prepared_text(raw@, include_tests).len() > 0 && vstd::utf8::encode_utf8(
            prepared_text(raw@, include_tests),
        ).len() + 8 >= usize::MAX,
        r matches Some(ParseOutcome::Parsed { testscript_line, .. }) ==> match testscript_line {
            Some(n) => include_tests && marker_line(raw@) == Some(n as int),
            None => !include_tests || marker_line(raw@) is None,
        },
        r matches Some(ParseOutcome::Error { message, phase, .. }) ==> (phase == Phase::Lexing
            && lex_error_message(message@)) || phase == Phase::Parsing,
        r is Some ==> match crate::lexer::lex_from(
            vstd::utf8::encode_utf8(prepared_text(raw@, include_tests)),
            0,
            1,
            1,
        ) {
            Err((m, l, c)) => r matches Some(ParseOutcome::Error { line, position, message, phase })
                && phase == Phase::Lexing && message@ == m && line == l && position == c,
            Ok(_) => !(r matches Some(ParseOutcome::Error { phase: Phase::Lexing, .. })),
        },
{
    let (text, marker) = prepare_source(raw, include_tests);
    let bytes = text.as_str().as_bytes_vec();
    if bytes.len() >= usize::MAX - 8 {
        proof {
            if text@.len() == 0 {
                assert(vstd::utf8::encode_utf8(text@).len() == 0);
            }
        }
        return None;
    }
    let mut lexer = Lexer::new(text.as_str(), path);
    match lexer.tokenize() {
        Err(e) => Some(ParseOutcome::Error { line: e.line, position: e.position, message: e.message, phase: Phase::Lexing }),
        Ok(tokens) => {
            let mut parser = Parser::new(tokens, path);
            match parser.parse() {
                Ok(file) => Some(ParseOutcome::Parsed { file, testscript_line: marker }),
                Err(e) => Some(ParseOutcome::Error { line: e.line, position: e.position, message: e.message, phase: Phase::Parsing }),
            }
        },
    }
}

/// `s` with every occurrence of `p` from `i` on replaced by `q`, scanning
/// left to right (`str::replace`).
pub open spec fn replaced_from(s: Seq<char>, p: Seq<char>, q: Seq<char>, i: int) -> Seq<char>
    decreases s.len() - i,
{
    if i < 0 || i >= s.len() {
        Seq::empty()
    } else if p.len() > 0 && occurs_at(s, p, i) {
        q + replaced_from(s, p, q, i + p.len())
    } else {
        seq![s[i]] + replaced_from(s, p, q, i + 1)
    }
}

/// The source cache key of a canonical path: without a leading `\\?\`,
/// and with every `\Content\` segment lower-cased.
pub open spec fn cache_key_of(canonical: Seq<char>) -> Seq<char> {
    let s = if is_prefix("\\\\?\\"@, canonical) {
        canonical.skip(4)
    } else {
        canonical
    };
    replaced_from(s, "\\Content\\"@, "\\content\\"@, 0)
}

fn replace_all(v: &Vec<char>, p: &Vec<char>, q: &Vec<char>) -> (r: Vec<char>)
    requires
        p@.len() > 0,
    ensures
        r@ == replaced_from(v@, p@, q@, 0),
{
    let mut out: Vec<char> = Vec::new();
    let mut i: usize = 0;
    while i < v.len()
        invariant
            i <= v@.len(),
            p@.len() > 0,
            out@ + replaced_from(v@, p@, q@, i as int) == replaced_from(v@, p@, q@, 0),
        decreases v@.len() - i,
    {
        let ghost before = out@;
        if chars_occur_at(v, p, i) {
            let mut j: usize = 0;
            while j < q.len()
                invariant
                    j <= q@.len(),
                    out@ == before + q@.take(j as int),
                decreases q@.len() - j,
            {
                out.push(q[j]);
                assert(q@.take(j + 1) == q@.take(j as int).push(q@[j as int]));
                j += 1;
            }
            assert(q@.take(q@.len() as int) == q@);
            proof {
                assert(before + (q@ + replaced_from(v@, p@, q@, i + p@.len())) == out@ + replaced_from(v@, p@, q@, i + p@.len()));
            }
            i = i + p.len();
        } else {
            out.push(v[i]);
            proof {
                assert(before + (seq![v@[i as int]] + replaced_from(v@, p@, q@, i + 1)) == out@ + replaced_from(v@, p@, q@, i + 1));
            }
            i += 1;
        }
    }
    proof {
        assert(replaced_from(v@, p@, q@, i as int) == Seq::<char>::empty());
        assert(out@ + Seq::<char>::empty() == out@);
    }
    out
}

/// The source cache key of a canonical path (see [`cache_key_of`]).
pub fn cache_key(canonical: &str) -> (r: String)
    ensures
        r@ == cache_key_of(canonical@),
{
    let v = chars_of(canonical);
    let unc = chars_of("\\\\?\\");
    let from = chars_of("\\Content\\");
    let to = chars_of("\\content\\");
    proof {
        reveal_strlit("\\\\?\\");
        reveal_strlit("\\Content\\");
        reveal_strlit("\\content\\");
    }
    let w = if chars_occur_at(&v, &unc, 0) {
        proof {
            assert(v@.subrange(0, 4) == v@.take(4));
        }
        let t = string_from_range(&v, 4, v.len());
        proof {
            assert(v@.subrange(4, v@.len() as int) == v@.skip(4));
        }
        chars_of(t.as_str())
    } else {
        proof {
            if is_prefix(unc@, v@) {
                assert(v@.subrange(0, 4) == v@.take(4));
            }
        }
        v
    };
    let r = replace_all(&w, &from, &to);
    string_from_chars(&r)
}

// ── The pipeline ───────────────────────────────────────────────────────────

/// How a run of [`compile_parsed`] ended.
#[derive(Debug)]
pub enum PipelineOutcome {
    /// The compiled scripts, ordered by id.
    Compiled(Vec<CompiledScript>),
    /// Parsing had already reported errors; nothing was compiled.
    ParseFailed,
    /// Registration would hand out ids past `i32::MAX`.
    IdsExhausted,
}

/// Whether some diagnostic of `d` is an error.
pub open spec fn has_error(d: Seq<Diagnostic>) -> bool {
    exists|i: int| 0 <= i < d.len() && d[i].severity == Severity::Error
}

/// Runs the pipeline over parsed `files` with the pack and configuration
/// symbols already in `registry`: stops if parsing reported errors;
/// otherwise registers the scripts, warns of unresolved trigger subjects,
/// compiles every script, orders the result by id, and appends the pointer
/// check's findings and, when `lint` is set, the lints'.
pub fn compile_parsed(
    files: &[ParsedFile],
    registry: &mut SymbolRegistry,
    diagnostics: &mut DiagnosticsCollector,
    lint: bool,
    source_cache: Option<&StrMap<String>>,
) -> (r: PipelineOutcome)
    ensures
        r is ParseFailed <==> has_error(old(diagnostics)@),
        r is IdsExhausted <==> !has_error(old(diagnostics)@) && old(registry).next_id() + fresh_count(
            entries(files@),
            entries(files@).len() as int,
            old(registry).preloaded_map(),
        ) > i32::MAX,
        r is ParseFailed ==> *final(registry) == *old(registry) && final(diagnostics)@ == old(diagnostics)@,
        r matches PipelineOutcome::Compiled(v) ==> {
            &&& registered(*old(registry), *final(registry), entries(files@), entries(files@).len() as int)
            &&& exists|c: Seq<CompiledScript>, order: Seq<int>|
                {
                    &&& c.len() == units(files@).len()
                    &&& forall|m: int| 0 <= m < c.len() ==> compiled_from(#[trigger] c[m], units(files@)[m], *final(registry))
                    &&& stably_sorted(c, v@, order)
                }
            &&& exists|d1: Seq<Diagnostic>, d2: Seq<Diagnostic>, p: Seq<Diagnostic>, l: Seq<Diagnostic>|
                {
                    &&& appended(
                        old(diagnostics)@,
                        d1,
                        registration_reports(entries(files@), entries(files@).len() as int),
                        Phase::SymbolRegistration,
                    )
                    &&& appended(
                        d1,
                        d2,
                        subject_reports(*final(registry), entries(files@), entries(files@).len() as int),
                        Phase::SymbolRegistration,
                    )
                    &&& final(diagnostics)@ == d2 + p + l
                    &&& script_findings(p, 0, v@)
                    &&& if lint {
                        lint_findings(l, v@, source_cache)
                    } else {
                        l.len() == 0
                    }
                }
        },
{
    if diagnostics.has_errors() {
        return PipelineOutcome::ParseFailed;
    }
    if !register_scripts(registry, diagnostics, files) {
        return PipelineOutcome::IdsExhausted;
    }
    let ghost d1 = diagnostics@;
    validate_trigger_subjects(files, registry, diagnostics);
    let ghost d2 = diagnostics@;
    let mut reg = SymbolRegistry::new();
    std::mem::swap(&mut reg, registry);
    let (compiled, reg) = codegen(files, reg);
    *registry = reg;
    let ghost c = compiled@;
    let sorted = sort_by_id(compiled);
    check_pointers(lint, diagnostics, source_cache, registry, sorted.as_slice());
    proof {
        let order = choose|order: Seq<int>| stably_sorted(c, sorted@, order);
        assert(stably_sorted(c, sorted@, order));
    }
    PipelineOutcome::Compiled(sorted)
}

} // verus!
