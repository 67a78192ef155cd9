//! Lint passes over compiled scripts: locals that are never read, and
//! statements that control flow never reaches. Both only add warnings.
use vstd::prelude::*;
use crate::bytecode::{CompiledScript, Instruction, Opcode, Operand};
use crate::diagnostics::{Applicability, Diagnostic, DiagnosticsCollector, Help, Phase, Severity, Suggestion};
use crate::source_text::{find_header_line, header_line_spec, line_count, nth_source_line, short_name_spec, short_script_name};
use crate::strings::{push_str, to_owned_string};
use crate::strmap::StrMap;
use crate::symbol::LocalEntry;
use crate::types::{base_of, BaseVarType};

verus! {

// ── Instruction facts ──────────────────────────────────────────────────────

/// The line of the nearest line marker at or before index `i`; 0 when there is none.
pub open spec fn line_before(ins: Seq<Instruction>, i: int) -> usize
    decreases i + 1,
{
    if i < 0 || i >= ins.len() {
        0
    } else if ins[i].opcode == Opcode::LineNumber && ins[i].operand is Int {
        ins[i].operand->Int_0 as usize
    } else {
        line_before(ins, i - 1)
    }
}

/// The line of the nearest line marker at or before instruction `idx`; 0 when none.
pub fn resolve_line(instructions: &Vec<Instruction>, idx: usize) -> (r: usize)
    requires
        idx < instructions@.len(),
    ensures
        r == line_before(instructions@, idx as int),
{
    let mut i = idx;
    loop
        invariant
            i <= idx,
            idx < instructions@.len(),
            line_before(instructions@, i as int) == line_before(instructions@, idx as int),
        ensures
            line_before(instructions@, idx as int) == 0,
        decreases i,
    {
        if instructions[i].opcode == Opcode::LineNumber {
            if let Operand::Int(line) = instructions[i].operand {
                return line as usize;
            }
        }
        if i == 0 {
            assert(line_before(instructions@, 0) == line_before(instructions@, -1));
            break;
        }
        i = i - 1;
    }
    0
}

/// The first index at or after `from` of an instruction `op` on slot `slot`.
pub open spec fn first_use_from(ins: Seq<Instruction>, op: Opcode, slot: i32, from: int) -> Option<int>
    decreases ins.len() - from,
{
    if from < 0 || from >= ins.len() {
        None
    } else if ins[from].opcode == op && ins[from].operand == Operand::Int(slot) {
        Some(from)
    } else {
        first_use_from(ins, op, slot, from + 1)
    }
}

/// Whether some instruction `op` works on slot `slot`.
pub open spec fn used(ins: Seq<Instruction>, op: Opcode, slot: i32) -> bool {
    first_use_from(ins, op, slot, 0) is Some
}

/// The line of the first instruction `op` on slot `slot`, if there is one.
pub open spec fn first_line(ins: Seq<Instruction>, op: Opcode, slot: i32) -> Option<usize> {
    match first_use_from(ins, op, slot, 0) {
        Some(i) => Some(line_before(ins, i)),
        None => None,
    }
}

fn is_int_operand(o: &Operand, slot: i32) -> (b: bool)
    ensures
        b == (*o == Operand::Int(slot)),
{
    match o {
        Operand::Int(v) => *v == slot,
        _ => false,
    }
}

fn first_use(ins: &Vec<Instruction>, op: Opcode, slot: i32) -> (r: Option<usize>)
    ensures
        match r {
            Some(i) => first_use_from(ins@, op, slot, 0) == Some(i as int) && i < ins@.len(),
            None => first_use_from(ins@, op, slot, 0) is None,
        },
{
    let mut i: usize = 0;
    while i < ins.len()
        invariant
            i <= ins@.len(),
            first_use_from(ins@, op, slot, i as int) == first_use_from(ins@, op, slot, 0),
        decreases ins@.len() - i,
    {
        if ins[i].opcode == op && is_int_operand(&ins[i].operand, slot) {
            return Some(i);
        }
        i += 1;
    }
    None
}

fn line_of_first_use(ins: &Vec<Instruction>, op: Opcode, slot: i32) -> (r: Option<usize>)
    ensures
        r == first_line(ins@, op, slot),
{
    match first_use(ins, op, slot) {
        Some(i) => Some(resolve_line(ins, i)),
        None => None,
    }
}

// ── Unused locals ──────────────────────────────────────────────────────────

/// The number of entries among `s` in the same slot class as an entry with
/// `is_array` and `base`: arrays share one class, other entries one class per base type.
pub open spec fn class_count(s: Seq<LocalEntry>, is_array: bool, base: BaseVarType) -> nat
    decreases s.len(),
{
    if s.len() == 0 {
        0
    } else {
        let e = s.last();
        let same = if is_array { e.is_array } else { !e.is_array && base_of(e.var_type) == base };
        class_count(s.drop_last(), is_array, base) + if same { 1nat } else { 0nat }
    }
}

/// The slot the lint assigns entry `k`.
pub open spec fn lint_slot(entries: Seq<LocalEntry>, k: int) -> int {
    if entries[k].is_array {
        class_count(entries.take(k), true, BaseVarType::Integer) as int
    } else {
        class_count(entries.take(k), false, base_of(entries[k].var_type)) as int
    }
}

/// The opcode that reads a slot of a non-array local of base type `b`.
pub open spec fn read_op(b: BaseVarType) -> Opcode {
    match b {
        BaseVarType::Integer => Opcode::PushIntLocal,
        BaseVarType::String => Opcode::PushStringLocal,
        BaseVarType::Long => Opcode::PushLongLocal,
    }
}

/// The opcode that writes a slot of a non-array local of base type `b`.
pub open spec fn write_op(b: BaseVarType) -> Opcode {
    match b {
        BaseVarType::Integer => Opcode::PopIntLocal,
        BaseVarType::String => Opcode::PopStringLocal,
        BaseVarType::Long => Opcode::PopLongLocal,
    }
}

/// The type word shown for an entry.
pub open spec fn type_word(e: LocalEntry) -> Seq<char> {
    if e.is_array {
        "array"@
    } else {
        match base_of(e.var_type) {
            BaseVarType::Integer => "int"@,
            BaseVarType::String => "string"@,
            BaseVarType::Long => "long"@,
        }
    }
}

/// Whether the entry's slot (`slot`) is read (for an array: touched at all).
pub open spec fn slot_read(ins: Seq<Instruction>, e: LocalEntry, slot: int) -> bool {
    if e.is_array {
        used(ins, Opcode::PushArrayInt, slot as i32) || used(ins, Opcode::PopArrayInt, slot as i32)
    } else {
        used(ins, read_op(base_of(e.var_type)), slot as i32)
    }
}

/// The line an unused entry is reported at: its first write (for an array,
/// its definition), else the header line.
pub open spec fn report_line(ins: Seq<Instruction>, e: LocalEntry, slot: int, header: usize) -> usize {
    let op = if e.is_array { Opcode::DefineArray } else { write_op(base_of(e.var_type)) };
    match first_line(ins, op, slot as i32) {
        Some(l) => l,
        None => header,
    }
}

/// The warning text for an unused entry.
pub open spec fn unused_message(e: LocalEntry) -> Seq<char> {
    let name = "$"@ + e.name@;
    if e.is_param {
        "Parameter `"@ + name + "` ("@ + type_word(e) + ") is declared but never read in this script body."@
    } else {
        "Local `"@ + name + "` ("@ + type_word(e) + ") is assigned but never read."@
    }
}

/// Whether entry `k` is reported: its name does not start with `_` and its
/// slot is never read.
pub open spec fn reported(ins: Seq<Instruction>, entries: Seq<LocalEntry>, k: int) -> bool {
    !(entries[k].name@.len() > 0 && entries[k].name@[0] == '_') && !slot_read(
        ins,
        entries[k],
        lint_slot(entries, k),
    )
}

/// The (line, message) of each unused entry among the first `k`, in order.
pub open spec fn unused_reports(ins: Seq<Instruction>, entries: Seq<LocalEntry>, header: usize, k: int) -> Seq<(usize, Seq<char>)>
    decreases k,
{
    if k <= 0 {
        seq![]
    } else {
        let prev = unused_reports(ins, entries, header, k - 1);
        if reported(ins, entries, k - 1) {
            prev.push(
                (
                    report_line(ins, entries[k - 1], lint_slot(entries, k - 1), header),
                    unused_message(entries[k - 1]),
                ),
            )
        } else {
            prev
        }
    }
}

/// The source text of `path` in the cache, if any.
pub open spec fn cached_source(cache: Option<&StrMap<String>>, path: Seq<char>) -> Option<Seq<char>> {
    match cache {
        Some(c) => if c@.contains_key(path) { Some(c@[path]@) } else { None },
        None => None,
    }
}

/// The line of the first line marker, else 1.
pub open spec fn first_marker_from(ins: Seq<Instruction>, i: int) -> usize
    decreases ins.len() - i,
{
    if i < 0 || i >= ins.len() {
        1
    } else if ins[i].opcode == Opcode::LineNumber && ins[i].operand is Int {
        ins[i].operand->Int_0 as usize
    } else {
        first_marker_from(ins, i + 1)
    }
}

/// The line parameters are reported at: the script's header line in its
/// source where that is known, else the line before the first body line (at least 1).
pub open spec fn header_of(script: &CompiledScript, src: Option<Seq<char>>) -> usize {
    let short = match short_name_spec(script.name@) {
        Some(n) => n,
        None => script.name@,
    };
    let fallback: usize = {
        let first = first_marker_from(script.instructions@, 0);
        if first >= 2 { (first - 1) as usize } else { 1 }
    };
    match src {
        Some(text) => match header_line_spec(text, script.trigger@, short) {
            Some(l) => l as usize,
            None => fallback,
        },
        None => fallback,
    }
}

pub(crate) fn first_marker(ins: &Vec<Instruction>) -> (r: usize)
    ensures
        r == first_marker_from(ins@, 0),
{
    let mut i: usize = 0;
    while i < ins.len()
        invariant
            i <= ins@.len(),
            first_marker_from(ins@, i as int) == first_marker_from(ins@, 0),
        decreases ins@.len() - i,
    {
        if ins[i].opcode == Opcode::LineNumber {
            if let Operand::Int(n) = ins[i].operand {
                return n as usize;
            }
        }
        i += 1;
    }
    1
}

pub(crate) fn source_of<'a>(cache: Option<&'a StrMap<String>>, path: &str) -> (r: Option<&'a String>)
    ensures
        match r {
            Some(s) => cached_source(cache, path@) == Some(s@),
            None => cached_source(cache, path@) is None,
        },
{
    match cache {
        Some(c) => c.get(path),
        None => None,
    }
}

pub(crate) fn header_line_of(script: &CompiledScript, cache: Option<&StrMap<String>>) -> (r: usize)
    ensures
        r == header_of(script, cached_source(cache, script.source_path@)),
{
    let short = match short_script_name(script.name.as_str()) {
        Some(n) => n,
        None => to_owned_string(script.name.as_str()),
    };
    let first = first_marker(&script.instructions);
    let fallback: usize = if first >= 2 { first - 1 } else { 1 };
    match source_of(cache, script.source_path.as_str()) {
        Some(text) => match find_header_line(text.as_str(), script.trigger.as_str(), short.as_str()) {
            Some(l) => l,
            None => fallback,
        },
        None => fallback,
    }
}

fn warning(script: &CompiledScript, line: usize, message: String, help: Help) -> (d: Diagnostic)
    ensures
        d.file@ == script.source_path@,
        d.line == line,
        d.column == 0,
        d.message == message,
        d.severity == Severity::Warning,
        d.phase == Phase::PointerCheck,
{
    let mut helps: Vec<Help> = Vec::new();
    helps.push(help);
    Diagnostic {
        file: to_owned_string(script.source_path.as_str()),
        line,
        column: 0,
        message,
        severity: Severity::Warning,
        phase: Phase::PointerCheck,
        help: helps,
    }
}

/// Whether `new` is `old` followed by one warning per report, at its line
/// and with its message, for the script's source file.
pub open spec fn appended_warnings(old: Seq<Diagnostic>, new: Seq<Diagnostic>, reports: Seq<(usize, Seq<char>)>, path: Seq<char>) -> bool {
    &&& new.len() == old.len() + reports.len()
    &&& new.take(old.len() as int) == old
    &&& forall|j: int|
        0 <= j < reports.len() ==> {
            let d = #[trigger] new[old.len() + j];
            &&& d.line == reports[j].0
            &&& d.message@ == reports[j].1
            &&& d.severity == Severity::Warning
            &&& d.phase == Phase::PointerCheck
            &&& d.file@ == path
            &&& d.column == 0
        }
}

fn emit_unused_local(script: &CompiledScript, diagnostics: &mut DiagnosticsCollector, e: &LocalEntry, line: usize)
    ensures
        final(diagnostics)@.len() == old(diagnostics)@.len() + 1,
        final(diagnostics)@.take(old(diagnostics)@.len() as int) == old(diagnostics)@,
        ({
            let d = final(diagnostics)@[old(diagnostics)@.len() as int];
            &&& d.line == line
            &&& d.message@ == unused_message(*e)
            &&& d.severity == Severity::Warning
            &&& d.phase == Phase::PointerCheck
            &&& d.file@ == script.source_path@
            &&& d.column == 0
        }),
{
    let ty: &str = if e.is_array {
        "array"
    } else {
        match e.var_type.base_type() {
            BaseVarType::Integer => "int",
            BaseVarType::String => "string",
            BaseVarType::Long => "long",
        }
    };
    let mut name = to_owned_string("$");
    push_str(&mut name, e.name.as_str());
    let mut message;
    let mut help_text;
    if e.is_param {
        message = to_owned_string("Parameter `");
        push_str(&mut message, name.as_str());
        push_str(&mut message, "` (");
        push_str(&mut message, ty);
        push_str(&mut message, ") is declared but never read in this script body.");
        help_text = to_owned_string("If `");
        push_str(&mut help_text, name.as_str());
        push_str(
            &mut help_text,
            "` is intentionally part of the signature (e.g. to match a label family), prefix its name with an underscore or remove it from the header if no caller relies on the position.",
        );
    } else {
        message = to_owned_string("Local `");
        push_str(&mut message, name.as_str());
        push_str(&mut message, "` (");
        push_str(&mut message, ty);
        push_str(&mut message, ") is assigned but never read.");
        help_text = to_owned_string("Remove the `def_");
        push_str(&mut help_text, ty);
        push_str(&mut help_text, "` / assignment, or use `");
        push_str(&mut help_text, name.as_str());
        push_str(&mut help_text, "` before it gets overwritten.");
    }
    let help = Help { message: help_text, suggestions: Vec::new(), applicability: Applicability::MaybeIncorrect };
    let d = warning(script, line, message, help);
    let ghost before = diagnostics@;
    diagnostics.add(d);
    proof {
        assert(diagnostics@.take(before.len() as int) =~= before);
    }
}

proof fn lemma_class_count_step(s: Seq<LocalEntry>, k: int, is_array: bool, base: BaseVarType)
    requires
        0 <= k < s.len(),
    ensures
        class_count(s.take(k + 1), is_array, base) == class_count(s.take(k), is_array, base) + if (if is_array {
            s[k].is_array
        } else {
            !s[k].is_array && base_of(s[k].var_type) == base
        }) {
            1nat
        } else {
            0nat
        },
{
    assert(s.take(k + 1).drop_last() =~= s.take(k));
}

/// Warns about each local and parameter that is never read (an array: never
/// touched), skipping names that start with `_`; each warning points at the
/// first write or definition, a parameter at the script header.
pub fn check_unused_locals(script: &CompiledScript, source_cache: Option<&StrMap<String>>, diagnostics: &mut DiagnosticsCollector)
    ensures
        appended_warnings(
            old(diagnostics)@,
            final(diagnostics)@,
            unused_reports(
                script.instructions@,
                script.local_table@,
                header_of(script, cached_source(source_cache, script.source_path@)),
                script.local_table@.len() as int,
            ),
            script.source_path@,
        ),
{
    let header = header_line_of(script, source_cache);
    let entries = script.local_table.entries();
    let ins = &script.instructions;
    let ghost es = script.local_table@;
    let ghost start = diagnostics@;
    let mut int_slot: u64 = 0;
    let mut string_slot: u64 = 0;
    let mut long_slot: u64 = 0;
    let mut array_slot: u64 = 0;
    let mut k: usize = 0;
    proof {
        assert(start.take(start.len() as int) =~= start);
    }
    while k < entries.len()
        invariant
            entries@ == es,
            es == script.local_table@,
            k <= es.len(),
            int_slot == class_count(es.take(k as int), false, BaseVarType::Integer),
            string_slot == class_count(es.take(k as int), false, BaseVarType::String),
            long_slot == class_count(es.take(k as int), false, BaseVarType::Long),
            array_slot == class_count(es.take(k as int), true, BaseVarType::Integer),
            int_slot <= k && string_slot <= k && long_slot <= k && array_slot <= k,
            appended_warnings(start, diagnostics@, unused_reports(ins@, es, header, k as int), script.source_path@),
        decreases es.len() - k,
    {
        let e = &entries[k];
        let suppress = crate::strings::starts_with(e.name.as_str(), "_");
        proof {
            lemma_class_count_step(es, k as int, false, BaseVarType::Integer);
            lemma_class_count_step(es, k as int, false, BaseVarType::String);
            lemma_class_count_step(es, k as int, false, BaseVarType::Long);
            lemma_class_count_step(es, k as int, true, BaseVarType::Integer);
            reveal_strlit("_");
        }
        let slot_u: u64 = if e.is_array {
            array_slot
        } else {
            match e.var_type.base_type() {
                BaseVarType::Integer => int_slot,
                BaseVarType::String => string_slot,
                BaseVarType::Long => long_slot,
            }
        };
        let slot: i32 = slot_u as i32;
        let read = if e.is_array {
            first_use(ins, Opcode::PushArrayInt, slot).is_some() || first_use(ins, Opcode::PopArrayInt, slot).is_some()
        } else {
            let op = match e.var_type.base_type() {
                BaseVarType::Integer => Opcode::PushIntLocal,
                BaseVarType::String => Opcode::PushStringLocal,
                BaseVarType::Long => Opcode::PushLongLocal,
            };
            first_use(ins, op, slot).is_some()
        };
        let ghost before = diagnostics@;
        if !suppress && !read {
            let wop = if e.is_array {
                Opcode::DefineArray
            } else {
                match e.var_type.base_type() {
                    BaseVarType::Integer => Opcode::PopIntLocal,
                    BaseVarType::String => Opcode::PopStringLocal,
                    BaseVarType::Long => Opcode::PopLongLocal,
                }
            };
            let line = match line_of_first_use(ins, wop, slot) {
                Some(l) => l,
                None => header,
            };
            emit_unused_local(script, diagnostics, e, line);
        }
        if e.is_array {
            array_slot = array_slot + 1;
        } else {
            match e.var_type.base_type() {
                BaseVarType::Integer => int_slot = int_slot + 1,
                BaseVarType::String => string_slot = string_slot + 1,
                BaseVarType::Long => long_slot = long_slot + 1,
            }
        }
        proof {
            let reps = unused_reports(ins@, es, header, k as int);
            let reps2 = unused_reports(ins@, es, header, k + 1);
            assert(e.name@.len() > 0 && e.name@[0] == '_' <==> suppress) by {
                if e.name@.len() > 0 {
                    assert(crate::strings::is_prefix("_"@, e.name@) <==> e.name@[0] == '_') by {
                        reveal_strlit("_");
                        assert("_"@ =~= seq!['_']);
                        if e.name@[0] == '_' {
                            assert(e.name@.take(1) =~= "_"@);
                        }
                        if crate::strings::is_prefix("_"@, e.name@) {
                            assert(e.name@.take(1)[0] == e.name@[0]);
                        }
                    }
                }
            }
            assert(lint_slot(es, k as int) == slot_u as int);
            if reported(ins@, es, k as int) {
                assert(reps2 == reps.push((report_line(ins@, es[k as int], lint_slot(es, k as int), header), unused_message(es[k as int]))));
                assert forall|j: int| 0 <= j < reps2.len() implies {
                    let d = #[trigger] diagnostics@[start.len() + j];
                    &&& d.line == reps2[j].0
                    &&& d.message@ == reps2[j].1
                    &&& d.severity == Severity::Warning
                    &&& d.phase == Phase::PointerCheck
                    &&& d.file@ == script.source_path@
                    &&& d.column == 0
                } by {
                    if j < reps.len() {
                        assert(diagnostics@[start.len() + j] == before[start.len() + j]);
                    }
                }
                assert(diagnostics@.take(start.len() as int) =~= start);
            }
        }
        k += 1;
    }
    proof {
        assert(es.take(es.len() as int) =~= es);
    }
}

// ── Unreachable code ───────────────────────────────────────────────────────

/// Conditional and unconditional branches.
pub open spec fn branch_op(op: Opcode) -> bool {
    op == Opcode::Branch || op == Opcode::BranchNot || op == Opcode::BranchEquals || op == Opcode::BranchLessThan
        || op == Opcode::BranchGreaterThan || op == Opcode::BranchLessThanOrEquals || op
        == Opcode::BranchGreaterThanOrEquals || op == Opcode::LongBranchNot || op == Opcode::LongBranchEquals
        || op == Opcode::LongBranchLessThan || op == Opcode::LongBranchGreaterThan || op
        == Opcode::LongBranchLessThanOrEquals || op == Opcode::LongBranchGreaterThanOrEquals || op
        == Opcode::ObjBranchEquals || op == Opcode::ObjBranchNot
}

/// Instructions after which control never falls through.
pub open spec fn terminal_op(op: Opcode) -> bool {
    op == Opcode::Branch || op == Opcode::Return || op == Opcode::Jump || op == Opcode::JumpWithParams
}

pub(crate) fn is_branch_op(op: Opcode) -> (b: bool)
    ensures
        b == branch_op(op),
{
    op == Opcode::Branch || op == Opcode::BranchNot || op == Opcode::BranchEquals || op == Opcode::BranchLessThan
        || op == Opcode::BranchGreaterThan || op == Opcode::BranchLessThanOrEquals || op
        == Opcode::BranchGreaterThanOrEquals || op == Opcode::LongBranchNot || op == Opcode::LongBranchEquals
        || op == Opcode::LongBranchLessThan || op == Opcode::LongBranchGreaterThan || op
        == Opcode::LongBranchLessThanOrEquals || op == Opcode::LongBranchGreaterThanOrEquals || op
        == Opcode::ObjBranchEquals || op == Opcode::ObjBranchNot
}

/// Whether control may pass from instruction `i` to instruction `j`: a line
/// marker passes to the next instruction; a branch to its target; a switch
/// to each target of its table; any instruction but a terminal one to the next.
pub open spec fn flows(ins: Seq<Instruction>, i: int, j: int) -> bool {
    &&& 0 <= i < ins.len()
    &&& 0 <= j < ins.len()
    &&& if ins[i].opcode == Opcode::LineNumber {
        j == i + 1
    } else {
        ||| (branch_op(ins[i].opcode) && ins[i].operand == Operand::JumpTarget(j as usize))
        ||| (ins[i].opcode == Opcode::Switch && ins[i].operand is SwitchTable && exists|k: int|
            0 <= k < ins[i].operand->SwitchTable_0@.len() && (#[trigger] ins[i].operand->SwitchTable_0@[k]).1 == j)
        ||| (!terminal_op(ins[i].opcode) && j == i + 1)
    }
}

/// Whether instruction `j` is reached from the entry in at most `n` steps.
pub open spec fn reach_in(ins: Seq<Instruction>, j: int, n: nat) -> bool
    decreases n,
{
    if n == 0 {
        ins.len() > 0 && j == 0
    } else {
        reach_in(ins, j, (n - 1) as nat) || exists|i: int| reach_in(ins, i, (n - 1) as nat) && #[trigger] flows(ins, i, j)
    }
}

/// Whether control can reach instruction `j` from the entry.
pub open spec fn reachable(ins: Seq<Instruction>, j: int) -> bool {
    exists|n: nat| #[trigger] reach_in(ins, j, n)
}

/// Every target of a reachable `switch` instruction's table that lies within
/// the code is reachable: the case bodies a switch dispatches to are never
/// unreachable code.
pub proof fn lemma_switch_targets_reachable(ins: Seq<Instruction>, i: int, k: int)
    requires
        0 <= i < ins.len(),
        reachable(ins, i),
        ins[i].opcode == Opcode::Switch,
        ins[i].operand is SwitchTable,
        0 <= k < ins[i].operand->SwitchTable_0@.len(),
        ins[i].operand->SwitchTable_0@[k].1 < ins.len(),
    ensures
        reachable(ins, ins[i].operand->SwitchTable_0@[k].1 as int),
{
    let j = ins[i].operand->SwitchTable_0@[k].1 as int;
    let n = choose|n: nat| #[trigger] reach_in(ins, i, n);
    assert(flows(ins, i, j));
    assert(reach_in(ins, j, n + 1));
}

/// The entry instruction is reachable; from a reachable instruction, control
/// reaches the target of a branch that lies within the code, and the next
/// instruction after a line marker or after any instruction that is not a
/// `branch`, `return` or `jump`.
pub proof fn lemma_branch_and_fallthrough_reachable(ins: Seq<Instruction>, i: int)
    requires
        0 <= i < ins.len(),
    ensures
        reachable(ins, 0),
        reachable(ins, i) && branch_op(ins[i].opcode) && ins[i].operand is JumpTarget
            && ins[i].operand->JumpTarget_0 < ins.len() ==> reachable(ins, ins[i].operand->JumpTarget_0 as int),
        reachable(ins, i) && i + 1 < ins.len() && (ins[i].opcode == Opcode::LineNumber || !terminal_op(
            ins[i].opcode,
        )) ==> reachable(ins, i + 1),
{
    assert(reach_in(ins, 0, 0));
    if reachable(ins, i) {
        let n = choose|n: nat| #[trigger] reach_in(ins, i, n);
        if branch_op(ins[i].opcode) && ins[i].operand is JumpTarget && ins[i].operand->JumpTarget_0 < ins.len() {
            let t = ins[i].operand->JumpTarget_0 as int;
            assert(flows(ins, i, t));
            assert(reach_in(ins, t, n + 1));
        }
        if i + 1 < ins.len() && (ins[i].opcode == Opcode::LineNumber || !terminal_op(ins[i].opcode)) {
            assert(flows(ins, i, i + 1));
            assert(reach_in(ins, i + 1, n + 1));
        }
    }
}

/// Whether `j` is among the indices `r`.
pub open spec fn listed(r: Seq<usize>, j: int) -> bool {
    exists|k: int| 0 <= k < r.len() && #[trigger] r[k] == j
}

/// The table targets below `n` among the first `k` entries, in order.
pub open spec fn table_targets(t: Seq<(i32, usize)>, k: int, n: int) -> Seq<usize>
    decreases k,
{
    if k <= 0 {
        seq![]
    } else if t[k - 1].1 < n {
        table_targets(t, k - 1, n).push(t[k - 1].1)
    } else {
        table_targets(t, k - 1, n)
    }
}

proof fn lemma_table_targets(t: Seq<(i32, usize)>, k: int, n: int, j: int)
    requires
        0 <= k <= t.len(),
    ensures
        listed(table_targets(t, k, n), j) <==> (0 <= j < n && exists|q: int| 0 <= q < k && (#[trigger] t[q]).1 as int == j),
        forall|m: int| 0 <= m < table_targets(t, k, n).len() ==> #[trigger] table_targets(t, k, n)[m] < n,
    decreases k,
{
    if k > 0 {
        lemma_table_targets(t, k - 1, n, j);
        let p = table_targets(t, k - 1, n);
        if t[k - 1].1 < n {
            let r = p.push(t[k - 1].1);
            if listed(r, j) {
                let m = choose|m: int| 0 <= m < r.len() && #[trigger] r[m] == j;
                if m < p.len() {
                    assert(p[m] == j);
                } else {
                    assert(t[k - 1].1 as int == j);
                }
            }
            if 0 <= j < n && exists|q: int| 0 <= q < k && (#[trigger] t[q]).1 as int == j {
                let q = choose|q: int| 0 <= q < k && (#[trigger] t[q]).1 as int == j;
                if q < k - 1 {
                    let m = choose|m: int| 0 <= m < p.len() && #[trigger] p[m] == j;
                    assert(r[m] == j);
                } else {
                    assert(r[r.len() - 1] == j);
                }
            }
        }
    }
}

proof fn lemma_has_concat(a: Seq<usize>, b: Seq<usize>, j: int)
    ensures
        listed(a + b, j) <==> listed(a, j) || listed(b, j),
{
    if listed(a + b, j) {
        let m = choose|m: int| 0 <= m < (a + b).len() && #[trigger] (a + b)[m] == j;
        if m < a.len() {
            assert(a[m] == j);
        } else {
            assert(b[m - a.len()] == j);
        }
    }
    if listed(a, j) {
        let m = choose|m: int| 0 <= m < a.len() && #[trigger] a[m] == j;
        assert((a + b)[m] == j);
    }
    if listed(b, j) {
        let m = choose|m: int| 0 <= m < b.len() && #[trigger] b[m] == j;
        assert((a + b)[a.len() + m] == j);
    }
}

/// The successors of instruction `i`.
fn successors(ins: &Vec<Instruction>, i: usize) -> (r: Vec<usize>)
    requires
        i < ins@.len(),
    ensures
        forall|j: int| flows(ins@, i as int, j) <==> listed(r@, j),
        forall|k: int| 0 <= k < r@.len() ==> #[trigger] r@[k] < ins@.len(),
{
    let n = ins.len();
    let op = ins[i].opcode;
    let mut r: Vec<usize> = Vec::new();
    if op == Opcode::LineNumber {
        if i + 1 < n {
            r.push(i + 1);
        }
        proof {
            assert forall|j: int| flows(ins@, i as int, j) <==> listed(r@, j) by {
                if listed(r@, j) {
                    let m = choose|m: int| 0 <= m < r@.len() && #[trigger] r@[m] == j;
                    assert(r@[m] == i + 1);
                }
                if flows(ins@, i as int, j) {
                    assert(r@[0] == j);
                }
            }
        }
        return r;
    }
    let mut b: Vec<usize> = Vec::new();
    if is_branch_op(op) {
        if let Operand::JumpTarget(t) = ins[i].operand {
            if t < n {
                b.push(t);
            }
        }
    }
    let mut sw: Vec<usize> = Vec::new();
    let ghost mut table_seq: Seq<(i32, usize)> = seq![];
    if op == Opcode::Switch {
        if let Operand::SwitchTable(table) = &ins[i].operand {
            proof {
                table_seq = table@;
            }
            let mut k: usize = 0;
            while k < table.len()
                invariant
                    k <= table@.len(),
                    table_seq == table@,
                    sw@ == table_targets(table@, k as int, n as int),
                decreases table@.len() - k,
            {
                let t = table[k].1;
                if t < n {
                    sw.push(t);
                }
                k += 1;
            }
        }
    }
    let mut f: Vec<usize> = Vec::new();
    let terminal = op == Opcode::Branch || op == Opcode::Return || op == Opcode::Jump || op == Opcode::JumpWithParams;
    if !terminal && i + 1 < n {
        f.push(i + 1);
    }
    let ghost bs = b@;
    let ghost ss = sw@;
    let ghost fs = f@;
    r.append(&mut b);
    r.append(&mut sw);
    r.append(&mut f);
    proof {
        assert(r@ =~= bs + ss + fs);
        assert forall|j: int| flows(ins@, i as int, j) <==> listed(r@, j) by {
            lemma_has_concat(bs + ss, fs, j);
            lemma_has_concat(bs, ss, j);
            if op == Opcode::Switch && ins@[i as int].operand is SwitchTable {
                lemma_table_targets(table_seq, table_seq.len() as int, n as int, j);
            } else {
                assert(ss.len() == 0);
            }
            if listed(bs, j) {
                let m = choose|m: int| 0 <= m < bs.len() && #[trigger] bs[m] == j;
                assert(bs[m] == j);
            }
            if listed(fs, j) {
                let m = choose|m: int| 0 <= m < fs.len() && #[trigger] fs[m] == j;
                assert(fs[m] == j);
            }
            if flows(ins@, i as int, j) {
                if branch_op(op) && ins@[i as int].operand == Operand::JumpTarget(j as usize) {
                    assert(bs[0] == j);
                } else if !terminal_op(op) && j == i + 1 {
                    assert(fs[0] == j);
                }
            }
        }
        assert forall|k: int| 0 <= k < r@.len() implies #[trigger] r@[k] < ins@.len() by {
            if op == Opcode::Switch && ins@[i as int].operand is SwitchTable {
                lemma_table_targets(table_seq, table_seq.len() as int, n as int, 0);
            }
            if k < bs.len() {
            } else if k < bs.len() + ss.len() {
                assert(r@[k] == ss[k - bs.len()]);
            } else {
            }
        }
    }
    r
}

/// The number of unmarked entries.
pub open spec fn count_false(s: Seq<bool>) -> nat
    decreases s.len(),
{
    if s.len() == 0 {
        0
    } else {
        count_false(s.drop_last()) + if s.last() { 0nat } else { 1nat }
    }
}

pub(crate) proof fn lemma_count_false_update(s: Seq<bool>, k: int)
    requires
        0 <= k < s.len(),
        !s[k],
    ensures
        count_false(s.update(k, true)) + 1 == count_false(s),
    decreases s.len(),
{
    if k < s.len() - 1 {
        lemma_count_false_update(s.drop_last(), k);
        assert(s.update(k, true).drop_last() =~= s.drop_last().update(k, true));
    } else {
        assert(s.update(k, true).drop_last() =~= s.drop_last());
    }
}

proof fn lemma_reach_step(ins: Seq<Instruction>, i: int, j: int)
    requires
        reachable(ins, i),
        flows(ins, i, j),
    ensures
        reachable(ins, j),
{
    let n = choose|n: nat| #[trigger] reach_in(ins, i, n);
    let m: nat = n + 1;
    assert((m - 1) as nat == n);
    assert(reach_in(ins, j, m));
}

proof fn lemma_closed_complete(ins: Seq<Instruction>, marked: Seq<bool>, n: nat)
    requires
        marked.len() == ins.len(),
        ins.len() > 0 ==> marked[0],
        forall|i: int, j: int| 0 <= i < ins.len() && marked[i] && #[trigger] flows(ins, i, j) ==> marked[j],
    ensures
        forall|j: int| #[trigger] reach_in(ins, j, n) ==> marked[j],
    decreases n,
{
    if n > 0 {
        lemma_closed_complete(ins, marked, (n - 1) as nat);
        assert forall|j: int| #[trigger] reach_in(ins, j, n) implies marked[j] by {
            if !reach_in(ins, j, (n - 1) as nat) {
                let i = choose|i: int| reach_in(ins, i, (n - 1) as nat) && #[trigger] flows(ins, i, j);
                assert(marked[i]);
            }
        }
    }
}

/// Which instructions control can reach from the entry.
fn reachability(ins: &Vec<Instruction>) -> (marked: Vec<bool>)
    ensures
        marked@.len() == ins@.len(),
        forall|j: int| 0 <= j < ins@.len() ==> (marked@[j] <==> reachable(ins@, j)),
{
    let n = ins.len();
    let mut marked: Vec<bool> = Vec::new();
    let mut z: usize = 0;
    while z < n
        invariant
            z <= n,
            n == ins@.len(),
            marked@.len() == z,
            forall|q: int| 0 <= q < z ==> !#[trigger] marked@[q],
        decreases n - z,
    {
        marked.push(false);
        z += 1;
    }
    if n == 0 {
        return marked;
    }
    let mut work: Vec<usize> = Vec::new();
    marked.set(0, true);
    work.push(0);
    proof {
        assert(reach_in(ins@, 0, 0));
        assert(work@[0] == 0);
        assert(listed(work@, 0));
    }
    while work.len() > 0
        invariant
            n == ins@.len(),
            n > 0,
            marked@.len() == n,
            marked@[0],
            forall|j: int| 0 <= j < n && #[trigger] marked@[j] ==> reachable(ins@, j),
            forall|k: int| 0 <= k < work@.len() ==> #[trigger] work@[k] < n && marked@[work@[k] as int],
            forall|i: int, j: int|
                0 <= i < n && marked@[i] && !listed(work@, i) && #[trigger] flows(ins@, i, j) ==> marked@[j],
        decreases count_false(marked@), work@.len(),
    {
        let ghost work_before_pop = work@;
        let i = work.pop().unwrap();
        let ghost work_after_pop = work@;
        proof {
            assert forall|a: int| a != i && listed(work_before_pop, a) implies listed(work_after_pop, a) by {
                let m = choose|m: int| 0 <= m < work_before_pop.len() && #[trigger] work_before_pop[m] == a;
                if m < work_after_pop.len() {
                    assert(work_after_pop[m] == a);
                }
            }
        }
        let succ = successors(ins, i);
        let ghost before = marked@;
        let mut k: usize = 0;
        while k < succ.len()
            invariant
                n == ins@.len(),
                i < n,
                marked@.len() == n,
                marked@[0],
                marked@[i as int],
                forall|j: int| flows(ins@, i as int, j) <==> listed(succ@, j),
                forall|q: int| 0 <= q < succ@.len() ==> #[trigger] succ@[q] < n,
                forall|q: int| 0 <= q < k ==> marked@[#[trigger] succ@[q] as int],
                forall|j: int| 0 <= j < n && #[trigger] marked@[j] ==> reachable(ins@, j),
                forall|q: int| 0 <= q < work@.len() ==> #[trigger] work@[q] < n && marked@[work@[q] as int],
                forall|a: int, j: int|
                    0 <= a < n && a != i && marked@[a] && !listed(work@, a) && #[trigger] flows(ins@, a, j) ==> marked@[j],
                count_false(marked@) <= count_false(before),
                count_false(marked@) == count_false(before) ==> work@ == work_after_pop,
                work@.len() >= work_after_pop.len(),
                forall|q: int| 0 <= q < work_after_pop.len() ==> work@[q] == work_after_pop[q],
            decreases succ@.len() - k,
        {
            let sj = succ[k];
            if !marked[sj] {
                proof {
                    assert(listed(succ@, sj as int)) by {
                        assert(succ@[k as int] == sj);
                    }
                    lemma_reach_step(ins@, i as int, sj as int);
                    lemma_count_false_update(marked@, sj as int);
                }
                let ghost before_push = work@;
                let ghost marked_before = marked@;
                marked.set(sj, true);
                work.push(sj);
                proof {
                    assert(work@[work@.len() - 1] == sj);
                    assert(listed(work@, sj as int));
                    assert forall|a: int| listed(before_push, a) implies listed(work@, a) by {
                        let m = choose|m: int| 0 <= m < before_push.len() && #[trigger] before_push[m] == a;
                        assert(work@[m] == a);
                    }
                    assert forall|a: int, j: int|
                        0 <= a < n && a != i && marked@[a] && !listed(work@, a) && #[trigger] flows(ins@, a, j) implies marked@[j] by {
                        if a != sj as int {
                            assert(marked_before[a]);
                            assert(!listed(before_push, a));
                            assert(marked_before[j]);
                        }
                    }
                }
            }
            k += 1;
        }
        proof {
            assert forall|a: int, j: int|
                0 <= a < n && marked@[a] && !listed(work@, a) && #[trigger] flows(ins@, a, j) implies marked@[j] by {
                if a == i {
                    assert(flows(ins@, i as int, j));
                    assert(listed(succ@, j));
                    let q = choose|q: int| 0 <= q < succ@.len() && #[trigger] succ@[q] == j;
                    assert(marked@[succ@[q] as int]);
                }
            }
        }
    }
    proof {
        assert forall|i: int, j: int| 0 <= i < ins@.len() && marked@[i] && #[trigger] flows(ins@, i, j) implies marked@[j] by {
            assert(!listed(work@, i));
        }
        assert forall|j: int| 0 <= j < ins@.len() implies (marked@[j] <==> reachable(ins@, j)) by {
            if reachable(ins@, j) {
                let m = choose|m: nat| #[trigger] reach_in(ins@, j, m);
                lemma_closed_complete(ins@, marked@, m);
            }
        }
    }
    marked
}

/// The first instruction at or after `i` that is not a line marker.
pub open spec fn next_real_from(ins: Seq<Instruction>, i: int) -> Option<int>
    decreases ins.len() - i,
{
    if i < 0 || i >= ins.len() {
        None
    } else if ins[i].opcode != Opcode::LineNumber {
        Some(i)
    } else {
        next_real_from(ins, i + 1)
    }
}

/// The lines reported as unreachable among the first `k` instructions: each
/// line marker whose next real instruction control cannot reach, each line once.
pub open spec fn unreachable_lines(ins: Seq<Instruction>, k: int) -> Seq<usize>
    decreases k,
{
    if k <= 0 {
        seq![]
    } else {
        let prev = unreachable_lines(ins, k - 1);
        let i = k - 1;
        if ins[i].opcode == Opcode::LineNumber && ins[i].operand is Int && (match next_real_from(ins, i + 1) {
            Some(j) => !reachable(ins, j),
            None => false,
        }) && !prev.contains(ins[i].operand->Int_0 as usize) {
            prev.push(ins[i].operand->Int_0 as usize)
        } else {
            prev
        }
    }
}

/// The message of an unreachable-code warning.
pub open spec fn unreachable_message() -> Seq<char> {
    "Unreachable code: this line cannot be executed because control flow never reaches it (a preceding `return`, `@jump`, or unconditional branch prevents fallthrough)."@
}

pub(crate) fn next_real(ins: &Vec<Instruction>, from: usize) -> (r: Option<usize>)
    ensures
        match r {
            Some(j) => next_real_from(ins@, from as int) == Some(j as int) && j < ins@.len(),
            None => next_real_from(ins@, from as int) is None,
        },
{
    let mut j = from;
    while j < ins.len()
        invariant
            from <= j,
            next_real_from(ins@, j as int) == next_real_from(ins@, from as int),
        decreases ins@.len() - j,
    {
        if ins[j].opcode != Opcode::LineNumber {
            return Some(j);
        }
        j += 1;
    }
    None
}

pub(crate) fn usize_in(v: &Vec<usize>, x: usize) -> (b: bool)
    ensures
        b == v@.contains(x),
{
    let mut k: usize = 0;
    while k < v.len()
        invariant
            k <= v@.len(),
            forall|q: int| 0 <= q < k ==> v@[q] != x,
        decreases v@.len() - k,
    {
        if v[k] == x {
            assert(v@[k as int] == x);
            return true;
        }
        k += 1;
    }
    false
}

fn emit_unreachable(script: &CompiledScript, cache: Option<&StrMap<String>>, diagnostics: &mut DiagnosticsCollector, line: usize)
    ensures
        final(diagnostics)@.len() == old(diagnostics)@.len() + 1,
        final(diagnostics)@.take(old(diagnostics)@.len() as int) == old(diagnostics)@,
        ({
            let d = final(diagnostics)@[old(diagnostics)@.len() as int];
            &&& d.line == line
            &&& d.message@ == unreachable_message()
            &&& d.severity == Severity::Warning
            &&& d.phase == Phase::PointerCheck
            &&& d.file@ == script.source_path@
            &&& d.column == 0
        }),
{
    let message = to_owned_string(
        "Unreachable code: this line cannot be executed because control flow never reaches it (a preceding `return`, `@jump`, or unconditional branch prevents fallthrough).",
    );
    let mut suggestions: Vec<Suggestion> = Vec::new();
    if let Some(src) = source_of(cache, script.source_path.as_str()) {
        if nth_source_line(src.as_str(), line).is_some() {
            suggestions.push(
                Suggestion {
                    file: to_owned_string(script.source_path.as_str()),
                    line_range: (line, line),
                    replacement: String::new(),
                    label: Some(to_owned_string("remove the unreachable statement")),
                },
            );
        }
    }
    let help = Help {
        message: to_owned_string(
            "Remove the dead statement, or move it before the preceding terminal instruction if it was meant to run.",
        ),
        suggestions,
        applicability: Applicability::MaybeIncorrect,
    };
    let d = warning(script, line, message, help);
    let ghost before = diagnostics@;
    diagnostics.add(d);
    proof {
        assert(diagnostics@.take(before.len() as int) =~= before);
    }
}

/// Warns, once per line, about each statement whose first instruction
/// control flow cannot reach from the script's entry.
pub fn check_unreachable_code(script: &CompiledScript, source_cache: Option<&StrMap<String>>, diagnostics: &mut DiagnosticsCollector)
    ensures
        appended_warnings(
            old(diagnostics)@,
            final(diagnostics)@,
            unreachable_lines(script.instructions@, script.instructions@.len() as int).map_values(
                |l: usize| (l, unreachable_message()),
            ),
            script.source_path@,
        ),
{
    let ins = &script.instructions;
    let marked = reachability(ins);
    let ghost start = diagnostics@;
    let mut reported: Vec<usize> = Vec::new();
    let mut i: usize = 0;
    proof {
        assert(start.take(start.len() as int) =~= start);
    }
    while i < ins.len()
        invariant
            i <= ins@.len(),
            marked@.len() == ins@.len(),
            forall|j: int| 0 <= j < ins@.len() ==> (marked@[j] <==> reachable(ins@, j)),
            reported@ == unreachable_lines(ins@, i as int),
            appended_warnings(
                start,
                diagnostics@,
                unreachable_lines(ins@, i as int).map_values(|l: usize| (l, unreachable_message())),
                script.source_path@,
            ),
        decreases ins@.len() - i,
    {
        let ghost before = diagnostics@;
        let ghost reps = unreachable_lines(ins@, i as int).map_values(|l: usize| (l, unreachable_message()));
        if ins[i].opcode == Opcode::LineNumber {
            if let Operand::Int(n) = ins[i].operand {
                let line = n as usize;
                if let Some(j) = next_real(ins, i + 1) {
                    if !marked[j] && !usize_in(&reported, line) {
                        emit_unreachable(script, source_cache, diagnostics, line);
                        reported.push(line);
                        proof {
                            let reps2 = unreachable_lines(ins@, i + 1).map_values(|l: usize| (l, unreachable_message()));
                            assert(reps2 =~= reps.push((line, unreachable_message())));
                            assert forall|q: int| 0 <= q < reps2.len() implies {
                                let d = #[trigger] diagnostics@[start.len() + q];
                                &&& d.line == reps2[q].0
                                &&& d.message@ == reps2[q].1
                                &&& d.severity == Severity::Warning
                                &&& d.phase == Phase::PointerCheck
                                &&& d.file@ == script.source_path@
                                &&& d.column == 0
                            } by {
                                if q < reps.len() {
                                    assert(diagnostics@[start.len() + q] == before[start.len() + q]);
                                }
                            }
                            assert(diagnostics@.take(start.len() as int) =~= start);
                        }
                    }
                }
            }
        }
        proof {
            assert(unreachable_lines(ins@, i + 1) == reported@);
        }
        i += 1;
    }
}

/// The unused-local reports of `s`.
pub open spec fn unused_of(s: CompiledScript, cache: Option<&StrMap<String>>) -> Seq<(usize, Seq<char>)> {
    unused_reports(
        s.instructions@,
        s.local_table@,
        header_of(&s, cached_source(cache, s.source_path@)),
        s.local_table@.len() as int,
    )
}

/// The unreachable-code reports of `s`.
pub open spec fn unreachable_of(s: CompiledScript) -> Seq<(usize, Seq<char>)> {
    unreachable_lines(s.instructions@, s.instructions@.len() as int).map_values(
        |l: usize| (l, unreachable_message()),
    )
}

/// Where the findings of script `k` start: the number of findings of the
/// scripts before it.
pub open spec fn lint_start(scripts: Seq<CompiledScript>, cache: Option<&StrMap<String>>, k: int) -> int
    decreases k,
{
    if k <= 0 {
        0
    } else {
        lint_start(scripts, cache, k - 1) + unused_of(scripts[k - 1], cache).len()
            + unreachable_of(scripts[k - 1]).len()
    }
}

/// Whether `d` holds the findings of script `k` where [`lint_start`] places
/// them: its unused-local warnings, then its unreachable-code warnings.
pub open spec fn lints_at(d: Seq<Diagnostic>, scripts: Seq<CompiledScript>, cache: Option<&StrMap<String>>, k: int) -> bool {
    let a = lint_start(scripts, cache, k);
    let b = a + unused_of(scripts[k], cache).len();
    &&& appended_warnings(d.take(a), d.take(b), unused_of(scripts[k], cache), scripts[k].source_path@)
    &&& appended_warnings(
        d.take(b),
        d.take(lint_start(scripts, cache, k + 1)),
        unreachable_of(scripts[k]),
        scripts[k].source_path@,
    )
}

/// Whether `d` holds, script by script, each script's unused-local warnings
/// and then its unreachable-code warnings.
pub open spec fn lint_findings(d: Seq<Diagnostic>, scripts: Seq<CompiledScript>, cache: Option<&StrMap<String>>) -> bool {
    &&& d.len() == lint_start(scripts, cache, scripts.len() as int)
    &&& forall|k: int| 0 <= k < scripts.len() ==> #[trigger] lints_at(d, scripts, cache, k)
}

proof fn lemma_lint_start_mono(scripts: Seq<CompiledScript>, cache: Option<&StrMap<String>>, m: int, n: int)
    requires
        0 <= m <= n,
    ensures
        lint_start(scripts, cache, m) <= lint_start(scripts, cache, n),
    decreases n,
{
    if m < n {
        lemma_lint_start_mono(scripts, cache, m, n - 1);
    }
}

proof fn lemma_warning_before(
    d: Seq<Diagnostic>,
    scripts: Seq<CompiledScript>,
    cache: Option<&StrMap<String>>,
    i: int,
    k: int,
)
    requires
        lint_findings(d, scripts, cache),
        0 <= k <= scripts.len(),
        0 <= i < lint_start(scripts, cache, k),
    ensures
        d[i].severity == Severity::Warning,
    decreases k,
{
    let a = lint_start(scripts, cache, k - 1);
    if i < a {
        lemma_warning_before(d, scripts, cache, i, k - 1);
    } else {
        lemma_lint_start_mono(scripts, cache, k, scripts.len() as int);
        let b = a + unused_of(scripts[k - 1], cache).len();
        let c = lint_start(scripts, cache, k);
        assert(lints_at(d, scripts, cache, k - 1));
        if i < b {
            let j = i - a;
            assert(d.take(b)[a + j] == d[i]);
        } else {
            let j = i - b;
            assert(d.take(c)[b + j] == d[i]);
        }
    }
}

/// Every finding of the lints is a warning: `run_lints` never reports an
/// error.
pub proof fn lemma_lints_are_warnings(d: Seq<Diagnostic>, scripts: Seq<CompiledScript>, cache: Option<&StrMap<String>>)
    requires
        lint_findings(d, scripts, cache),
    ensures
        forall|i: int| 0 <= i < d.len() ==> (#[trigger] d[i]).severity == Severity::Warning,
{
    assert forall|i: int| 0 <= i < d.len() implies (#[trigger] d[i]).severity == Severity::Warning by {
        lemma_warning_before(d, scripts, cache, i, scripts.len() as int);
    }
}

proof fn lemma_lints_at_extend(
    d0: Seq<Diagnostic>,
    d2: Seq<Diagnostic>,
    scripts: Seq<CompiledScript>,
    cache: Option<&StrMap<String>>,
    k: int,
)
    requires
        0 <= k,
        lint_start(scripts, cache, k + 1) <= d0.len() <= d2.len(),
        d2.take(d0.len() as int) == d0,
        lints_at(d0, scripts, cache, k),
    ensures
        lints_at(d2, scripts, cache, k),
{
    let a = lint_start(scripts, cache, k);
    let b = a + unused_of(scripts[k], cache).len();
    let c = lint_start(scripts, cache, k + 1);
    lemma_lint_start_mono(scripts, cache, 0, k);
    assert(c == b + unreachable_of(scripts[k]).len());
    assert(d2.take(a) =~= d0.take(a));
    assert(d2.take(b) =~= d0.take(b));
    assert(d2.take(c) =~= d0.take(c));
}

proof fn lemma_lints_at_new(
    d0: Seq<Diagnostic>,
    d1: Seq<Diagnostic>,
    d2: Seq<Diagnostic>,
    scripts: Seq<CompiledScript>,
    cache: Option<&StrMap<String>>,
    k: int,
)
    requires
        0 <= k < scripts.len(),
        d0.len() == lint_start(scripts, cache, k),
        appended_warnings(d0, d1, unused_of(scripts[k], cache), scripts[k].source_path@),
        appended_warnings(d1, d2, unreachable_of(scripts[k]), scripts[k].source_path@),
    ensures
        lints_at(d2, scripts, cache, k),
        d2.len() == lint_start(scripts, cache, k + 1),
        d2.take(d0.len() as int) == d0,
{
    assert(d2.take(d0.len() as int) =~= d0) by {
        assert(d2.take(d0.len() as int) =~= d2.take(d1.len() as int).take(d0.len() as int));
    }
    assert(d2.take(d1.len() as int) == d1);
    assert(d2.take(d2.len() as int) =~= d2);
}

/// Runs both lints over every script, in order.
pub fn run_lints(scripts: &[CompiledScript], source_cache: Option<&StrMap<String>>) -> (d: DiagnosticsCollector)
    ensures
        lint_findings(d@, scripts@, source_cache),
        forall|i: int| 0 <= i < d@.len() ==> (#[trigger] d@[i]).severity == Severity::Warning,
{
    let mut diags = DiagnosticsCollector::new();
    let ghost ss = scripts@;
    let mut i: usize = 0;
    while i < scripts.len()
        invariant
            i <= ss.len(),
            ss == scripts@,
            diags@.len() == lint_start(ss, source_cache, i as int),
            forall|k: int| 0 <= k < i ==> #[trigger] lints_at(diags@, ss, source_cache, k),
        decreases ss.len() - i,
    {
        let ghost d0 = diags@;
        check_unused_locals(&scripts[i], source_cache, &mut diags);
        let ghost d1 = diags@;
        check_unreachable_code(&scripts[i], source_cache, &mut diags);
        proof {
            let d2 = diags@;
            lemma_lints_at_new(d0, d1, d2, ss, source_cache, i as int);
            assert forall|k: int| 0 <= k < i + 1 implies #[trigger] lints_at(d2, ss, source_cache, k) by {
                if k < i {
                    lemma_lint_start_mono(ss, source_cache, k + 1, i as int);
                    lemma_lints_at_extend(d0, d2, ss, source_cache, k);
                }
            }
        }
        i += 1;
    }
    proof {
        lemma_lints_are_warnings(diags@, scripts@, source_cache);
    }
    diags
}

} // verus!
