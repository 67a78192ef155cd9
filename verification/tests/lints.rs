use runec::bytecode::{CompiledScript, Instruction, Opcode, Operand};
use runec::diagnostics::{DiagnosticsCollector, Severity};
use runec::lints::{check_unreachable_code, check_unused_locals};
use runec::symbol::LocalEntry;
use runec::types::Type;

fn empty_script(name: &str) -> CompiledScript {
    let mut s = CompiledScript::new(format!("[label,{}]", name), 0);
    s.trigger = "label".to_string();
    s.source_path = "/virt/test.rs2".to_string();
    s
}

fn push_local_entry(
    s: &mut CompiledScript,
    name: &str,
    var_type: Type,
    is_param: bool,
    is_array: bool,
) {
    s.local_table.push_entry(LocalEntry {
        name: name.to_string(),
        var_type,
        is_param,
        is_array,
    });
}

// -----------------------------------------------------------------------
// Unused locals
// -----------------------------------------------------------------------

#[test]
fn unused_int_local_is_reported() {
    // Body: def_int $x = 5;   (written, never read)
    let mut script = empty_script("foo");
    push_local_entry(&mut script, "x", Type::Int, false, false);
    script.instructions = vec![
        Instruction::new(Opcode::LineNumber, Operand::Int(2)),
        Instruction::push_int(5),
        Instruction::pop_int_local(0),
        Instruction::simple(Opcode::Return),
    ];

    let scripts = [script];
    let mut diags = DiagnosticsCollector::new();
    check_unused_locals(&scripts[0], None, &mut diags);

    let warnings: Vec<_> = diags
        .diagnostics()
        .iter()
        .filter(|d| d.severity == Severity::Warning)
        .collect();
    assert_eq!(warnings.len(), 1, "expected one unused-local warning");
    assert!(
        warnings[0].message.contains("$x"),
        "message should name $x: {}",
        warnings[0].message
    );
    assert_eq!(warnings[0].line, 2);
}

#[test]
fn read_then_written_int_local_is_ok() {
    // def_int $x = 5; def_int $y = $x;   (x is read, y is not — y warns)
    let mut script = empty_script("foo");
    push_local_entry(&mut script, "x", Type::Int, false, false);
    push_local_entry(&mut script, "y", Type::Int, false, false);
    script.instructions = vec![
        Instruction::new(Opcode::LineNumber, Operand::Int(2)),
        Instruction::push_int(5),
        Instruction::pop_int_local(0),
        Instruction::new(Opcode::LineNumber, Operand::Int(3)),
        Instruction::push_int_local(0), // read of $x
        Instruction::pop_int_local(1),  // write to $y
        Instruction::simple(Opcode::Return),
    ];

    let mut diags = DiagnosticsCollector::new();
    check_unused_locals(&script, None, &mut diags);
    let warnings: Vec<_> = diags
        .diagnostics()
        .iter()
        .filter(|d| d.severity == Severity::Warning)
        .collect();
    assert_eq!(warnings.len(), 1, "only $y should warn");
    assert!(warnings[0].message.contains("$y"));
}

#[test]
fn unused_parameter_is_reported_with_param_wording() {
    let mut script = empty_script("foo");
    script.trigger = "label".to_string();
    push_local_entry(&mut script, "unused", Type::Int, true, false);
    script.int_arg_count = 1;
    script.int_local_count = 1;
    script.instructions = vec![
        Instruction::new(Opcode::LineNumber, Operand::Int(1)),
        Instruction::simple(Opcode::Return),
    ];

    let mut diags = DiagnosticsCollector::new();
    check_unused_locals(&script, None, &mut diags);
    let warnings: Vec<_> = diags
        .diagnostics()
        .iter()
        .filter(|d| d.severity == Severity::Warning)
        .collect();
    assert_eq!(warnings.len(), 1);
    assert!(
        warnings[0].message.contains("Parameter"),
        "message should use parameter wording: {}",
        warnings[0].message
    );
}

#[test]
fn string_and_long_locals_tracked_independently() {
    let mut script = empty_script("foo");
    push_local_entry(&mut script, "s", Type::String, false, false);
    push_local_entry(&mut script, "l", Type::Long, false, false);
    script.instructions = vec![
        Instruction::new(Opcode::LineNumber, Operand::Int(1)),
        Instruction::push_string("hi".to_string()),
        Instruction::pop_string_local(0),
        Instruction::push_long(42),
        Instruction::pop_long_local(0),
        Instruction::simple(Opcode::Return),
    ];

    let mut diags = DiagnosticsCollector::new();
    check_unused_locals(&script, None, &mut diags);
    let warnings: Vec<_> = diags
        .diagnostics()
        .iter()
        .filter(|d| d.severity == Severity::Warning)
        .collect();
    assert_eq!(warnings.len(), 2, "both $s and $l should warn");
    let names: Vec<&str> = warnings.iter().map(|d| d.message.as_str()).collect();
    assert!(names.iter().any(|m| m.contains("$s")));
    assert!(names.iter().any(|m| m.contains("$l")));
}

#[test]
fn unused_array_is_reported() {
    let mut script = empty_script("foo");
    push_local_entry(&mut script, "arr", Type::Int, false, true);
    script.instructions = vec![
        Instruction::new(Opcode::LineNumber, Operand::Int(2)),
        Instruction::push_int(5),
        Instruction::new(Opcode::DefineArray, Operand::Int(0)),
        Instruction::simple(Opcode::Return),
    ];

    let mut diags = DiagnosticsCollector::new();
    check_unused_locals(&script, None, &mut diags);
    let warnings: Vec<_> = diags
        .diagnostics()
        .iter()
        .filter(|d| d.severity == Severity::Warning)
        .collect();
    assert_eq!(warnings.len(), 1);
    assert!(warnings[0].message.contains("$arr"));
    assert!(warnings[0].message.contains("array"));
}

#[test]
fn touched_array_does_not_warn() {
    // def_int $arr(3); $arr(0) = 1; read $arr(0) — array IS used.
    let mut script = empty_script("foo");
    push_local_entry(&mut script, "arr", Type::Int, false, true);
    script.instructions = vec![
        Instruction::new(Opcode::LineNumber, Operand::Int(1)),
        Instruction::push_int(3),
        Instruction::new(Opcode::DefineArray, Operand::Int(0)),
        Instruction::push_int(1),
        Instruction::push_int(0),
        Instruction::new(Opcode::PopArrayInt, Operand::Int(0)),
        Instruction::push_int(0),
        Instruction::new(Opcode::PushArrayInt, Operand::Int(0)),
        Instruction::new(Opcode::PopIntDiscard, Operand::Int(0)),
        Instruction::simple(Opcode::Return),
    ];

    let mut diags = DiagnosticsCollector::new();
    check_unused_locals(&script, None, &mut diags);
    let warnings: Vec<_> = diags
        .diagnostics()
        .iter()
        .filter(|d| d.severity == Severity::Warning)
        .collect();
    assert_eq!(warnings.len(), 0, "touched array should not warn");
}

// -----------------------------------------------------------------------
// Unreachable code
// -----------------------------------------------------------------------

#[test]
fn dead_code_after_return_is_reported() {
    // mes("hi"); return; mes("bye");  <-- line 4 unreachable
    let mut script = empty_script("foo");
    script.instructions = vec![
        Instruction::new(Opcode::LineNumber, Operand::Int(2)),
        Instruction::push_string("hi".to_string()),
        Instruction::new(Opcode::Command, Operand::Int(0)), // mes
        Instruction::new(Opcode::LineNumber, Operand::Int(3)),
        Instruction::simple(Opcode::Return),
        Instruction::new(Opcode::LineNumber, Operand::Int(4)),
        Instruction::push_string("bye".to_string()),
        Instruction::new(Opcode::Command, Operand::Int(0)),
        Instruction::simple(Opcode::Return),
    ];

    let mut diags = DiagnosticsCollector::new();
    check_unreachable_code(&script, None, &mut diags);
    let warnings: Vec<_> = diags
        .diagnostics()
        .iter()
        .filter(|d| d.severity == Severity::Warning)
        .collect();
    assert_eq!(warnings.len(), 1);
    assert_eq!(warnings[0].line, 4);
    assert!(warnings[0].message.contains("Unreachable"));
}

#[test]
fn dead_code_after_jump_is_reported() {
    // @some_label; mes("never");
    let mut script = empty_script("foo");
    script.instructions = vec![
        Instruction::new(Opcode::LineNumber, Operand::Int(2)),
        Instruction::new(Opcode::JumpWithParams, Operand::Int(999)),
        Instruction::new(Opcode::LineNumber, Operand::Int(3)),
        Instruction::push_string("never".to_string()),
        Instruction::new(Opcode::Command, Operand::Int(0)),
        Instruction::simple(Opcode::Return),
    ];

    let mut diags = DiagnosticsCollector::new();
    check_unreachable_code(&script, None, &mut diags);
    let warnings: Vec<_> = diags
        .diagnostics()
        .iter()
        .filter(|d| d.severity == Severity::Warning)
        .collect();
    assert_eq!(warnings.len(), 1);
    assert_eq!(warnings[0].line, 3);
}

#[test]
fn reachable_code_after_conditional_branch_is_ok() {
    // if (cond) { body } — body IS reachable via BranchEquals target.
    let mut script = empty_script("foo");
    script.instructions = vec![
        Instruction::new(Opcode::LineNumber, Operand::Int(1)),
        Instruction::push_int(1),
        Instruction::push_int(1),
        Instruction::new(Opcode::BranchEquals, Operand::JumpTarget(6)),
        Instruction::new(Opcode::Branch, Operand::JumpTarget(9)),
        Instruction::new(Opcode::LineNumber, Operand::Int(2)),
        Instruction::push_string("yes".to_string()),
        Instruction::new(Opcode::Command, Operand::Int(0)),
        Instruction::new(Opcode::LineNumber, Operand::Int(3)),
        Instruction::simple(Opcode::Return),
    ];

    let mut diags = DiagnosticsCollector::new();
    check_unreachable_code(&script, None, &mut diags);
    let warnings: Vec<_> = diags
        .diagnostics()
        .iter()
        .filter(|d| d.severity == Severity::Warning)
        .collect();
    assert_eq!(
        warnings.len(),
        0,
        "conditional-branch body is reachable; got: {:?}",
        warnings.iter().map(|d| &d.message).collect::<Vec<_>>()
    );
}

#[test]
fn compiler_emitted_branch_without_linenumber_does_not_warn() {
    // Simulates compile_if's always-emitted Branch(end) after a body
    // that ends in Return. The Branch has NO leading LineNumber, so
    // our lint should skip it.
    let mut script = empty_script("foo");
    script.instructions = vec![
        Instruction::new(Opcode::LineNumber, Operand::Int(1)),
        Instruction::push_int(1),
        Instruction::push_int(1),
        Instruction::new(Opcode::BranchEquals, Operand::JumpTarget(5)),
        Instruction::new(Opcode::Branch, Operand::JumpTarget(8)),
        Instruction::new(Opcode::LineNumber, Operand::Int(2)),
        Instruction::simple(Opcode::Return),
        Instruction::new(Opcode::Branch, Operand::JumpTarget(8)), // compiler-emitted, unreachable
        Instruction::simple(Opcode::Return),
    ];

    let mut diags = DiagnosticsCollector::new();
    check_unreachable_code(&script, None, &mut diags);
    let warnings: Vec<_> = diags
        .diagnostics()
        .iter()
        .filter(|d| d.severity == Severity::Warning)
        .collect();
    assert_eq!(
        warnings.len(),
        0,
        "compiler-emitted unreachable Branch must not warn; got: {:?}",
        warnings.iter().map(|d| &d.message).collect::<Vec<_>>()
    );
}
