use runec::bytecode::{CompiledScript, Instruction, Opcode, Operand};
use runec::diagnostics::{Applicability, Severity};
use runec::pointer_checker::PointerChecker;
use runec::source_text::{
    find_header_line, find_matching_close_paren, format_corruptors, rewrite_call_site_arg,
    rewrite_header_add_param,
};
use runec::strmap::StrMap;
use runec::symbol::SymbolRegistry;

/// Build a minimal registry with a command registered at a given opcode.
fn registry_with_commands(commands: &[(&str, i32)]) -> SymbolRegistry {
    let mut reg = SymbolRegistry::new();
    for &(name, opcode) in commands {
        reg.register_command(name.to_string(), opcode, vec![], vec![]);
    }
    reg
}

/// Build a compiled script with the given trigger, name, and instructions.
fn make_script(
    name: &str,
    trigger: &str,
    id: i32,
    instructions: Vec<Instruction>,
) -> CompiledScript {
    let mut script = CompiledScript::new(format!("[{trigger},{name}]"), id);
    script.trigger = trigger.to_string();
    script.source_path = "test.rs2".to_string();
    script.instructions = instructions;
    script
}

/// Helper: Command instruction with encoded opcode (no secondary entity).
fn cmd(opcode: i32) -> Instruction {
    Instruction::new(Opcode::Command, Operand::Int(opcode))
}

fn line(n: i32) -> Instruction {
    Instruction::new(Opcode::LineNumber, Operand::Int(n))
}

fn push_int(v: i32) -> Instruction {
    Instruction::push_int(v)
}

fn branch_eq(target: usize) -> Instruction {
    Instruction::new(Opcode::BranchEquals, Operand::JumpTarget(target))
}

fn branch(target: usize) -> Instruction {
    Instruction::new(Opcode::Branch, Operand::JumpTarget(target))
}

fn ret() -> Instruction {
    Instruction::simple(Opcode::Return)
}

fn gosub(script_id: i32) -> Instruction {
    Instruction::new(Opcode::GosubWithParams, Operand::Int(script_id))
}

// -----------------------------------------------------------------------
// Test: conditional setter with argument push between Command and Branch
// -----------------------------------------------------------------------
// Simulates: if (p_finduid(uid) = true) { p_stopaction; }
// Bytecode: PushVar, Command(p_finduid), PushConstantInt(1), BranchEquals, Branch, ...
// The conditional setter should be detected despite the PushVar before Command.
#[test]
fn conditional_setter_with_arg_push() {
    // p_finduid opcode = 4267 (arbitrary, just needs to be in command_pointers)
    // p_stopaction opcode = 4268
    let p_finduid_op = 4267;
    let p_stopaction_op = 4268;

    let registry = registry_with_commands(&[
        ("p_finduid", p_finduid_op),
        ("p_stopaction", p_stopaction_op),
    ]);

    let instructions = vec![
        line(1),              // 0: LineNumber
        push_int(0),          // 1: PushVar(uid) - simulated as push_int
        cmd(p_finduid_op),    // 2: Command(p_finduid)
        push_int(1),          // 3: PushConstantInt(1) = true
        branch_eq(7),         // 4: BranchEquals -> body
        branch(8),            // 5: Branch -> end
        line(2),              // 6: LineNumber
        cmd(p_stopaction_op), // 7: Command(p_stopaction) - requires p_active_player
        ret(),                // 8: Return
    ];

    // Script with "label" trigger (gets all pointers initially? No - we want
    // to test that the conditional setter provides the pointer)
    // Use "ai_timer" which only provides active_npc — no p_active_player.
    let script = make_script("test", "ai_timer", 0, instructions);
    let scripts = vec![script];

    let mut checker = PointerChecker::new(&scripts, &registry);
    let diags = checker.run();

    // p_finduid conditionally sets p_active_player on the true branch.
    // p_stopaction requires p_active_player and is only on the true branch.
    // So this should produce NO diagnostics.
    assert_eq!(
        diags.warning_count(),
        0,
        "conditional setter should provide p_active_player on true branch, got {} warnings",
        diags.warning_count()
    );
}

// -----------------------------------------------------------------------
// Test: proc that requires AND corrupts the same pointer (gnomeball pattern)
// -----------------------------------------------------------------------
// Simulates a label calling a proc that:
//   - requires p_active_player (via p_delay)
//   - then corrupts p_active_player (via npc_delay)
// The Gosub node is simultaneously in required and corrupted lists.
// This should NOT be flagged — the requirement is satisfied before corruption.
#[test]
fn gosub_requires_then_corrupts_same_pointer() {
    let p_delay_op = 5001;
    let npc_delay_op = 5002;

    let registry =
        registry_with_commands(&[("p_delay", p_delay_op), ("npc_delay", npc_delay_op)]);

    // Proc: p_delay(0); npc_delay(0); return;
    // This proc requires p_active_player (p_delay) then corrupts it (npc_delay).
    let proc_script = make_script(
        "tackle_success",
        "proc",
        100,
        vec![
            line(1),
            push_int(0),
            cmd(p_delay_op), // requires p_active_player, does NOT corrupt it
            line(2),
            push_int(0),
            cmd(npc_delay_op), // corrupts p_active_player
            ret(),
        ],
    );

    // Label: calls the proc via gosub
    // The label trigger provides all pointers including p_active_player.
    let label_script = make_script(
        "do_tackle",
        "label",
        200,
        vec![
            line(10),
            gosub(100), // Gosub to proc — requires AND corrupts p_active_player
            ret(),
        ],
    );

    let scripts = vec![proc_script, label_script];
    let mut checker = PointerChecker::new(&scripts, &registry);
    let diags = checker.run();

    // The label has p_active_player from trigger.
    // The gosub requires it (satisfied) then corrupts it.
    // No diagnostic — the main BFS starts from predecessors of the
    // required node (not the node itself), and the secondary require+
    // corrupt heuristic skips engine-tracked pointers like PActivePlayer.
    assert_eq!(
        diags.warning_count(),
        0,
        "gosub that requires-then-corrupts p_active_player should not \
         be flagged (engine-tracked pointer), got {} warnings",
        diags.warning_count()
    );
}

// -----------------------------------------------------------------------
// Test: legitimate corruption SHOULD be caught
// -----------------------------------------------------------------------
// A command corrupts p_active_player, then a later command requires it.
// This should produce an error.
#[test]
fn corruption_before_requirement_is_caught() {
    let npc_delay_op = 5002;
    let p_delay_op = 5001;

    let registry =
        registry_with_commands(&[("npc_delay", npc_delay_op), ("p_delay", p_delay_op)]);

    // Label: npc_delay(0); p_delay(0);
    // npc_delay corrupts p_active_player, then p_delay requires it.
    let script = make_script(
        "bad_order",
        "label",
        0,
        vec![
            line(1),
            push_int(0),
            cmd(npc_delay_op), // corrupts p_active_player
            line(2),
            push_int(0),
            cmd(p_delay_op), // requires p_active_player — should fail!
            ret(),
        ],
    );

    let scripts = vec![script];
    let mut checker = PointerChecker::new(&scripts, &registry);
    let diags = checker.run();

    assert!(
        diags.warning_count() > 0,
        "corruption before requirement should be caught as a warning"
    );
}

// -----------------------------------------------------------------------
// Test: uninitialized pointer access
// -----------------------------------------------------------------------
// A script with a trigger that doesn't provide p_active_player uses p_delay.
#[test]
fn uninitialized_pointer_caught() {
    let p_delay_op = 5001;

    let registry = registry_with_commands(&[("p_delay", p_delay_op)]);

    // ai_timer trigger only provides active_npc, not p_active_player.
    let script = make_script(
        "bad_access",
        "ai_timer",
        0,
        vec![
            line(1),
            push_int(0),
            cmd(p_delay_op), // requires p_active_player — not provided by trigger
            ret(),
        ],
    );

    let scripts = vec![script];
    let mut checker = PointerChecker::new(&scripts, &registry);
    let diags = checker.run();

    assert!(
        diags.warning_count() > 0,
        "uninitialized pointer access should be caught"
    );
}

// -----------------------------------------------------------------------
// Test: jump target landing on a LineNumber instruction
// -----------------------------------------------------------------------
// Regression: BranchEquals/Branch targets patched to body_start often
// land on a LineNumber instruction (emitted for the body's first source
// line). LineNumbers are stripped from the CFG, so without
// resolve_target_node() the edge would be silently dropped and the body
// node would have no predecessors — hiding genuine uninitialized-pointer
// errors for callers that wrap the @jump in an `if` block.
#[test]
fn branch_target_on_line_number_still_connects() {
    let p_delay_op = 5001;
    let registry = registry_with_commands(&[("p_delay", p_delay_op)]);

    // ai_timer trigger provides active_npc but NOT p_active_player.
    // Layout: `if (1 = 1) { p_delay(0); }` — BranchEquals jumps to the
    // body's leading LineNumber. If the CFG drops that edge the body
    // node is disconnected and the uninitialized p_active_player read
    // is never flagged.
    //
    //   0 LineNumber(1)
    //   1 PushConstantInt(1)
    //   2 PushConstantInt(1)
    //   3 BranchEquals -> 5 (LineNumber at body start)
    //   4 Branch       -> 8 (end-of-if marker; here, Return)
    //   5 LineNumber(2)
    //   6 PushConstantInt(0)
    //   7 Command(p_delay)
    //   8 Return
    let script = make_script(
        "target_on_line_number",
        "ai_timer",
        0,
        vec![
            line(1),
            push_int(1),
            push_int(1),
            branch_eq(5), // jump target is the LineNumber at index 5
            Instruction::new(Opcode::Branch, Operand::JumpTarget(8)),
            line(2),
            push_int(0),
            cmd(p_delay_op),
            ret(),
        ],
    );

    let scripts = vec![script];
    let mut checker = PointerChecker::new(&scripts, &registry);
    let diags = checker.run();

    assert!(
        diags.warning_count() > 0,
        "jump target on LineNumber must still flag uninitialized pointer \
         access (got {} warnings)",
        diags.warning_count()
    );
}

// -----------------------------------------------------------------------
// Test: secondary require+corrupt warning for static-only pointers
// -----------------------------------------------------------------------
// A label that requires AND corrupts LastUseitem (via last_useitem then
// p_delay) is called via @jump from an oplocu trigger that provides
// LastUseitem. The main BFS correctly finds no error (predecessors are
// clean), but the secondary heuristic flags the Jump as "requires and
// corrupts last_useitem on the same node" — this is the 23-warning
// pattern from the legacy lost-city 225 output.
#[test]
fn secondary_requires_and_corrupts_warns_for_static_pointer() {
    // last_useitem and p_delay opcodes (arbitrary, just need to be in
    // command_pointers()).
    let last_useitem_op = 4270;
    let p_delay_op = 5001;
    let registry =
        registry_with_commands(&[("last_useitem", last_useitem_op), ("p_delay", p_delay_op)]);

    // Callee label: reads last_useitem, then corrupts it via p_delay.
    let callee = make_script(
        "consume_useitem",
        "label",
        100,
        vec![
            line(1),
            cmd(last_useitem_op), // requires LastUseitem
            line(2),
            push_int(0),
            cmd(p_delay_op), // corrupts LastUseitem
            ret(),
        ],
    );

    // Caller: oplocu trigger provides LastUseitem. Jumps to the label.
    // The Jump node inherits BOTH required[LastUseitem] AND
    // corrupted[LastUseitem]. Main BFS: predecessors of Jump trace back
    // to node 0, which is NOT corrupted (trigger provides) — no main
    // diagnostic. Secondary heuristic: Jump appears in both sets, emit
    // a warning.
    let caller = make_script(
        "use_on_loc",
        "oplocu",
        200,
        vec![
            line(10),
            Instruction::new(Opcode::JumpWithParams, Operand::Int(100)),
        ],
    );

    let scripts = vec![callee, caller];
    let mut checker = PointerChecker::new(&scripts, &registry);
    let diags = checker.run();

    let last_useitem_warnings = diags
        .diagnostics()
        .iter()
        .filter(|d| d.severity == Severity::Warning)
        .filter(|d| d.message.contains("last_useitem"))
        .count();
    assert!(
        last_useitem_warnings > 0,
        "static-only pointer (last_useitem) should trigger the \
         require+corrupt warning at the jump site; got diags: {:?}",
        diags
            .diagnostics()
            .iter()
            .map(|d| &d.message)
            .collect::<Vec<_>>()
    );

    assert_eq!(
        diags.error_count(),
        0,
        "pointer-check diagnostics must never raise error severity; got {} errors",
        diags.error_count()
    );
}

// -----------------------------------------------------------------------
// Test: secondary heuristic SUPPRESSES warnings for engine-tracked pointers
// -----------------------------------------------------------------------
// Same pattern as above, but the pointer is PActivePlayer (engine-
// tracked). The secondary heuristic must NOT emit — the user's legacy
// 23-warning output specifically excludes the gnome_baller
// p_active_player findings because the 2004scape engine manages that
// pointer at runtime.
#[test]
fn secondary_requires_and_corrupts_silent_for_engine_pointer() {
    let p_delay_op = 5001;
    let npc_delay_op = 5002;
    let registry =
        registry_with_commands(&[("p_delay", p_delay_op), ("npc_delay", npc_delay_op)]);

    let callee = make_script(
        "consume_protected",
        "proc",
        100,
        vec![
            line(1),
            push_int(0),
            cmd(p_delay_op), // requires PActivePlayer
            line(2),
            push_int(0),
            cmd(npc_delay_op), // corrupts PActivePlayer
            ret(),
        ],
    );

    // opnpc1 provides ActivePlayer, PActivePlayer, ActiveNpc.
    let caller = make_script(
        "do_opnpc",
        "opnpc1",
        200,
        vec![
            line(10),
            Instruction::new(Opcode::GosubWithParams, Operand::Int(100)),
            ret(),
        ],
    );

    let scripts = vec![callee, caller];
    let mut checker = PointerChecker::new(&scripts, &registry);
    let diags = checker.run();

    let p_active_player_warnings = diags
        .diagnostics()
        .iter()
        .filter(|d| d.severity == Severity::Warning)
        .filter(|d| d.message.contains("p_active_player"))
        .count();
    assert_eq!(
        p_active_player_warnings, 0,
        "engine-tracked pointer (p_active_player) must not trigger the \
         require+corrupt warning; got {} such warnings",
        p_active_player_warnings
    );
}

// -----------------------------------------------------------------------
// Test: secondary (dot-prefixed) var reads require the `*2` pointer
// -----------------------------------------------------------------------
// Regression: categorize_nodes used to map every PushVarn/PopVarn (and
// PushVarp/PopVarp/PushVarbit/PopVarbit) to the primary active_npc /
// active_player pointer, ignoring the bit-16 "secondary" flag that
// compiler.rs sets on `.%var` operands. That miscategorization caused
// the 4 spurious `uninitialized active_npc` warnings at
// gnomeball_pass.rs2:1,2 and duel_arena.rs2:3,10.
//
// A proc reading `.%npc_var` should only require active_npc2 — no
// active_npc warning should propagate to its callers.
#[test]
fn secondary_varn_requires_active_npc2_not_primary() {
    // PushVarn is Opcode::PushVarn (=4). Operand encodes var_id in low
    // 16 bits; bit 16 marks secondary. We bypass the varn registry by
    // emitting the raw opcode — the pointer checker only inspects the
    // opcode + operand.
    let secondary_varn = Instruction::new(
        Opcode::PushVarn,
        Operand::Int((1 << 16) | 0), // .%var_id 0, secondary
    );

    // Proc reads a secondary NPC var and returns.
    let proc_script = make_script(
        "reads_secondary_varn",
        "proc",
        100,
        vec![
            line(1),
            secondary_varn,
            Instruction::simple(Opcode::PopIntDiscard),
            ret(),
        ],
    );

    // Caller: opplayer1 trigger provides active_player/p_active_player/
    // active_player2, but does NOT provide active_npc or active_npc2.
    // Before the fix, the gosub inherited active_npc (primary) from the
    // proc and the caller would be flagged "uninitialized active_npc".
    // After the fix, the proc only requires active_npc2, which also
    // isn't provided — but crucially, `active_npc` is not flagged.
    let caller = make_script(
        "gosub_into_proc",
        "opplayer1",
        200,
        vec![line(10), gosub(100), ret()],
    );

    let scripts = vec![proc_script, caller];
    let registry = registry_with_commands(&[]);
    let mut checker = PointerChecker::new(&scripts, &registry);
    let diags = checker.run();

    // Diagnostic messages use the pointer's `representation()`:
    //   PointerType::ActiveNpc  -> "active_npc"
    //   PointerType::ActiveNpc2 -> ".active_npc"
    // Match "pointer active_npc." to count ONLY primary hits — the
    // secondary form appears as "pointer .active_npc.".
    let active_npc_primary_warnings = diags
        .diagnostics()
        .iter()
        .filter(|d| d.severity == Severity::Warning)
        .filter(|d| d.message.contains("pointer active_npc."))
        .count();
    assert_eq!(
        active_npc_primary_warnings,
        0,
        "secondary .%var read must not flag primary active_npc at the \
         caller; got diags: {:?}",
        diags
            .diagnostics()
            .iter()
            .filter(|d| d.severity == Severity::Warning)
            .map(|d| &d.message)
            .collect::<Vec<_>>()
    );

    // Sanity: the secondary requirement DID propagate — opplayer1 doesn't
    // provide active_npc2 either, so `.active_npc` should be flagged.
    // This proves the attribution went to the `*2` pointer as intended.
    let active_npc2_warnings = diags
        .diagnostics()
        .iter()
        .filter(|d| d.severity == Severity::Warning)
        .filter(|d| d.message.contains("pointer .active_npc."))
        .count();
    assert!(
        active_npc2_warnings > 0,
        "secondary .%var should route the requirement to active_npc2; \
         got no such warning"
    );
}

// -----------------------------------------------------------------------
// Unit tests for the Rule A text rewriters
// -----------------------------------------------------------------------

#[test]
fn rewrite_call_site_no_args() {
    let got = rewrite_call_site_arg(
        "[opnpcu,wantcat1] @civilian_give_runes;",
        "@",
        "civilian_give_runes",
        "last_useitem",
    )
    .unwrap();
    assert_eq!(got, "[opnpcu,wantcat1] @civilian_give_runes(last_useitem);");
}

#[test]
fn rewrite_call_site_with_args() {
    let got = rewrite_call_site_arg(
        "[opheld4,amulet_of_glory_4] @amulet_of_glory_interface(\"msg\");",
        "@",
        "amulet_of_glory_interface",
        "last_item",
    )
    .unwrap();
    assert_eq!(
        got,
        "[opheld4,amulet_of_glory_4] @amulet_of_glory_interface(\"msg\", last_item);"
    );
}

#[test]
fn rewrite_call_site_gosub_no_args() {
    let got =
        rewrite_call_site_arg("    ~some_proc;", "~", "some_proc", "last_useitem").unwrap();
    assert_eq!(got, "    ~some_proc(last_useitem);");
}

#[test]
fn rewrite_call_site_empty_arg_list() {
    let got = rewrite_call_site_arg("@foo();", "@", "foo", "last_useitem").unwrap();
    assert_eq!(got, "@foo(last_useitem);");
}

#[test]
fn rewrite_header_no_params() {
    let got = rewrite_header_add_param(
        "[label,civilian_give_runes]",
        "civilian_give_runes",
        "obj",
        "$last_useitem",
    )
    .unwrap();
    assert_eq!(got, "[label,civilian_give_runes](obj $last_useitem)");
}

#[test]
fn rewrite_header_with_existing_params() {
    let got = rewrite_header_add_param(
        "[label,amulet_of_glory_interface](string $message)",
        "amulet_of_glory_interface",
        "obj",
        "$last_item",
    )
    .unwrap();
    assert_eq!(
        got,
        "[label,amulet_of_glory_interface](string $message, obj $last_item)"
    );
}

#[test]
fn rewrite_header_proc_with_return_type() {
    // `[proc,foo]()(int)` — parameter list comes before the return
    // list. We must insert into the FIRST `(...)` group.
    let got = rewrite_header_add_param("[proc,foo]()(int)", "foo", "obj", "$x").unwrap();
    assert_eq!(got, "[proc,foo](obj $x)(int)");
}

#[test]
fn find_header_line_matches_trigger_and_name() {
    let src = "// comment\n[label,foo]\nbody line\n[label,bar](int $x)\n";
    assert_eq!(find_header_line(src, "label", "foo"), Some(2));
    assert_eq!(find_header_line(src, "label", "bar"), Some(4));
    assert_eq!(find_header_line(src, "label", "missing"), None);
}

#[test]
fn format_corruptors_shapes() {
    assert_eq!(
        format_corruptors(&[]),
        "calls a delay or subroutine that may supersede it"
    );
    assert_eq!(
        format_corruptors(&[("p_delay".to_string(), 21)]),
        "calls `p_delay` at line 21 which may supersede it"
    );
    assert_eq!(
        format_corruptors(&[("p_delay".to_string(), 21), ("~chatnpc".to_string(), 11),]),
        "calls `p_delay` at line 21 and `~chatnpc` at line 11 which may supersede it"
    );
    assert_eq!(
        format_corruptors(&[
            ("p_delay".to_string(), 21),
            ("~chatnpc".to_string(), 11),
            ("~objbox".to_string(), 14),
        ]),
        "calls `p_delay` at line 21, `~chatnpc` at line 11, and `~objbox` at line 14 which may supersede it"
    );
    // Truncates after 3 with a summary suffix.
    assert_eq!(
        format_corruptors(&[
            ("p_delay".to_string(), 1),
            ("~a".to_string(), 2),
            ("~b".to_string(), 3),
            ("~c".to_string(), 4),
            ("~d".to_string(), 5),
        ]),
        "calls `p_delay` at line 1, `~a` at line 2, and `~b` at line 3 (and 2 more) which may supersede it"
    );
    // Unknown line falls back to bare name.
    assert_eq!(
        format_corruptors(&[("p_delay".to_string(), 0)]),
        "calls `p_delay` which may supersede it"
    );
}

#[test]
fn find_matching_close_paren_nested() {
    assert_eq!(find_matching_close_paren("()"), Some(1));
    assert_eq!(find_matching_close_paren("(a, b)"), Some(5));
    assert_eq!(find_matching_close_paren("(f(x), y)"), Some(8));
    assert_eq!(find_matching_close_paren("("), None);
    assert_eq!(find_matching_close_paren("abc"), None);
}

// -----------------------------------------------------------------------
// Test: secondary require+corrupt warning carries a populated Help
//       with concrete before/after suggestions when source is available
// -----------------------------------------------------------------------
#[test]
fn secondary_warning_attaches_help_with_rewrite_suggestions() {
    let last_useitem_op = 4270;
    let p_delay_op = 5001;
    let registry =
        registry_with_commands(&[("last_useitem", last_useitem_op), ("p_delay", p_delay_op)]);

    // Callee label — reads last_useitem, then p_delay corrupts it.
    let mut callee = make_script(
        "consume_useitem",
        "label",
        100,
        vec![
            line(2), // body starts on source line 2
            cmd(last_useitem_op),
            line(3),
            push_int(0),
            cmd(p_delay_op),
            ret(),
        ],
    );
    callee.source_path = "/virt/consume.rs2".to_string();

    // Caller — oplocu provides last_useitem; @jumps into callee.
    let mut caller = make_script(
        "use_on_loc",
        "oplocu",
        200,
        vec![
            line(1),
            Instruction::new(Opcode::JumpWithParams, Operand::Int(100)),
        ],
    );
    caller.source_path = "/virt/caller.rs2".to_string();

    // Virtual source text. Caller on line 1, callee header on line 1
    // of its own file.
    let mut source_cache: StrMap<String> = StrMap::new();
    source_cache.insert(
        "/virt/caller.rs2".to_string(),
        "[oplocu,target] @consume_useitem;\n".to_string(),
    );
    source_cache.insert(
        "/virt/consume.rs2".to_string(),
        "[label,consume_useitem]\n\
         last_useitem;\n\
         p_delay(0);\n"
            .to_string(),
    );

    let scripts = vec![callee, caller];
    let mut checker = PointerChecker::new(&scripts, &registry);
    checker.set_source_cache(&source_cache);
    let diags = checker.run();

    // Find the corrupted-last_useitem warning and verify help is
    // attached with both call-site and header rewrites.
    let warning = diags
        .diagnostics()
        .iter()
        .find(|d| d.severity == Severity::Warning && d.message.contains("stale `last_useitem`"))
        .expect("expected a stale-last_useitem warning");

    assert_eq!(
        warning.help.len(),
        1,
        "warning should have exactly one Help block, got {}",
        warning.help.len()
    );
    let help = &warning.help[0];
    assert!(
        help.message.contains("consume_useitem"),
        "help message should name the callee, got: {}",
        help.message
    );
    assert!(
        help.message.contains("last_useitem"),
        "help message should name the pointer, got: {}",
        help.message
    );

    // Two suggestions: (1) call site, (2) label header.
    assert_eq!(
        help.suggestions.len(),
        2,
        "help should include both call-site and header suggestions, \
         got {}: {:?}",
        help.suggestions.len(),
        help.suggestions
            .iter()
            .map(|s| &s.label)
            .collect::<Vec<_>>()
    );

    // Caller rewrite lands on the call file.
    let caller_sug = help
        .suggestions
        .iter()
        .find(|s| s.file == "/virt/caller.rs2")
        .expect("expected a call-site suggestion on the caller file");
    assert!(
        caller_sug
            .replacement
            .contains("@consume_useitem(last_useitem)"),
        "call-site replacement must pass last_useitem as an arg, got: {}",
        caller_sug.replacement
    );

    // Header rewrite lands on the callee file.
    let header_sug = help
        .suggestions
        .iter()
        .find(|s| s.file == "/virt/consume.rs2")
        .expect("expected a header suggestion on the callee file");
    assert!(
        header_sug.replacement.contains("(obj $last_useitem)"),
        "header replacement must add `obj $last_useitem` param, got: {}",
        header_sug.replacement
    );

    assert_eq!(help.applicability, Applicability::MaybeIncorrect);
}

// -----------------------------------------------------------------------
// Test: help falls back to prose-only when source cache is absent
// -----------------------------------------------------------------------
#[test]
fn secondary_warning_falls_back_to_prose_help_without_source() {
    let last_useitem_op = 4270;
    let p_delay_op = 5001;
    let registry =
        registry_with_commands(&[("last_useitem", last_useitem_op), ("p_delay", p_delay_op)]);

    let callee = make_script(
        "consume_useitem",
        "label",
        100,
        vec![
            line(1),
            cmd(last_useitem_op),
            line(2),
            push_int(0),
            cmd(p_delay_op),
            ret(),
        ],
    );
    let caller = make_script(
        "use_on_loc",
        "oplocu",
        200,
        vec![
            line(1),
            Instruction::new(Opcode::JumpWithParams, Operand::Int(100)),
        ],
    );

    let scripts = vec![callee, caller];
    let mut checker = PointerChecker::new(&scripts, &registry);
    // Deliberately NO set_source_cache call.
    let diags = checker.run();

    let warning = diags
        .diagnostics()
        .iter()
        .find(|d| d.severity == Severity::Warning && d.message.contains("stale `last_useitem`"))
        .expect("warning still fires without source cache");

    assert_eq!(warning.help.len(), 1);
    let help = &warning.help[0];
    assert_eq!(
        help.suggestions.len(),
        0,
        "prose-only help should have no concrete suggestions"
    );
    assert_eq!(help.applicability, Applicability::Unspecified);
}
