use runec::bytecode::{Opcode, Operand};
use runec::parser::{BinOp, Expr, ScriptDeclaration, Statement};
use runec::compiler::Compiler;
use runec::symbol::SymbolRegistry;
use runec::types::Type;

/// A registry seeded with a few entities and one interface and component pair.
fn seed_registry() -> SymbolRegistry {
    let mut r = SymbolRegistry::new();
    r.register_entity_id("options".to_string(), Type::Interface, 261);
    r.register_entity_id("com14".to_string(), Type::Component, 14);
    r.register_component("options", "com14", (261 << 16) | 14);
    r.register_entity_id("man".to_string(), Type::Npc, 1);
    r.register_entity_id("bronze_axe".to_string(), Type::Obj, 1351);
    r
}

#[test]
fn if_button_resolves_interface_component_form() {
    let r = seed_registry();
    let key = Compiler::compute_lookup_key("if_button", "options:com_14", &r);
    let expected = ((261i64 << 16 | 14) * 1024 + 512 + 147) as i32;
    assert_eq!(key, expected);
    let com_hash = (261i64 << 16 | 14) as i32;
    let engine_key = (com_hash as i64 * 1024 + 512 + 147) as i32;
    assert_eq!(key, engine_key);
}

#[test]
fn validate_warns_on_unresolved_if_button_subject() {
    let r = seed_registry();
    let warning = Compiler::validate_trigger_subject("if_button", "options:com_does_not_exist", &r);
    assert!(warning.is_some(), "expected a warning for unresolved subject");
    assert!(warning.unwrap().contains("did not resolve"));
}

#[test]
fn validate_silent_on_resolvable_subject() {
    let r = seed_registry();
    assert!(Compiler::validate_trigger_subject("if_button", "options:com_14", &r).is_none());
    assert!(Compiler::validate_trigger_subject("opnpc1", "man", &r).is_none());
    assert!(Compiler::validate_trigger_subject("opheld1", "bronze_axe", &r).is_none());
}

#[test]
fn validate_silent_on_wildcards_and_categories() {
    let r = seed_registry();
    assert!(Compiler::validate_trigger_subject("opheld1", "_", &r).is_none());
    assert!(Compiler::validate_trigger_subject("opheldu", "_alcoholic_drinks", &r).is_none());
}

#[test]
fn validate_silent_on_name_keyed_triggers() {
    let r = seed_registry();
    assert!(Compiler::validate_trigger_subject("queue", "my_queue", &r).is_none());
    assert!(Compiler::validate_trigger_subject("timer", "my_timer", &r).is_none());
    assert!(Compiler::validate_trigger_subject("proc", "my_proc", &r).is_none());
}

#[test]
fn validate_silent_on_coord_triggers() {
    let r = seed_registry();
    assert!(Compiler::validate_trigger_subject("zone", "0_50_50_10_10", &r).is_none());
}

#[test]
fn validate_warns_on_unknown_npc_subject() {
    let r = seed_registry();
    let warning = Compiler::validate_trigger_subject("opnpc1", "not_a_real_npc", &r);
    assert!(warning.is_some());
}

#[test]
fn empty_script_compiles_to_default_return() {
    let mut r = SymbolRegistry::new();
    r.register_script("foo".to_string(), "proc".to_string(), vec![], vec![Type::String]);
    let mut c = Compiler::new(r);
    let s = c.compile_script(&ScriptDeclaration {
        trigger: "proc".to_string(),
        name: "foo".to_string(),
        params: vec![],
        return_types: vec![Type::String],
        body: vec![],
        line: 1,
    });
    assert_eq!(s.name, "[proc,foo]");
    assert_eq!(s.id, 0);
    assert_eq!(s.instructions.len(), 2);
    assert!(s.instructions[0].opcode == Opcode::PushConstantString);
    assert!(matches!(&s.instructions[0].operand, Operand::Str(x) if x.is_empty()));
    assert!(s.instructions[1].opcode == Opcode::Return);
    assert_eq!(s.int_local_count, 0);
    assert_eq!(s.string_arg_count, 0);
}

#[test]
fn if_statement_lays_out_condition_body_and_jumps() {
    let mut c = Compiler::new(SymbolRegistry::new());
    let cond = Expr::BinaryOp {
        op: BinOp::Eq,
        lhs: Box::new(Expr::IntLiteral(1)),
        rhs: Box::new(Expr::IntLiteral(2)),
    };
    let s = c.compile_script(&ScriptDeclaration {
        trigger: "proc".to_string(),
        name: "branchy".to_string(),
        params: vec![],
        return_types: vec![],
        body: vec![Statement::If {
            condition: cond,
            body: vec![],
            else_if: vec![],
            else_body: None,
            else_line: 0,
            line: 3,
        }],
        line: 1,
    });
    assert_eq!(s.instructions.len(), 7);
    assert!(s.instructions[0].opcode == Opcode::LineNumber);
    assert!(matches!(s.instructions[0].operand, Operand::Int(3)));
    assert!(s.instructions[3].opcode == Opcode::BranchEquals);
    assert!(matches!(s.instructions[3].operand, Operand::JumpTarget(5)));
    assert!(s.instructions[4].opcode == Opcode::Branch);
    assert!(matches!(s.instructions[4].operand, Operand::JumpTarget(6)));
    assert!(s.instructions[5].opcode == Opcode::Branch);
    assert!(matches!(s.instructions[5].operand, Operand::JumpTarget(6)));
    assert!(s.instructions[6].opcode == Opcode::Return);
}

#[test]
fn return_compiles_each_value_then_returns() {
    let mut c = Compiler::new(SymbolRegistry::new());
    let s = c.compile_script(&ScriptDeclaration {
        trigger: "proc".to_string(),
        name: "twice".to_string(),
        params: vec![],
        return_types: vec![Type::Int, Type::Int],
        body: vec![Statement::Return { values: vec![Expr::IntLiteral(7), Expr::IntLiteral(9)], line: 2 }],
        line: 1,
    });
    assert!(s.instructions[0].opcode == Opcode::LineNumber);
    assert!(s.instructions[1].opcode == Opcode::PushConstantInt);
    assert!(matches!(s.instructions[1].operand, Operand::Int(7)));
    assert!(s.instructions[2].opcode == Opcode::PushConstantInt);
    assert!(matches!(s.instructions[2].operand, Operand::Int(9)));
    assert!(s.instructions[3].opcode == Opcode::Return);
}

#[test]
fn unknown_script_compiles_with_id_minus_one() {
    let mut c = Compiler::new(SymbolRegistry::new());
    let s = c.compile_script(&ScriptDeclaration {
        trigger: "proc".to_string(),
        name: "nowhere".to_string(),
        params: vec![],
        return_types: vec![Type::Int],
        body: vec![],
        line: 1,
    });
    assert_eq!(s.id, -1);
    assert_eq!(s.instructions.len(), 2);
}
