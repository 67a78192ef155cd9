use runec::diagnostic_messages::{
    fmt,
    ASSIGN_MULTI_ARRAY,
    BINOP_INVALID_TYPES,
    BINOP_TUPLE_TYPE,
    CASE_WITHOUT_SWITCH,
    CLIENTSCRIPT_NOARGS_EXPECTED,
    CLIENTSCRIPT_REFERENCE_UNRESOLVED,
    COMMAND_NOARGS_EXPECTED,
    COMMAND_REFERENCE_UNRESOLVED,
    CONDITION_INVALID_NODE_TYPE,
    CONDITION_NOT_VALID,
    CONSTANT_CYCLIC_REF,
    CONSTANT_NONCONSTANT,
    CONSTANT_PARSE_ERROR,
    CONSTANT_REFERENCE_UNRESOLVED,
    CONSTANT_UNKNOWN_TYPE,
    EXPRESSION_NO_SUBEXPR,
    GAME_REFERENCE_UNRESOLVED,
    GENERIC_UNRESOLVED_SYMBOL,
    HOOK_TRANSMIT_LIST_UNEXPECTED,
    INVALID_CONDITION,
    JUMP_REFERENCE_UNRESOLVED,
    LOCAL_ARRAY_INVALID_TYPE,
    LOCAL_ARRAY_REFERENCE_NOINDEX,
    LOCAL_DECLARATION_INVALID_TYPE,
    LOCAL_PARAMETER_INVALID_TYPE,
    LOCAL_REFERENCE_UNRESOLVED,
    NULL_CONSTANT,
    POINTER_CORRUPTED,
    POINTER_CORRUPTED_LOC,
    POINTER_REQUIRED_LOC,
    POINTER_UNINITIALIZED,
    PROC_REFERENCE_UNRESOLVED,
    RETURN_ORPHAN,
    SCRIPT_COMMAND_ONLY,
    SCRIPT_LOCAL_REDECLARATION,
    SCRIPT_REDECLARATION,
    SCRIPT_SUBJECT_NO_CATEGORY,
    SCRIPT_SUBJECT_NO_GLOBAL,
    SCRIPT_SUBJECT_NO_SPACES,
    SCRIPT_SUBJECT_ONLY_GLOBAL,
    SCRIPT_TRIGGER_EXPECTED_PARAMETERS,
    SCRIPT_TRIGGER_EXPECTED_RETURNS,
    SCRIPT_TRIGGER_INVALID,
    SCRIPT_TRIGGER_NO_PARAMETERS,
    SCRIPT_TRIGGER_NO_RETURNS,
    SWITCH_CASE_NOT_CONSTANT,
    SWITCH_DUPLICATE_DEFAULT,
    SWITCH_INVALID_TYPE,
    SYMBOL_IS_NULL,
    TRIGGER_TYPE_NOT_FOUND,
    TYPE_HAS_NO_BASETYPE,
    TYPE_HAS_NO_DEFAULT,
    UNSUPPORTED_SYMBOLTYPE_TO_TYPE,
};

#[test]
fn fmt_no_args() {
    assert_eq!(fmt("no placeholders here", &[]), "no placeholders here");
}

#[test]
fn fmt_single_arg() {
    assert_eq!(fmt("hello %s", &["world"]), "hello world");
}

#[test]
fn fmt_multiple_args() {
    assert_eq!(
        fmt(
            "Type mismatch: '%s' was given but '%s' was expected.",
            &["int", "string"]
        ),
        "Type mismatch: 'int' was given but 'string' was expected."
    );
}

#[test]
fn fmt_game_var_sigil() {
    assert_eq!(
        fmt(GAME_REFERENCE_UNRESOLVED, &["testing_maine"]),
        "'%testing_maine' cannot be resolved to a game variable."
    );
}

#[test]
fn fmt_local_var_sigil() {
    assert_eq!(
        fmt(LOCAL_REFERENCE_UNRESOLVED, &["myvar"]),
        "'$myvar' cannot be resolved to a local variable."
    );
}

#[test]
fn fmt_proc_sigil() {
    assert_eq!(
        fmt(PROC_REFERENCE_UNRESOLVED, &["myproc"]),
        "'~myproc' cannot be resolved to a proc."
    );
}

#[test]
fn fmt_jump_sigil() {
    assert_eq!(
        fmt(JUMP_REFERENCE_UNRESOLVED, &["mylabel"]),
        "'@mylabel' cannot be resolved to a label."
    );
}

#[test]
fn fmt_constant_sigil() {
    assert_eq!(
        fmt(CONSTANT_REFERENCE_UNRESOLVED, &["myconst"]),
        "'^myconst' cannot be resolved to a constant."
    );
}

#[test]
fn fmt_internal_errors() {
    assert_eq!(
        fmt(UNSUPPORTED_SYMBOLTYPE_TO_TYPE, &["Foo"]),
        "Internal compiler error: Unsupported SymbolType -> Type conversion: Foo"
    );
    assert_eq!(
        CASE_WITHOUT_SWITCH,
        "Internal compiler error: Case without switch statement as parent."
    );
    assert_eq!(
        RETURN_ORPHAN,
        "Internal compiler error: Orphaned `return` statement, no parent `script` node found."
    );
    assert_eq!(
        fmt(TRIGGER_TYPE_NOT_FOUND, &["clientscript"]),
        "Internal compiler error: The trigger 'clientscript' has no declaration."
    );
    assert_eq!(
        SYMBOL_IS_NULL,
        "Internal compiler error: Symbol has not been defined for the node."
    );
    assert_eq!(
        fmt(TYPE_HAS_NO_BASETYPE, &["void"]),
        "Internal compiler error: Type has no defined base type: void."
    );
    assert_eq!(
        fmt(TYPE_HAS_NO_DEFAULT, &["void"]),
        "Internal compiler error: Return type 'void' has no defined default value."
    );
    assert_eq!(
        fmt(INVALID_CONDITION, &["Calc"]),
        "Internal compiler error: Calc is not a supported expression type for conditions."
    );
    assert_eq!(
        fmt(NULL_CONSTANT, &["^myconst"]),
        "Internal compiler error: ^myconst evaluated to 'null' constant value."
    );
    assert_eq!(
        EXPRESSION_NO_SUBEXPR,
        "Internal compiler error: No sub expression node."
    );
}

#[test]
fn fmt_generic_messages() {
    assert_eq!(
        fmt(GENERIC_UNRESOLVED_SYMBOL, &["mystery_item"]),
        "'mystery_item' could not be resolved to a symbol."
    );
}

#[test]
fn fmt_script_messages() {
    assert_eq!(
        fmt(SCRIPT_REDECLARATION, &["proc", "myproc"]),
        "[proc,myproc] is already defined."
    );
    assert_eq!(
        fmt(SCRIPT_LOCAL_REDECLARATION, &["count"]),
        "'$count' is already defined."
    );
    assert_eq!(
        fmt(SCRIPT_TRIGGER_INVALID, &["badtrig"]),
        "'badtrig' is not a valid trigger type."
    );
    assert_eq!(
        SCRIPT_COMMAND_ONLY,
        "Using a '*' is only allowed for commands."
    );
    assert_eq!(
        fmt(SCRIPT_TRIGGER_NO_PARAMETERS, &["debugproc"]),
        "The trigger type 'debugproc' is not allowed to have parameters defined."
    );
    assert_eq!(
        fmt(SCRIPT_TRIGGER_EXPECTED_PARAMETERS, &["queue", "int"]),
        "The trigger type 'queue' is expected to accept (int)."
    );
    assert_eq!(
        fmt(SCRIPT_TRIGGER_NO_RETURNS, &["label"]),
        "The trigger type 'label' is not allowed to return values."
    );
    assert_eq!(
        fmt(SCRIPT_TRIGGER_EXPECTED_RETURNS, &["proc", "int"]),
        "The trigger type 'proc' is expected to return (int)."
    );
    assert_eq!(
        fmt(SCRIPT_SUBJECT_ONLY_GLOBAL, &["login"]),
        "Trigger 'login' only allows global subjects."
    );
    assert_eq!(
        fmt(SCRIPT_SUBJECT_NO_GLOBAL, &["proc"]),
        "Trigger 'proc' does not allow global subjects."
    );
    assert_eq!(
        fmt(SCRIPT_SUBJECT_NO_CATEGORY, &["proc"]),
        "Trigger 'proc' does not allow category subjects."
    );
    assert_eq!(
        fmt(SCRIPT_SUBJECT_NO_SPACES, &["proc"]),
        "Trigger 'proc' does not allow spaces in subjects."
    );
}

#[test]
fn fmt_switch_messages() {
    assert_eq!(
        fmt(SWITCH_INVALID_TYPE, &["string"]),
        "'string' is not allowed within a switch statement."
    );
    assert_eq!(SWITCH_DUPLICATE_DEFAULT, "Duplicate default label.");
    assert_eq!(
        SWITCH_CASE_NOT_CONSTANT,
        "Switch case value is not a constant expression."
    );
}

#[test]
fn fmt_assignment_messages() {
    assert_eq!(
        ASSIGN_MULTI_ARRAY,
        "Arrays are not allowed in multi-assignment statements."
    );
}

#[test]
fn fmt_condition_messages() {
    assert_eq!(
        CONDITION_INVALID_NODE_TYPE,
        "Conditions are only allowed to be binary expressions."
    );
    assert_eq!(CONDITION_NOT_VALID, "Condition is not valid.");
}

#[test]
fn fmt_binary_messages() {
    assert_eq!(
        fmt(BINOP_INVALID_TYPES, &["+", "string", "int"]),
        "Operator '+' cannot be applied to 'string', 'int'."
    );
    assert_eq!(
        fmt(BINOP_TUPLE_TYPE, &["Left", "int, string"]),
        "Left side of binary expressions can only have one type but has 'int, string'."
    );
}

#[test]
fn fmt_call_messages() {
    assert_eq!(
        fmt(COMMAND_REFERENCE_UNRESOLVED, &["badcmd"]),
        "'badcmd' cannot be resolved to a command."
    );
    assert_eq!(
        fmt(COMMAND_NOARGS_EXPECTED, &["mes", "int"]),
        "'mes' is expected to have no arguments but has 'int'."
    );
    assert_eq!(
        fmt(CLIENTSCRIPT_REFERENCE_UNRESOLVED, &["badcs"]),
        "'badcs' cannot be resolved to a clientscript."
    );
    assert_eq!(
        fmt(CLIENTSCRIPT_NOARGS_EXPECTED, &["cs", "int"]),
        "'cs' is expected to have no arguments but has 'int'."
    );
    assert_eq!(
        HOOK_TRANSMIT_LIST_UNEXPECTED,
        "Unexpected hook transmit list."
    );
}

#[test]
fn fmt_local_messages() {
    assert_eq!(
        fmt(LOCAL_DECLARATION_INVALID_TYPE, &["void"]),
        "'void' is not allowed to be declared as a type."
    );
    assert_eq!(
        fmt(LOCAL_PARAMETER_INVALID_TYPE, &["void"]),
        "'void' is not allowed to be used as a parameter."
    );
    assert_eq!(
        fmt(LOCAL_ARRAY_INVALID_TYPE, &["string"]),
        "'string' is not allowed to be used as an array."
    );
    assert_eq!(
        fmt(LOCAL_ARRAY_REFERENCE_NOINDEX, &["arr"]),
        "'$arr' is a reference to an array variable without specifying the index."
    );
}

#[test]
fn fmt_constant_messages() {
    assert_eq!(
        fmt(CONSTANT_CYCLIC_REF, &["^a -> ^b -> ^a"]),
        "Cyclic constant references are not permitted: ^a -> ^b -> ^a."
    );
    assert_eq!(
        fmt(CONSTANT_UNKNOWN_TYPE, &["myconst"]),
        "Unable to infer type for '^myconst'."
    );
    assert_eq!(
        fmt(CONSTANT_PARSE_ERROR, &["abc", "int"]),
        "Unable to parse constant value of 'abc' into type 'int'."
    );
    assert_eq!(
        fmt(CONSTANT_NONCONSTANT, &["~proc_call"]),
        "Constant value of '~proc_call' evaluated to a non-constant expression."
    );
}

#[test]
fn fmt_pointer_messages() {
    assert_eq!(
        fmt(POINTER_UNINITIALIZED, &["active_npc"]),
        "Attempt to access uninitialized pointer active_npc."
    );
    assert_eq!(
        fmt(POINTER_CORRUPTED, &["active_npc"]),
        "Attempt to access corrupted pointer active_npc."
    );
    assert_eq!(
        fmt(POINTER_CORRUPTED_LOC, &["active_npc"]),
        "active_npc corrupted here."
    );
    assert_eq!(
        fmt(POINTER_REQUIRED_LOC, &["active_npc"]),
        "active_npc required here."
    );
}
