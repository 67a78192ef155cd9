//! Diagnostic message templates. [`fmt`] substitutes `%s` placeholders.
use vstd::prelude::*;
use crate::strings::{chars_of, find_chars_from, first_occurrence, string_from_chars};

verus! {

// Internal compiler errors
pub const UNSUPPORTED_SYMBOLTYPE_TO_TYPE: &'static str =
    "Internal compiler error: Unsupported SymbolType -> Type conversion: %s";
pub const CASE_WITHOUT_SWITCH: &'static str =
    "Internal compiler error: Case without switch statement as parent.";
pub const RETURN_ORPHAN: &'static str =
    "Internal compiler error: Orphaned `return` statement, no parent `script` node found.";
pub const TRIGGER_TYPE_NOT_FOUND: &'static str =
    "Internal compiler error: The trigger '%s' has no declaration.";

// Code gen internal compiler errors
pub const SYMBOL_IS_NULL: &'static str =
    "Internal compiler error: Symbol has not been defined for the node.";
pub const TYPE_HAS_NO_BASETYPE: &'static str =
    "Internal compiler error: Type has no defined base type: %s.";
pub const TYPE_HAS_NO_DEFAULT: &'static str =
    "Internal compiler error: Return type '%s' has no defined default value.";
pub const INVALID_CONDITION: &'static str =
    "Internal compiler error: %s is not a supported expression type for conditions.";
pub const NULL_CONSTANT: &'static str = "Internal compiler error: %s evaluated to 'null' constant value.";
pub const EXPRESSION_NO_SUBEXPR: &'static str = "Internal compiler error: No sub expression node.";

// Node type agnostic messages
pub const GENERIC_INVALID_TYPE: &'static str = "'%s' is not a valid type.";
pub const GENERIC_TYPE_MISMATCH: &'static str = "Type mismatch: '%s' was given but '%s' was expected.";
pub const GENERIC_UNRESOLVED_SYMBOL: &'static str = "'%s' could not be resolved to a symbol.";
pub const ARITHMETIC_INVALID_TYPE: &'static str =
    "Type mismatch: '%s' was given but 'int' or 'long' was expected.";

// Script node specific
pub const SCRIPT_REDECLARATION: &'static str = "[%s,%s] is already defined.";
pub const SCRIPT_LOCAL_REDECLARATION: &'static str = "'$%s' is already defined.";
pub const SCRIPT_TRIGGER_INVALID: &'static str = "'%s' is not a valid trigger type.";
pub const SCRIPT_COMMAND_ONLY: &'static str = "Using a '*' is only allowed for commands.";
pub const SCRIPT_TRIGGER_NO_PARAMETERS: &'static str =
    "The trigger type '%s' is not allowed to have parameters defined.";
pub const SCRIPT_TRIGGER_EXPECTED_PARAMETERS: &'static str =
    "The trigger type '%s' is expected to accept (%s).";
pub const SCRIPT_TRIGGER_NO_RETURNS: &'static str =
    "The trigger type '%s' is not allowed to return values.";
pub const SCRIPT_TRIGGER_EXPECTED_RETURNS: &'static str =
    "The trigger type '%s' is expected to return (%s).";
pub const SCRIPT_SUBJECT_ONLY_GLOBAL: &'static str = "Trigger '%s' only allows global subjects.";
pub const SCRIPT_SUBJECT_NO_GLOBAL: &'static str = "Trigger '%s' does not allow global subjects.";
pub const SCRIPT_SUBJECT_NO_CATEGORY: &'static str = "Trigger '%s' does not allow category subjects.";
pub const SCRIPT_SUBJECT_NO_SPACES: &'static str = "Trigger '%s' does not allow spaces in subjects.";

// Switch statement node specific
pub const SWITCH_INVALID_TYPE: &'static str = "'%s' is not allowed within a switch statement.";
pub const SWITCH_DUPLICATE_DEFAULT: &'static str = "Duplicate default label.";
pub const SWITCH_CASE_NOT_CONSTANT: &'static str = "Switch case value is not a constant expression.";

// Assignment statement node specific
pub const ASSIGN_MULTI_ARRAY: &'static str = "Arrays are not allowed in multi-assignment statements.";

// Expression statement node specific
pub const EXPRESSION_STATEMENT_NO_SIDE_EFFECT: &'static str = "Value is discarded.";

// Condition expression specific
pub const CONDITION_INVALID_NODE_TYPE: &'static str =
    "Conditions are only allowed to be binary expressions.";
pub const CONDITION_NOT_VALID: &'static str = "Condition is not valid.";

// Binary expression specific
pub const BINOP_INVALID_TYPES: &'static str = "Operator '%s' cannot be applied to '%s', '%s'.";
pub const BINOP_TUPLE_TYPE: &'static str =
    "%s side of binary expressions can only have one type but has '%s'.";

// Call expression specific
pub const COMMAND_REFERENCE_UNRESOLVED: &'static str = "'%s' cannot be resolved to a command.";
pub const COMMAND_BARE_REQUIRES_ARGS: &'static str = "Command '%s' takes arguments but is used here as a bare value, which compiles to its opcode (an integer), not its result. Did you mean to call it, e.g. `%s(...)`?";
pub const COMMAND_NOARGS_EXPECTED: &'static str = "'%s' is expected to have no arguments but has '%s'.";
pub const PROC_REFERENCE_UNRESOLVED: &'static str = "'~%s' cannot be resolved to a proc.";
pub const PROC_NOARGS_EXPECTED: &'static str = "'~%s' is expected to have no arguments but has '%s'.";
pub const JUMP_REFERENCE_UNRESOLVED: &'static str = "'@%s' cannot be resolved to a label.";
pub const JUMP_NOARGS_EXPECTED: &'static str = "'@%s' is expected to have no arguments but has '%s'.";
pub const CLIENTSCRIPT_REFERENCE_UNRESOLVED: &'static str = "'%s' cannot be resolved to a clientscript.";
pub const CLIENTSCRIPT_NOARGS_EXPECTED: &'static str =
    "'%s' is expected to have no arguments but has '%s'.";
pub const HOOK_TRANSMIT_LIST_UNEXPECTED: &'static str = "Unexpected hook transmit list.";

// Local variable specific
pub const LOCAL_DECLARATION_INVALID_TYPE: &'static str = "'%s' is not allowed to be declared as a type.";
pub const LOCAL_PARAMETER_INVALID_TYPE: &'static str = "'%s' is not allowed to be used as a parameter.";
pub const LOCAL_REFERENCE_UNRESOLVED: &'static str = "'$%s' cannot be resolved to a local variable.";
pub const LOCAL_REFERENCE_NOT_ARRAY: &'static str =
    "Access of indexed value of non-array type variable '$%s'.";
pub const LOCAL_ARRAY_INVALID_TYPE: &'static str = "'%s' is not allowed to be used as an array.";
pub const LOCAL_ARRAY_REFERENCE_NOINDEX: &'static str =
    "'$%s' is a reference to an array variable without specifying the index.";

// Game var specific
pub const GAME_REFERENCE_UNRESOLVED: &'static str = "'%%s' cannot be resolved to a game variable.";

// Constant variable specific
pub const CONSTANT_REFERENCE_UNRESOLVED: &'static str = "'^%s' cannot be resolved to a constant.";
pub const CONSTANT_CYCLIC_REF: &'static str = "Cyclic constant references are not permitted: %s.";
pub const CONSTANT_UNKNOWN_TYPE: &'static str = "Unable to infer type for '^%s'.";
pub const CONSTANT_PARSE_ERROR: &'static str = "Unable to parse constant value of '%s' into type '%s'.";
pub const CONSTANT_NONCONSTANT: &'static str =
    "Constant value of '%s' evaluated to a non-constant expression.";

// Pointer checking.
//
// Two vocabularies:
//
// 1. Engine-tracked pointers (active_player, p_active_player, active_npc,
//    active_loc, active_obj and their secondary variants). These are
//    enforced at runtime by `ScriptState.pointerCheck`; a missing
//    requirement is a real crash. Strong wording ("uninitialized" /
//    "corrupted") is appropriate.
//
// 2. Static-only pointers (last_*, find_*). These are NOT tracked at
//    runtime — `last_useitem`, `last_com`, etc. are plain fields on the
//    player/script state, and no engine opcode invalidates them based on
//    `p_delay` or subroutine boundaries. A warning here flags a stale
//    reference / brittle ordering, not a crash risk. Softer wording
//    avoids overstating the problem.
pub const POINTER_UNINITIALIZED: &'static str = "Attempt to access uninitialized pointer %s.";
pub const POINTER_CORRUPTED: &'static str = "Attempt to access corrupted pointer %s.";
pub const POINTER_CORRUPTED_LOC: &'static str = "%s corrupted here.";
pub const POINTER_REQUIRED_LOC: &'static str = "%s required here.";

// Softer wording for static-only (last_*, find_*) pointers. These scripts
// compile and run; the warning surfaces code that is brittle to reorder.
pub const POINTER_STALE: &'static str = "Possibly stale `%s` reference — value may not reflect the caller's intent after an intervening delay or subroutine.";
pub const POINTER_STALE_UNINIT: &'static str = "`%s` is not available in this trigger context; the engine gates this read on the entry trigger and will reject it at runtime.";
pub const POINTER_READ_HERE: &'static str = "`%s` is read here.";
pub const POINTER_SUPERSEDED_HERE: &'static str = "`%s` may be superseded on this path (e.g. by `p_delay` or a subroutine that delays); the runtime still returns the original value, but relying on it is brittle.";

// Entity reference lints — fired when an identifier or string literal is
// used at a slot with an entity-typed hint but fails to resolve against
// the registry's typed entity table.
pub const UNRESOLVED_ENTITY_REF: &'static str = "`%s` does not resolve to a known `%s` — the compiler will fall back to a sentinel (`-1` for bare identifiers, raw string for string literals), which the engine cannot use as an entity id.";

// Style lint — string literal whose resolved name is a valid bare
// identifier (no spaces or other quote-forcing chars). Prefer the bare
// form for clarity.
pub const PREFER_BARE_IDENT: &'static str = "`\"%s\"` resolves to a `%s` entity; the bare identifier form is preferred when the name has no spaces.";

pub const TEST_PROC_FROM_PRODUCTION: &'static str = "Cannot call test proc '~%s' from production code. Move the call below #testscript or move the proc above it.";
pub const TEST_LABEL_FROM_PRODUCTION: &'static str = "Cannot jump to test label '@%s' from production code. Move the jump below #testscript or move the label above it.";
pub const TEST_COMMAND_FROM_PRODUCTION: &'static str = "Cannot use test command '%s' from production code. Test commands are only available below #testscript.";


/// `s` with the first `%s` replaced by `arg` (unchanged when there is none).
pub open spec fn replace_first_placeholder(s: Seq<char>, arg: Seq<char>) -> Seq<char> {
    match first_occurrence(s, seq!['%', 's']) {
        Some(i) => s.take(i) + arg + s.skip(i + 2),
        None => s,
    }
}

/// `template` with its placeholders filled from `args`, one at a time: each
/// argument replaces the first `%s` of the text produced so far.
pub open spec fn filled(template: Seq<char>, args: Seq<Seq<char>>) -> Seq<char>
    decreases args.len(),
{
    if args.len() == 0 {
        template
    } else {
        replace_first_placeholder(filled(template, args.drop_last()), args.last())
    }
}

/// Formats a message template by replacing `%s` placeholders with `args`.
pub fn fmt(template: &str, args: &[&str]) -> (r: String)
    ensures
        r@ == filled(template@, args@.map_values(|a: &str| a@)),
{
    let ghost views = args@.map_values(|a: &str| a@);
    let mut cur = chars_of(template);
    let pat: Vec<char> = vec!['%', 's'];
    assert(pat@ == seq!['%', 's']);
    let mut k: usize = 0;
    while k < args.len()
        invariant
            k <= args@.len(),
            views == args@.map_values(|a: &str| a@),
            pat@ == seq!['%', 's'],
            cur@ == filled(template@, views.take(k as int)),
        decreases args.len() - k,
    {
        let ghost before = cur@;
        match find_chars_from(&cur, &pat, 0) {
            Some(pos) => {
                let arg = chars_of(args[k]);
                let mut next: Vec<char> = Vec::new();
                let mut i: usize = 0;
                while i < pos
                    invariant
                        i <= pos,
                        pos + 2 <= cur@.len(),
                        next@ == cur@.take(i as int),
                    decreases pos - i,
                {
                    next.push(cur[i]);
                    assert(cur@.take(i + 1) == cur@.take(i as int).push(cur@[i as int]));
                    i += 1;
                }
                let mut j: usize = 0;
                while j < arg.len()
                    invariant
                        j <= arg@.len(),
                        pos + 2 <= cur@.len(),
                        next@ == cur@.take(pos as int) + arg@.take(j as int),
                    decreases arg.len() - j,
                {
                    next.push(arg[j]);
                    assert(arg@.take(j + 1) == arg@.take(j as int).push(arg@[j as int]));
                    j += 1;
                }
                let len = cur.len();
                assert(pos + 2 <= len);
                let mut m: usize = pos + 2;
                while m < cur.len()
                    invariant
                        pos + 2 <= m <= cur@.len(),
                        next@ == cur@.take(pos as int) + arg@ + cur@.subrange(pos + 2, m as int),
                    decreases cur.len() - m,
                {
                    next.push(cur[m]);
                    assert(cur@.subrange(pos + 2, m + 1) == cur@.subrange(pos + 2, m as int).push(
                        cur@[m as int],
                    ));
                    m += 1;
                }
                assert(arg@.take(arg@.len() as int) == arg@);
                assert(cur@.subrange(pos + 2, cur@.len() as int) == cur@.skip(pos + 2));
                cur = next;
            },
            None => {},
        }
        assert(views.take(k + 1).drop_last() == views.take(k as int));
        assert(views.take(k + 1).last() == args@[k as int]@);
        k += 1;
    }
    assert(views.take(args@.len() as int) == views);
    string_from_chars(&cur)
}

} // verus!
