use runec::trigger_table::{
    trigger_infos, allows_returns, byte, is_button, is_valid_trigger, subject_type, validates_subject,
};
use runec::types::Type;

#[test]
fn no_duplicate_trigger_names() {
    let mut seen = std::collections::HashSet::new();
    for t in trigger_infos() {
        assert!(seen.insert(t.name), "duplicate trigger name: {}", t.name);
    }
}

#[test]
fn button_triggers_match_legacy_set() {
    // Locks in pointer_checker's old hand-maintained list.
    let expected = [
        "if_button",
        "if_button1",
        "if_button2",
        "if_button3",
        "if_button4",
        "if_button5",
        "if_buttond",
        "inv_button1",
        "inv_button2",
        "inv_button3",
        "inv_button4",
        "inv_button5",
        "inv_buttond",
    ];
    for name in expected {
        assert!(is_button(name), "{} should be a button trigger", name);
    }
    // Spot-check that non-buttons aren't flagged.
    assert!(!is_button("if_close"));
    assert!(!is_button("opnpc1"));
    assert!(!is_button("login"));
}

#[test]
fn known_byte_values() {
    // Anchors against the RuneScriptTS ServerTriggerType.ts byte
    // discriminants. If any of these change, the engine's dispatch
    // will silently desync.
    assert_eq!(byte("opnpc1"), Some(10));
    assert_eq!(byte("opheld1"), Some(140));
    assert_eq!(byte("if_button"), Some(147));
    assert_eq!(byte("if_button1"), Some(149));
    assert_eq!(byte("inv_button1"), Some(149));
    assert_eq!(byte("login"), Some(157));
    assert_eq!(byte("ai_despawn"), Some(167));
    assert_eq!(byte("totally_unknown_trigger"), None);
}

#[test]
fn subject_type_routing() {
    assert_eq!(subject_type("opnpc1"), Some(Type::Npc));
    assert_eq!(subject_type("opobj1"), Some(Type::Obj));
    assert_eq!(subject_type("oploc1"), Some(Type::Loc));
    assert_eq!(subject_type("opheld1"), Some(Type::Obj));
    assert_eq!(subject_type("if_button"), Some(Type::Interface));
    assert_eq!(subject_type("inv_button1"), Some(Type::Component));
    assert_eq!(subject_type("login"), None);
    assert_eq!(subject_type("opplayer1"), None); // flat lookup
}

#[test]
fn validation_skip_list() {
    // Triggers historically excluded from subject validation.
    assert!(!validates_subject("login"));
    assert!(!validates_subject("logout"));
    assert!(!validates_subject("zone"));
    assert!(!validates_subject("zoneexit"));
    assert!(!validates_subject("mapzone"));
    assert!(!validates_subject("mapzoneexit"));
    assert!(!validates_subject("ai_queue1"));
    assert!(!validates_subject("ai_timer"));
    // …but the rest of the byte-keyed triggers do validate.
    assert!(validates_subject("if_button"));
    assert!(validates_subject("opnpc1"));
    assert!(validates_subject("opheld1"));
    assert!(validates_subject("tutorial"));
}

#[test]
fn is_valid_trigger_byte_keyed() {
    assert!(is_valid_trigger("opnpc1"));
    assert!(is_valid_trigger("opheld1"));
    assert!(is_valid_trigger("if_button"));
    assert!(is_valid_trigger("login"));
    assert!(is_valid_trigger("ai_queue1"));
    assert!(is_valid_trigger("ai_despawn"));
}

#[test]
fn is_valid_trigger_name_keyed() {
    assert!(is_valid_trigger("proc"));
    assert!(is_valid_trigger("label"));
    assert!(is_valid_trigger("debugproc"));
    assert!(is_valid_trigger("command"));
    assert!(is_valid_trigger("clientscript"));
    assert!(is_valid_trigger("walktrigger"));
    assert!(is_valid_trigger("queue"));
    assert!(is_valid_trigger("timer"));
    assert!(is_valid_trigger("softtimer"));
}

#[test]
fn is_valid_trigger_extended() {
    assert!(is_valid_trigger("opheld6"));
    assert!(is_valid_trigger("opheld7"));
    assert!(is_valid_trigger("opheld8"));
    assert!(is_valid_trigger("switch_window_mode"));
}

#[test]
fn is_valid_trigger_unknown_rejected() {
    assert!(!is_valid_trigger("not_a_real_trigger"));
    assert!(!is_valid_trigger(""));
    assert!(!is_valid_trigger("procc"));
}

#[test]
fn allows_returns_matches_lib_set() {
    assert!(allows_returns("proc"));
    assert!(allows_returns("clientscript"));
    assert!(allows_returns("command"));
    assert!(allows_returns("logout"));
    assert!(!allows_returns("label"));
    assert!(!allows_returns("debugproc"));
    assert!(!allows_returns("queue"));
    assert!(!allows_returns("timer"));
    assert!(!allows_returns("softtimer"));
    assert!(!allows_returns("walktrigger"));
    assert!(!allows_returns("login"));
    assert!(!allows_returns("opnpc1"));
}

#[test]
fn name_keyed_triggers_have_no_byte() {
    assert_eq!(byte("proc"), None);
    assert_eq!(byte("label"), None);
    assert_eq!(byte("command"), None);
    assert_eq!(byte("walktrigger"), None);
}
