use runec::bytecode::CompiledScript;
use runec::diagnostics::{DiagnosticsCollector, Phase, Severity};
use runec::parser::{ParamDef, ScriptDeclaration, ScriptFile};
use runec::pipeline::{
    cache_key, codegen, compile_parsed, find_testscript_line, parse_source, prepare_source,
    register_scripts, sort_by_id, strip_testscript_annotation, truncate_at_line,
    validate_trigger_subjects, ParseOutcome, ParsedFile, PipelineOutcome,
};
use runec::strmap::StrMap;
use runec::symbol::SymbolRegistry;
use runec::types::Type;

fn decl(trigger: &str, name: &str, line: usize, returns: Vec<Type>) -> ScriptDeclaration {
    ScriptDeclaration {
        trigger: trigger.to_string(),
        name: name.to_string(),
        params: Vec::new(),
        return_types: returns,
        body: Vec::new(),
        line,
    }
}

fn file(path: &str, scripts: Vec<ScriptDeclaration>, testscript_line: Option<usize>) -> ParsedFile {
    ParsedFile {
        path: path.to_string(),
        file: ScriptFile { scripts },
        testscript_line,
        source_path: format!("/abs/{}", path),
    }
}

// ── #testscript boundary ───────────────────────────────────────────────

#[test]
fn testscript_marker_line_is_one_based() {
    assert_eq!(find_testscript_line("[proc,a]\n  #testscript  \n[proc,b]\n"), Some(2));
    assert_eq!(find_testscript_line("#testscript"), Some(1));
}

#[test]
fn testscript_marker_absent() {
    assert_eq!(find_testscript_line("[proc,a]\n// #testscript here\n"), None);
    assert_eq!(find_testscript_line(""), None);
}

#[test]
fn truncate_keeps_lines_before_marker() {
    assert_eq!(truncate_at_line("a\nb\nc\n", 2), "a");
    assert_eq!(truncate_at_line("a\r\nb\r\nc", 3), "a\nb");
    assert_eq!(truncate_at_line("a\nb", 1), "");
}

#[test]
fn truncate_past_the_end_keeps_every_line() {
    assert_eq!(truncate_at_line("a\nb\n", 9), "a\nb");
}

#[test]
fn strip_blanks_marker_lines_only() {
    assert_eq!(strip_testscript_annotation("a\n #testscript\nb\n"), "a\n\nb");
    assert_eq!(strip_testscript_annotation("x"), "x");
}

#[test]
fn prepare_source_drops_or_keeps_test_section() {
    let raw = "[proc,a]\n#testscript\n[proc,t]\n";
    assert_eq!(prepare_source(raw, false), ("[proc,a]".to_string(), None));
    assert_eq!(prepare_source(raw, true), ("[proc,a]\n\n[proc,t]".to_string(), Some(2)));
    assert_eq!(prepare_source("[proc,a]\n", false), ("[proc,a]\n".to_string(), None));
}

#[test]
fn parse_source_reports_lexing_errors() {
    match parse_source("a.rs2", "[proc,a]\nmes(\"open string);\n", false) {
        Some(ParseOutcome::Error { phase, message, .. }) => {
            assert_eq!(phase, Phase::Lexing);
            assert_eq!(message, "Unterminated string literal");
        }
        other => panic!("expected a lexing error, got {:?}", other),
    }
}

#[test]
fn parse_source_parses_declarations() {
    match parse_source("a.rs2", "[proc,first]\n[label,second]\n#testscript\n[proc,third]\n", true) {
        Some(ParseOutcome::Parsed { file, testscript_line }) => {
            assert_eq!(testscript_line, Some(3));
            let names: Vec<&str> = file.scripts.iter().map(|s| s.name.as_str()).collect();
            assert_eq!(names, vec!["first", "second", "third"]);
        }
        other => panic!("expected a parsed file, got {:?}", other),
    }
}

#[test]
fn cache_key_strips_unc_prefix_and_lowercases_content() {
    assert_eq!(cache_key("\\\\?\\C:\\game\\Content\\scripts\\a.rs2"), "C:\\game\\content\\scripts\\a.rs2");
    assert_eq!(cache_key("/srv/Content/a.rs2"), "/srv/Content/a.rs2");
    assert_eq!(cache_key("a\\Content\\b\\Content\\c"), "a\\content\\b\\content\\c");
}

// ── Registration ───────────────────────────────────────────────────────

#[test]
fn registration_warns_in_order() {
    let files = vec![file(
        "a.rs2",
        vec![
            decl("proc", "one", 1, vec![]),
            decl("bogus", "two", 3, vec![]),
            decl("proc", "one", 5, vec![]),
            decl("opnpc1", "man", 7, vec![Type::Int]),
            decl("command", "cmd", 9, vec![Type::Int]),
        ],
        None,
    )];
    let mut r = SymbolRegistry::new();
    let mut d = DiagnosticsCollector::new();
    assert!(register_scripts(&mut r, &mut d, &files));
    let msgs: Vec<(usize, String)> =
        d.diagnostics().iter().map(|x| (x.line, x.message.clone())).collect();
    assert_eq!(
        msgs,
        vec![
            (3, "'bogus' is not a valid trigger type.".to_string()),
            (5, "[proc,one] is already defined.".to_string()),
            (7, "The trigger type 'opnpc1' is not allowed to return values.".to_string()),
        ]
    );
    assert!(d.diagnostics().iter().all(|x| x.severity == Severity::Warning
        && x.phase == Phase::SymbolRegistration
        && x.file == "a.rs2"
        && x.column == 0));
    // `command` declarations are not registered.
    assert!(r.lookup_script_by_trigger("command", "cmd").is_none());
    assert!(r.lookup_script_by_trigger("bogus", "two").is_some());
    // Fresh ids in declaration order: one, two, one again, man.
    assert_eq!(r.next_script_id(), 4);
}

#[test]
fn registration_marks_test_section() {
    let files = vec![file(
        "t.rs2",
        vec![decl("proc", "prod", 1, vec![]), decl("proc", "test", 4, vec![])],
        Some(3),
    )];
    let mut r = SymbolRegistry::new();
    let mut d = DiagnosticsCollector::new();
    assert!(register_scripts(&mut r, &mut d, &files));
    assert!(r.is_test_script("proc", "test"));
    assert!(!r.is_test_script("proc", "prod"));
    assert_eq!(d.diagnostics().len(), 0);
}

#[test]
fn registration_uses_preloaded_ids() {
    let files = vec![file("a.rs2", vec![decl("proc", "known", 1, vec![]), decl("proc", "new", 2, vec![])], None)];
    let mut r = SymbolRegistry::new();
    r.preload_script_id("proc", "known", 40);
    let mut d = DiagnosticsCollector::new();
    assert!(register_scripts(&mut r, &mut d, &files));
    assert_eq!(r.script_id_for_trigger("proc", "known"), Some(40));
    assert_eq!(r.script_id_for_trigger("proc", "new"), Some(0));
    assert_eq!(r.next_script_id(), 1);
}

#[test]
fn registration_redeclaration_across_files() {
    let files = vec![
        file("a.rs2", vec![decl("label", "x", 1, vec![])], None),
        file("b.rs2", vec![decl("label", "x", 2, vec![])], None),
    ];
    let mut r = SymbolRegistry::new();
    let mut d = DiagnosticsCollector::new();
    assert!(register_scripts(&mut r, &mut d, &files));
    assert_eq!(d.diagnostics().len(), 1);
    assert_eq!(d.diagnostics()[0].file, "b.rs2");
    assert_eq!(d.diagnostics()[0].message, "[label,x] is already defined.");
}

// ── Trigger subjects ───────────────────────────────────────────────────

#[test]
fn subject_validation_warns_on_unknown_entity() {
    let files = vec![file(
        "a.rs2",
        vec![decl("opnpc1", "ghost_npc", 2, vec![]), decl("opnpc1", "man", 4, vec![]), decl("proc", "p", 6, vec![])],
        None,
    )];
    let mut r = SymbolRegistry::new();
    r.register_entity_id("man".to_string(), Type::Npc, 1);
    let mut d = DiagnosticsCollector::new();
    validate_trigger_subjects(&files, &r, &mut d);
    assert_eq!(d.diagnostics().len(), 1);
    assert_eq!(d.diagnostics()[0].line, 2);
    assert!(d.diagnostics()[0].message.starts_with("[opnpc1,ghost_npc] — subject `ghost_npc` did not resolve"));
}

// ── Code generation and ordering ───────────────────────────────────────

#[test]
fn codegen_skips_commands_and_records_source_path() {
    let files = vec![
        file("a.rs2", vec![decl("proc", "a", 1, vec![]), decl("command", "c", 2, vec![])], None),
        file("b.rs2", vec![decl("label", "b", 1, vec![Type::Int])], None),
    ];
    let mut r = SymbolRegistry::new();
    let mut d = DiagnosticsCollector::new();
    assert!(register_scripts(&mut r, &mut d, &files));
    let (compiled, _r) = codegen(&files, r);
    let names: Vec<(&str, &str)> =
        compiled.iter().map(|c| (c.name.as_str(), c.source_path.as_str())).collect();
    assert_eq!(names, vec![("[proc,a]", "/abs/a.rs2"), ("[label,b]", "/abs/b.rs2")]);
    assert_eq!(compiled[0].id, 0);
    assert_eq!(compiled[1].id, 1);
}

#[test]
fn sort_by_id_is_stable() {
    let v = vec![
        CompiledScript::new("a".to_string(), 3),
        CompiledScript::new("b".to_string(), 1),
        CompiledScript::new("c".to_string(), 3),
        CompiledScript::new("d".to_string(), -1),
        CompiledScript::new("e".to_string(), 1),
    ];
    let sorted = sort_by_id(v);
    let names: Vec<&str> = sorted.iter().map(|c| c.name.as_str()).collect();
    assert_eq!(names, vec!["d", "b", "e", "a", "c"]);
}

// ── Whole pipeline ─────────────────────────────────────────────────────

#[test]
fn pipeline_stops_after_parse_errors() {
    let files = vec![file("a.rs2", vec![decl("proc", "a", 1, vec![])], None)];
    let mut r = SymbolRegistry::new();
    let mut d = DiagnosticsCollector::new();
    d.error("a.rs2".to_string(), 1, 1, "Unterminated string literal".to_string(), Phase::Lexing);
    let out = compile_parsed(&files, &mut r, &mut d, false, None);
    assert!(matches!(out, PipelineOutcome::ParseFailed));
    assert_eq!(d.diagnostics().len(), 1);
    assert_eq!(r.next_script_id(), 0);
}

#[test]
fn pipeline_compiles_in_id_order() {
    let files = vec![
        file("a.rs2", vec![decl("proc", "late", 1, vec![]), decl("proc", "early", 3, vec![])], None),
    ];
    let mut r = SymbolRegistry::new();
    r.preload_script_id("proc", "late", 7);
    let mut d = DiagnosticsCollector::new();
    let cache: StrMap<String> = StrMap::new();
    match compile_parsed(&files, &mut r, &mut d, true, Some(&cache)) {
        PipelineOutcome::Compiled(v) => {
            let got: Vec<(&str, i32)> = v.iter().map(|c| (c.name.as_str(), c.id)).collect();
            assert_eq!(got, vec![("[proc,early]", 0), ("[proc,late]", 7)]);
        }
        other => panic!("expected compiled scripts, got {:?}", other),
    }
    assert!(d.diagnostics().iter().all(|x| x.severity == Severity::Warning));
}

#[test]
fn pipeline_parses_and_compiles_source_text() {
    let parsed = match parse_source("m.rs2", "[proc,main]\ndef_int $x = 1;\n", false) {
        Some(ParseOutcome::Parsed { file, testscript_line }) => ParsedFile {
            path: "m.rs2".to_string(),
            file,
            testscript_line,
            source_path: "/abs/m.rs2".to_string(),
        },
        other => panic!("expected a parsed file, got {:?}", other),
    };
    let mut r = SymbolRegistry::new();
    let mut d = DiagnosticsCollector::new();
    match compile_parsed(&[parsed], &mut r, &mut d, true, None) {
        PipelineOutcome::Compiled(v) => {
            assert_eq!(v.len(), 1);
            assert_eq!(v[0].name, "[proc,main]");
            assert_eq!(v[0].source_path, "/abs/m.rs2");
        }
        other => panic!("expected compiled scripts, got {:?}", other),
    }
    // `$x` is written and never read.
    let unused: Vec<_> = d.diagnostics().iter().filter(|x| x.message.contains("$x")).collect();
    assert_eq!(unused.len(), 1);
    assert_eq!(unused[0].phase, Phase::PointerCheck);
}

#[test]
fn param_types_reach_the_registry() {
    let mut s = decl("proc", "with_params", 1, vec![]);
    s.params = vec![
        ParamDef { param_type: Type::Int, name: "a".to_string() },
        ParamDef { param_type: Type::String, name: "b".to_string() },
    ];
    let files = vec![file("a.rs2", vec![s], None)];
    let mut r = SymbolRegistry::new();
    let mut d = DiagnosticsCollector::new();
    assert!(register_scripts(&mut r, &mut d, &files));
    assert!(r.lookup_script("with_params").is_some());
}
