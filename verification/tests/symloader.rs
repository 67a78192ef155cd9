use runec::strmap::StrMap;
use runec::symbol::SymbolRegistry;
use runec::symloader::{
    load_commands, load_dbtable_pack, load_entity_ids, load_script_pack, parse_coord_string,
    regenerate_script_pack, register_constant_value, strip_comments,
};
use runec::types::Type;

// ── 647-style pack ─────────────────────────────────────────────────────
// Format: `<iface_id>=<name>` for roots, `<iface_id>:<comp_id>=<comp_name>`

#[test]
fn load_647_style_registers_components() {
    let pack = "\
228=multi2\n\
228:0=com0\n\
228:1=com1\n\
228:2=com2\n\
228:3=com3\n\
228:6=thin_swords\n\
228:9=wide_swords\n";
    let mut r = SymbolRegistry::new();
    load_entity_ids(&mut r, pack, Type::Interface);

    // Root interface registered
    assert_eq!(r.interface_id("multi2"), Some(228));

    // Components use normalized keys (com0, not com_0)
    assert_eq!(r.lookup_component("multi2", "com0"), Some((228 << 16) | 0));
    assert_eq!(r.lookup_component("multi2", "com2"), Some((228 << 16) | 2));
    assert_eq!(r.lookup_component("multi2", "com3"), Some((228 << 16) | 3));

    // Named components (no digits) are unaffected by normalization
    assert_eq!(r.lookup_component("multi2", "thin_swords"), Some((228 << 16) | 6));
    assert_eq!(r.lookup_component("multi2", "wide_swords"), Some((228 << 16) | 9));
}

#[test]
fn load_647_style_resolves_225_references() {
    let pack = "\
228=multi2\n\
228:0=com0\n\
228:1=com1\n\
228:2=com2\n";
    let mut r = SymbolRegistry::new();
    load_entity_ids(&mut r, pack, Type::Interface);

    // 225-style references (com_0, com_1, com_2) resolve against 647 pack
    assert_eq!(r.lookup_component("multi2", "com_0"), Some((228 << 16) | 0));
    assert_eq!(r.lookup_component("multi2", "com_1"), Some((228 << 16) | 1));
    assert_eq!(r.lookup_component("multi2", "com_2"), Some((228 << 16) | 2));
}

// ── 225-style pack ─────────────────────────────────────────────────────
// Format: `<flat_id>=<iface_name>` for roots, `<flat_id>=<iface_name>:<comp_name>`

#[test]
fn load_225_style_registers_components() {
    let pack = "\
2459=multi2\n\
2460=multi2:com_0\n\
2461=multi2:com_1\n\
2462=multi2:com_2\n\
2463=multi2:com_4\n\
2464=multi2:com_5\n";
    let mut r = SymbolRegistry::new();
    load_entity_ids(&mut r, pack, Type::Interface);

    // Root interface registered
    assert_eq!(r.interface_id("multi2"), Some(2459));

    // 225 references resolve (com_0 normalized to com0 at registration)
    assert_eq!(r.lookup_component("multi2", "com_0"), Some(2460));
    assert_eq!(r.lookup_component("multi2", "com_2"), Some(2462));
    assert_eq!(r.lookup_component("multi2", "com_5"), Some(2464));
}

#[test]
fn load_225_style_resolves_647_references() {
    let pack = "\
2459=multi2\n\
2460=multi2:com_0\n\
2461=multi2:com_1\n\
2462=multi2:com_2\n";
    let mut r = SymbolRegistry::new();
    load_entity_ids(&mut r, pack, Type::Interface);

    // 647-style references (com0, com1, com2) resolve against 225 pack
    assert_eq!(r.lookup_component("multi2", "com0"), Some(2460));
    assert_eq!(r.lookup_component("multi2", "com1"), Some(2461));
    assert_eq!(r.lookup_component("multi2", "com2"), Some(2462));
}

// ── Entity type correctness ────────────────────────────────────────────

#[test]
fn components_register_as_component_type() {
    let pack = "\
228=multi2\n\
228:0=com0\n";
    let mut r = SymbolRegistry::new();
    load_entity_ids(&mut r, pack, Type::Interface);

    // Root → Interface type, component → Component type
    assert!(r.lookup_entity_id_typed("multi2", Type::Interface).is_some());
    assert!(r.lookup_entity_id_typed("com0", Type::Component).is_some());
    assert!(r.lookup_entity_id_typed("com0", Type::Interface).is_none());
}

// ── Pack parsers ───────────────────────────────────────────────────────

#[test]
fn script_pack_preloads_ids() {
    let mut r = SymbolRegistry::new();
    load_script_pack(&mut r, "3=[proc,a]\n9=[label,b]\nbad line\n");
    assert_eq!(r.preloaded_id("proc", "a"), Some(3));
    assert_eq!(r.preloaded_id("label", "b"), Some(9));
    assert_eq!(r.preloaded_id("proc", "b"), None);
}

#[test]
fn dbtable_pack_maps_names_to_ids() {
    let t: StrMap<u16> = load_dbtable_pack("0=quests\n12=shops\n");
    assert_eq!(t.get("quests"), Some(&0));
    assert_eq!(t.get("shops"), Some(&12));
    assert_eq!(t.get("other"), None);
}

#[test]
fn command_pack_registers_opcodes() {
    let mut r = SymbolRegistry::new();
    load_commands(&mut r, "1000=mes\n1001=npc_add\n");
    assert_eq!(r.command_opcode("mes"), Some(1000));
    assert_eq!(r.command_opcode("npc_add"), Some(1001));
}

#[test]
fn regenerated_script_pack_keeps_ids_and_appends_new() {
    let sources = vec![
        ("a.rs2".to_string(), "[proc,b] // note\n[proc,a]\n[command,x]\n".to_string()),
        ("engine.rs2".to_string(), "[proc,engine_only]\n".to_string()),
        ("c.rs2".to_string(), "  [label,c](int $x)\nnot a header\n".to_string()),
    ];
    let (text, n) = regenerate_script_pack("0=[proc,a]\n5=[proc,z]\n", &sources).unwrap();
    assert_eq!(text, "0=[proc,a]\n5=[proc,z]\n6=[proc,b]\n7=[label,c]\n");
    assert_eq!(n, 4);
}

#[test]
fn regenerated_script_pack_from_nothing() {
    let sources = vec![("a.rs2".to_string(), "[proc,one]\n[proc,two]\n".to_string())];
    assert_eq!(
        regenerate_script_pack("", &sources),
        Some(("0=[proc,one]\n1=[proc,two]\n".to_string(), 2))
    );
}

#[test]
fn coord_strings_pack_levels_and_squares() {
    // level_mx_mz_lx_lz
    assert_eq!(parse_coord_string("0_50_50_0_0"), Ok(Some((50 * 64) << 14 | (50 * 64))));
    assert_eq!(parse_coord_string("1_50_50_10_20"), Ok(Some((1 << 28) | ((50 * 64 + 10) << 14) | (50 * 64 + 20))));
    assert_eq!(parse_coord_string("not_a_coord"), Ok(None));
    assert_eq!(parse_coord_string("0_50_50"), Ok(None));
}

#[test]
fn constant_values_register() {
    let mut r = SymbolRegistry::new();
    assert!(register_constant_value(&mut r, "max".to_string(), "28"));
    assert!(register_constant_value(&mut r, "name".to_string(), "\"Bob\""));
    assert!(r.lookup_constant("max").is_some());
    assert!(r.lookup_constant("name").is_some());
    assert!(r.lookup_constant("missing").is_none());
}

#[test]
fn comments_are_stripped_and_blank_lines_dropped() {
    let lines = strip_comments("a=1 // trailing\n\n/* block\nstill */ b=2\n   \nc=3\n");
    assert_eq!(lines, vec!["a=1".to_string(), "b=2".to_string(), "c=3".to_string()]);
}

#[test]
fn comment_free_text_keeps_nonblank_lines() {
    let lines = strip_comments("x=1\n\n  y=2  \n");
    assert_eq!(lines, vec!["x=1".to_string(), "y=2".to_string()]);
}

// ── Engine signatures, var configs, constants, db tables ───────────────

use runec::symbol::SymbolKind;
use runec::symloader::{
    load_constant_files, load_dbtable_configs, load_engine_command_params, load_game_var_types, load_game_vars,
    register_engine_constants,
};

#[test]
fn engine_signatures_set_params_and_results() {
    let mut r = SymbolRegistry::new();
    load_commands(&mut r, "3=sound_synth\n4=npc_find\n");
    load_engine_command_params(
        &mut r,
        "[command,sound_synth](synth $sound, int $loops, mystery $x)\n\
         [command,npc_find](coord $c, npc $n)(boolean, notatype)\n\
         [command,no_params]\n\
         [command,broken](int\n\
         [proc,not_a_command](int $a)\n",
    );
    assert_eq!(r.command_param_types_of("sound_synth"), Some(&vec![Type::Synth, Type::Int, Type::Int]));
    assert_eq!(r.command_param_types_of("npc_find"), Some(&vec![Type::Coord, Type::Npc]));
    assert_eq!(r.command_param_types_of("no_params"), Some(&vec![]));
    assert_eq!(r.command_param_types_of("broken"), None);
    assert_eq!(r.command_param_types_of("not_a_command"), None);
    match &r.lookup_command("npc_find").unwrap().kind {
        SymbolKind::Command { param_types, return_types, .. } => {
            assert_eq!(param_types, &vec![Type::Coord, Type::Npc]);
            assert_eq!(return_types, &vec![Type::Boolean]);
        }
        _ => panic!("npc_find is a command"),
    }
}

#[test]
fn var_configs_refine_types_and_register_unknown_vars() {
    let mut r = SymbolRegistry::new();
    load_game_vars(&mut r, "0=known\n7=other\n", "varp");
    let files = vec![
        ("varp".to_string(), "[known]\ntype=boolean\n// type=int\n[fresh]\ntype = string\n".to_string()),
        ("varn".to_string(), "[nvar]\n".to_string()),
    ];
    assert!(load_game_var_types(&mut r, &files));
    let kind = |name: &str| match &r.lookup_game_var(name).unwrap().kind {
        SymbolKind::GameVar { var_type, var_id, category } => (*var_type, *var_id, category.clone()),
        _ => panic!("{} is a game var", name),
    };
    assert_eq!(kind("known"), (Type::Boolean, 0, "varp".to_string()));
    // `fresh` takes the id past the highest varp id, and `.fresh` with it.
    assert_eq!(kind("fresh"), (Type::String, 8, "varp".to_string()));
    assert_eq!(kind(".fresh"), (Type::String, 8, "varp".to_string()));
    assert_eq!(kind("nvar"), (Type::Int, 0, "varn".to_string()));
}

#[test]
fn constant_files_register_after_comments() {
    let mut r = SymbolRegistry::new();
    let texts = vec![
        "^max_hits = 10 // comment\n/* ^gone = 1\n still gone */ ^after = \"quoted\"\n".to_string(),
        "no_caret = 0x1F\n".to_string(),
    ];
    assert!(load_constant_files(&mut r, &texts));
    assert!(r.lookup_constant("max_hits").is_some());
    assert!(r.lookup_constant("gone").is_none());
    assert!(r.lookup_constant("after").is_some());
    assert!(r.lookup_constant("no_caret").is_some());
}

#[test]
fn constant_files_refuse_out_of_range_coords() {
    let mut r = SymbolRegistry::new();
    let texts = vec!["^far = 0_40000000_0_0_0\n".to_string()];
    assert!(!load_constant_files(&mut r, &texts));
}

#[test]
fn dbtable_configs_pack_columns() {
    let mut r = SymbolRegistry::new();
    let ids = load_dbtable_pack("3=music\n");
    let texts = vec!["[music]\ncolumn=track,int\ncolumn=pair,coord,obj,INDEXED\n[unknown]\ncolumn=x,int\n".to_string()];
    assert!(load_dbtable_configs(&mut r, &texts, &ids));
    assert_eq!(r.lookup_entity_id_typed("music:track", Type::DbColumn), Some(3 << 12));
    assert_eq!(r.lookup_entity_id_typed("music:pair", Type::DbColumn), Some((3 << 12) | (1 << 4)));
    assert_eq!(r.lookup_entity_id_typed("music:pair:0", Type::DbColumn), Some((3 << 12) | (1 << 4) | 1));
    assert_eq!(r.lookup_entity_id_typed("music:pair:1", Type::DbColumn), Some((3 << 12) | (1 << 4) | 2));
    assert_eq!(r.dbcolumn_type("music:pair"), Some(Type::Coord));
    assert_eq!(r.dbcolumn_type("music:track"), Some(Type::Int));
    assert_eq!(r.lookup_entity_id_typed("unknown:x", Type::DbColumn), None);
}

#[test]
fn engine_constants_prefer_player_stats() {
    let mut r = SymbolRegistry::new();
    register_engine_constants(&mut r);
    assert_eq!(r.lookup_entity_id_typed("magic", Type::Stat), Some(6));
    assert_eq!(r.lookup_entity_id_typed("magic", Type::NpcStat), Some(5));
    assert_eq!(r.lookup_entity_id_typed("grounddecor", Type::LocShape), Some(22));
    assert_eq!(r.lookup_entity_id_typed("queue20", Type::NpcMode), Some(66));
}
