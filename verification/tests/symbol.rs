use runec::symbol::{normalize_comp_name, SymbolRegistry};

#[test]
fn normalize_strips_underscore_before_digits() {
    assert_eq!(normalize_comp_name("com_2"), "com2");
    assert_eq!(normalize_comp_name("com_10"), "com10");
    assert_eq!(normalize_comp_name("com_0"), "com0");
}

#[test]
fn normalize_preserves_already_compact_names() {
    assert_eq!(normalize_comp_name("com2"), "com2");
    assert_eq!(normalize_comp_name("com10"), "com10");
    assert_eq!(normalize_comp_name("com0"), "com0");
}

#[test]
fn normalize_preserves_non_digit_underscores() {
    assert_eq!(normalize_comp_name("close_button"), "close_button");
    assert_eq!(normalize_comp_name("thin_swords"), "thin_swords");
    assert_eq!(normalize_comp_name("title"), "title");
}

#[test]
fn normalize_only_strips_alpha_digit_boundary() {
    // An underscore between two digits stays.
    assert_eq!(normalize_comp_name("layer_2_3"), "layer2_3");
    // An underscore between a digit and a letter stays.
    assert_eq!(normalize_comp_name("3_panel"), "3_panel");
}

/// Components named `com0`..`com9`, as the newer packs name them.
fn registry_647_style() -> SymbolRegistry {
    let mut r = SymbolRegistry::new();
    r.register_interface_id("multi2", 228);
    for i in 0..10 {
        r.register_component("multi2", &format!("com{}", i), (228 << 16) | i);
    }
    r
}

#[test]
fn lookup_647_pack_with_647_reference() {
    let r = registry_647_style();
    assert_eq!(r.lookup_component("multi2", "com2"), Some((228 << 16) | 2));
    assert_eq!(r.lookup_component("multi2", "com9"), Some((228 << 16) | 9));
}

#[test]
fn lookup_647_pack_with_225_reference() {
    let r = registry_647_style();
    assert_eq!(r.lookup_component("multi2", "com_2"), Some((228 << 16) | 2));
    assert_eq!(r.lookup_component("multi2", "com_9"), Some((228 << 16) | 9));
    assert_eq!(r.lookup_component("multi2", "com_0"), Some(228 << 16));
}

/// Components registered from the older pack style, normalized on load.
fn registry_225_style() -> SymbolRegistry {
    let mut r = SymbolRegistry::new();
    r.register_interface_id("multi2", 228);
    for i in 0..10 {
        r.register_component("multi2", &format!("com{}", i), 2459 + i);
    }
    r
}

#[test]
fn lookup_225_pack_with_225_reference() {
    let r = registry_225_style();
    assert_eq!(r.lookup_component("multi2", "com_0"), Some(2459));
    assert_eq!(r.lookup_component("multi2", "com_5"), Some(2464));
}

#[test]
fn lookup_225_pack_with_647_reference() {
    let r = registry_225_style();
    assert_eq!(r.lookup_component("multi2", "com0"), Some(2459));
    assert_eq!(r.lookup_component("multi2", "com5"), Some(2464));
}

#[test]
fn lookup_returns_none_for_unknown_component() {
    let r = registry_647_style();
    assert_eq!(r.lookup_component("multi2", "nonexistent"), None);
    assert_eq!(r.lookup_component("unknown_iface", "com0"), None);
}
