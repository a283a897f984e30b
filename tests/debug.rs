use traffloat::debug::DebugEntries;

#[test]
fn entry_starts_empty() {
    let mut entries = DebugEntries::new();
    assert!(!entries.contains("render", "fps"));
    let entry = entries.entry("render", "fps");
    assert_eq!(entry.value(&entries), "");
    assert!(entries.contains("render", "fps"));
    assert!(!entries.contains("render", "tps"));
    assert_eq!(entries.text("render", "fps"), Some(String::new()));
}

#[test]
fn update_through_handle_is_shared() {
    let mut entries = DebugEntries::new();
    let entry = entries.entry("sim", "tick");
    let copy = entry.clone();
    let other = entries.entry("sim", "other");
    entry._update(&mut entries, "42");
    assert_eq!(entries.text("sim", "tick"), Some(String::from("42")));
    assert_eq!(copy.value(&entries), "42");
    assert_eq!(other.value(&entries), "");
    copy._update(&mut entries, "43");
    assert_eq!(entry.value(&entries), "43");
    assert_eq!(entries.text("sim", "other"), Some(String::new()));
}

#[test]
fn entry_update() {
    let mut entries = DebugEntries::new();
    let entry = entries.entry("sim", "tick");
    assert!(entries.update("sim", "tick", "42"));
    assert_eq!(entry.value(&entries), "42");
    assert!(!entries.update("sim", "missing", "1"));
    assert_eq!(entries.text("sim", "missing"), None);
}
