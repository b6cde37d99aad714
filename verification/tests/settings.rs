use zeron::settings::{
    combo_from_keystroke, conflicted_shortcuts, display_combo, platform_combo, KeymapConfig,
    SavePolicy, Schedule, SettingsStore, ShortcutId,
};

#[test]
fn stale_revision_cannot_be_considered_the_latest_save() {
    let mut store = SettingsStore::init((256.0f32, "Geist"));

    store.replace((300.0, "Geist"), true, SavePolicy::Debounced);
    let stale_revision = store.flush().unwrap();

    store.replace((300.0, "Arial"), true, SavePolicy::Debounced);
    assert!(!store.mark_saved(stale_revision));

    let latest_revision = store.flush().unwrap();
    assert!(store.mark_saved(latest_revision));
    assert_eq!(store.current.0, 300.0);
    assert_eq!(store.current.1, "Arial");
}

#[test]
fn keymap_defaults_and_reset() {
    let mut keymap = KeymapConfig::default();
    assert_eq!(keymap.get(ShortcutId::ToggleSidebar), "mod-s");
    assert_eq!(keymap.get(ShortcutId::ToggleChanges), "mod-b");
    assert_eq!(keymap.get(ShortcutId::ToggleTerminal), "mod-j");
    keymap.set(ShortcutId::ToggleSidebar, "mod-shift-x".into());
    assert_eq!(keymap.get(ShortcutId::ToggleSidebar), "mod-shift-x");
    keymap.reset(ShortcutId::ToggleSidebar);
    assert_eq!(keymap.get(ShortcutId::ToggleSidebar), "mod-s");
}

#[test]
fn combo_recording() {
    // Primary modifier (ctrl or cmd) normalizes to "mod".
    assert_eq!(combo_from_keystroke(true, false, false, false, "s"), Some("mod-s".into()));
    assert_eq!(combo_from_keystroke(false, false, false, true, "s"), Some("mod-s".into()));
    assert_eq!(combo_from_keystroke(true, true, true, false, "K"), Some("mod-alt-shift-k".into()));
    // Plain keys record without modifiers (Esc is filtered by the caller).
    assert_eq!(combo_from_keystroke(false, false, false, false, "f5"), Some("f5".into()));
    // Bare modifier presses record nothing.
    assert_eq!(combo_from_keystroke(true, false, false, false, "ctrl"), None);
    assert_eq!(combo_from_keystroke(false, false, true, false, "shift"), None);
    assert_eq!(combo_from_keystroke(false, false, false, false, ""), None);
}

#[test]
fn conflict_detection() {
    let mut keymap = KeymapConfig::default();
    assert!(conflicted_shortcuts(&keymap).is_empty());
    keymap.set(ShortcutId::ToggleChanges, "mod-s".into());
    let conflicts = conflicted_shortcuts(&keymap);
    assert!(conflicts.contains(&ShortcutId::ToggleSidebar));
    assert!(conflicts.contains(&ShortcutId::ToggleChanges));
    assert!(!conflicts.contains(&ShortcutId::ToggleTerminal));
    keymap.reset(ShortcutId::ToggleChanges);
    assert!(conflicted_shortcuts(&keymap).is_empty());
}

#[test]
fn combo_translation() {
    for macos in [false, true] {
        let primary = if macos { "cmd" } else { "ctrl" };
        assert_eq!(platform_combo("mod-s", macos), format!("{primary}-s"));
        assert_eq!(platform_combo("alt-f4", macos), "alt-f4");
        let display_primary = if macos { "Cmd" } else { "Ctrl" };
        assert_eq!(display_combo("mod-shift-s", macos), format!("{display_primary}+Shift+S"));
        assert_eq!(display_combo("f5", macos), "F5");
    }
}

#[test]
fn letters_outside_ascii_change_their_case() {
    assert_eq!(combo_from_keystroke(true, false, false, false, "Ö"), Some("mod-ö".into()));
    assert_eq!(display_combo("mod-ö", false), "Ctrl+Ö");
    assert_eq!(display_combo("ß", false), "SS");
}

#[test]
fn a_change_is_saved_after_a_while_or_at_once() {
    let mut store = SettingsStore::init(1u8);
    assert_eq!(store.flush(), None);
    assert_eq!(store.replace(2, true, SavePolicy::Debounced), Some(Schedule::After(400)));
    assert_eq!(store.replace(3, true, SavePolicy::Immediate), Some(Schedule::Flush));
    assert_eq!(store.replace(3, false, SavePolicy::Immediate), None);
    let revision = store.flush().unwrap();
    assert!(store.mark_saved(revision));
    assert_eq!(store.flush(), None);
}

#[test]
fn shortcuts_have_their_own_labels_and_combos() {
    let all = ShortcutId::all();
    assert_eq!(all.len(), 4);
    for (i, a) in all.iter().enumerate() {
        for b in &all[i + 1..] {
            assert_ne!(a.label(), b.label());
            assert_ne!(a.default_combo(), b.default_combo());
        }
    }
}
