use jetem::keys::{
    canonical, chord_from_tokens, event_global_chord, live_chord, event_prefixed_chord, key_name, mods_prefix, CoreAction, KeyConfig,
    KeyInput, Mods, NamedKey,
};

#[test]
fn canonicalizes_modifier_order_and_case() {
    assert_eq!(canonical("Shift+Ctrl+C").as_deref(), Some("ctrl+shift+c"));
    assert_eq!(canonical("ctrl+shift+c").as_deref(), Some("ctrl+shift+c"));
    assert_eq!(canonical("CMD+k").as_deref(), Some("super+k"));
    assert_eq!(canonical("prefix R").as_deref(), Some("prefix r"));
    assert_eq!(canonical("shift+pageup").as_deref(), Some("shift+pageup"));
}

#[test]
fn rejects_bad_specs() {
    assert_eq!(canonical("ctrl+a+b"), None);
    assert_eq!(canonical("ctrl+"), None);
    assert_eq!(canonical("prefix "), None);
}

#[test]
fn defaults_reproduce_current_bindings() {
    let c = KeyConfig::default();
    assert_eq!(c.prefix, "ctrl+a");
    assert_eq!(c.core_chord(CoreAction::Recall), "prefix r");
    assert_eq!(c.core_chord(CoreAction::Copy), "ctrl+shift+c");
    assert_eq!(c.core_chord(CoreAction::ScrollUp), "shift+pageup");
}

#[test]
fn canonical_accepts_modifier_synonyms_and_spaces() {
    assert_eq!(canonical("  Option + Control + x ").as_deref(), Some("ctrl+alt+x"));
    assert_eq!(canonical("win+meta+q").as_deref(), Some("super+q"));
    assert_eq!(canonical("prefix+|").as_deref(), Some("prefix |"));
}

#[test]
fn canonical_rejects_prefix_as_key_and_bare_modifiers() {
    assert_eq!(canonical("ctrl+prefix"), None);
    assert_eq!(canonical("ctrl+shift"), None);
    assert_eq!(canonical(""), None);
}

#[test]
fn chords_from_key_presses() {
    let mods = Mods { ctrl: true, alt: false, shift: true, sup: false };
    let c = KeyInput::Character("C".to_string());
    assert_eq!(event_global_chord(&c, mods).as_deref(), Some("ctrl+shift+c"));
    assert_eq!(event_prefixed_chord(&KeyInput::Named(NamedKey::PageUp)).as_deref(), Some("prefix pageup"));
    assert_eq!(key_name(&KeyInput::Named(NamedKey::Escape)).as_deref(), Some("esc"));
    assert_eq!(key_name(&KeyInput::Named(NamedKey::Shift)), None);
    assert_eq!(mods_prefix(Mods { ctrl: true, alt: true, shift: true, sup: true }), "ctrl+alt+shift+super+");
}

#[test]
fn overrides_apply_and_bad_specs_are_ignored() {
    let mut c = KeyConfig::default();
    c.apply_overrides(
        Some("Ctrl+B".to_string()),
        &vec![(CoreAction::Recall, "prefix h".to_string()), (CoreAction::Copy, "ctrl++".to_string())],
        &vec![("split".to_string(), "prefix+V".to_string()), ("zap".to_string(), "a+b".to_string())],
    );
    assert_eq!(c.prefix, "ctrl+b");
    assert_eq!(c.core_chord(CoreAction::Recall), "prefix h");
    assert_eq!(c.core_chord(CoreAction::Copy), "ctrl+shift+c");
    assert_eq!(c.commands.get("split").map(|s| s.as_str()), Some("prefix v"));
    assert!(c.commands.get("zap").is_none());
}

#[test]
fn live_chords_read_back_as_themselves() {
    let all = Mods { ctrl: true, alt: true, shift: true, sup: true };
    let keys = [
        KeyInput::Character("C".into()),
        KeyInput::Character("|".into()),
        KeyInput::Named(NamedKey::PageUp),
        KeyInput::Named(NamedKey::ArrowLeft),
    ];
    for key in &keys {
        for mods in [Mods::default(), Mods { shift: true, ..Mods::default() }, all] {
            let live = event_global_chord(key, mods).unwrap();
            assert_eq!(canonical(&live).as_deref(), Some(live.as_str()));
        }
        let pre = event_prefixed_chord(key).unwrap();
        assert_eq!(canonical(&pre).as_deref(), Some(pre.as_str()));
    }
    // The `+` key cannot be written back: its chord does not parse.
    let plus = event_global_chord(&KeyInput::Character("+".into()), all).unwrap();
    assert_eq!(canonical(&plus), None);
}

#[test]
fn normalized_tokens_spell_a_chord() {
    let toks = |v: &[&str]| v.iter().map(|s| s.to_string()).collect::<Vec<String>>();
    assert_eq!(chord_from_tokens(&toks(&["shift", "cmd", "k"])).as_deref(), Some("shift+super+k"));
    assert_eq!(chord_from_tokens(&toks(&["control", "option", "x"])).as_deref(), Some("ctrl+alt+x"));
    assert_eq!(chord_from_tokens(&toks(&["ctrl", "a", "b"])), None);
    assert_eq!(chord_from_tokens(&toks(&["ctrl", ""])), None);
    assert_eq!(chord_from_tokens(&toks(&["ctrl"])), None);
    assert_eq!(chord_from_tokens(&toks(&["prefix"])), None);
    // Tokens are taken as given: an unnormalized modifier is a key.
    assert_eq!(chord_from_tokens(&toks(&["Ctrl", "a"])), None);
    assert_eq!(chord_from_tokens(&toks(&["Q"])).as_deref(), Some("Q"));
}

#[test]
fn live_chord_names_only_chords_that_read_back() {
    let cs = Mods { ctrl: true, shift: true, ..Mods::default() };
    let c = live_chord(&KeyInput::Character("C".into()), cs);
    assert_eq!(c.as_deref(), Some("ctrl+shift+c"));
    assert_eq!(canonical(c.as_deref().unwrap()), c);
    assert_eq!(live_chord(&KeyInput::Named(NamedKey::PageUp), Mods::default()).as_deref(), Some("pageup"));
    assert_eq!(live_chord(&KeyInput::Character("+".into()), cs), None);
    assert_eq!(live_chord(&KeyInput::Character(" ".into()), cs), None);
    assert_eq!(live_chord(&KeyInput::Unidentified, cs), None);
    assert_eq!(live_chord(&KeyInput::Named(NamedKey::Shift), cs), None);
}
