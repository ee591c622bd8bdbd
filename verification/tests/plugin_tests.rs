use jetem::keys::{CoreAction, KeyConfig};
use jetem::plugin::{classify, Action, CommandDef, Envelope, KeyBinding, LineKind, Manifest, Registry};

fn mux(keys: &str) -> Manifest {
    Manifest {
        name: "mux".into(),
        commands: vec![CommandDef { id: "split".into(), title: String::new() }],
        keybindings: vec![KeyBinding { keys: keys.into(), command: "split".into() }],
        events: vec![],
        protocol_version: None,
    }
}

#[test]
fn registry_maps_chord_to_command_and_plugin() {
    let m = mux("prefix |");
    let mut reg = Registry::default();
    reg.apply_manifest(3, &m);
    assert_eq!(reg.action_for_chord("prefix |"), Some(&Action::Plugin { command: "split".into(), plugin: 3 }));
    assert_eq!(reg.action_for_chord("prefix x"), None);
    assert!(matches!(reg.action_for_chord("prefix r"), Some(Action::Core(_))));
}

#[test]
fn user_override_beats_plugin_chord() {
    let mut cfg = KeyConfig::default();
    cfg.commands.insert("split".into(), "prefix v".into());
    let mut reg = Registry::new(&cfg);
    let m = mux("prefix |");
    reg.apply_manifest(1, &m);
    assert!(matches!(reg.action_for_chord("prefix v"), Some(Action::Plugin { .. })));
    assert_eq!(reg.action_for_chord("prefix |"), None);
}

#[test]
fn later_binding_wins_a_shared_chord() {
    let mut reg = Registry::default();
    reg.apply_manifest(1, &mux("prefix r"));
    assert_eq!(reg.action_for_chord("prefix r"), Some(&Action::Plugin { command: "split".into(), plugin: 1 }));
    reg.apply_manifest(2, &mux("prefix r"));
    assert_eq!(reg.action_for_chord("prefix r"), Some(&Action::Plugin { command: "split".into(), plugin: 2 }));
}

#[test]
fn manifest_chords_are_canonicalized_and_bad_ones_skipped() {
    let mut reg = Registry::default();
    let mut m = mux("Prefix G");
    m.keybindings.push(KeyBinding { keys: "ctrl+a+b".into(), command: "other".into() });
    reg.apply_manifest(4, &m);
    assert_eq!(reg.action_for_chord("prefix g"), Some(&Action::Plugin { command: "split".into(), plugin: 4 }));
    assert_eq!(reg.commands.get("split"), Some(&4));
}

#[test]
fn events_collect_subscribers_in_order() {
    let mut reg = Registry::default();
    let mut m = mux("prefix |");
    m.events = vec!["command_end".into()];
    reg.apply_manifest(1, &m);
    reg.apply_manifest(2, &m);
    assert_eq!(reg.events.get("command_end"), Some(&vec![1, 2]));
    assert!(reg.events.get("other").is_none());
}

#[test]
fn default_registry_binds_every_core_action() {
    let reg = Registry::default();
    assert_eq!(reg.action_for_chord("ctrl+shift+v"), Some(&Action::Core(CoreAction::Paste)));
    assert_eq!(reg.action_for_chord("shift+pagedown"), Some(&Action::Core(CoreAction::ScrollDown)));
    assert_eq!(reg.prefix(), "ctrl+a");
}

fn envelope(method: Option<&str>, has_result: bool) -> Envelope {
    Envelope { method: method.map(|m| m.to_string()), has_result }
}

#[test]
fn classify_manifest_line() {
    // {"jsonrpc":"2.0","id":1,"result":{...}}
    assert_eq!(classify(&envelope(None, true)), LineKind::Manifest);
}

#[test]
fn classify_host_action_line() {
    // {"jsonrpc":"2.0","id":7,"method":"host/splitPane","params":{...}}
    assert_eq!(classify(&envelope(Some("host/splitPane"), false)), LineKind::HostAction);
    assert_eq!(classify(&envelope(Some("host/"), true)), LineKind::HostAction);
}

#[test]
fn classify_ignores_plugin_notifications() {
    // {"jsonrpc":"2.0","method":"log","params":{}}
    assert_eq!(classify(&envelope(Some("log"), false)), LineKind::Ignored);
    // A method wins over a result; a line with neither is ignored.
    assert_eq!(classify(&envelope(Some("hostx/split"), true)), LineKind::Ignored);
    assert_eq!(classify(&envelope(None, false)), LineKind::Ignored);
}
