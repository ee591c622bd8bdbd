use jetem::config::{command_for, interpreted_command, select_drop_ins, DropEntry, PluginConfig};

#[test]
fn drop_in_maps_known_extensions() {
    assert_eq!(command_for("/p/foo.py", false).as_deref(), Some("python3 /p/foo.py"));
    assert_eq!(command_for("/p/foo.js", false).as_deref(), Some("node /p/foo.js"));
}

#[test]
fn drop_in_skips_unknown_types() {
    assert_eq!(command_for("/p/notes.txt", false), None);
    assert_eq!(command_for("/p/noext", false), None);
}

#[test]
fn executable_files_run_directly() {
    assert_eq!(command_for("/p/tool", true).as_deref(), Some("/p/tool"));
    assert_eq!(command_for("/p/run.sh", false).as_deref(), Some("sh /p/run.sh"));
    assert_eq!(command_for("/p/.py", false), None);
}

fn entry(name: &str, is_file: bool, executable: bool) -> DropEntry {
    DropEntry { name: name.into(), path: format!("/d/{name}"), is_file, executable }
}

#[test]
fn drop_ins_are_filtered_and_sorted() {
    let existing = vec![PluginConfig { command: "python3 /d/listed.py --flag".into() }];
    let entries = vec![
        entry("zeta.py", true, false),
        entry(".hidden.py", true, false),
        entry("dir", false, false),
        entry("listed.py", true, false),
        entry("notes.txt", true, false),
        entry("alpha.js", true, false),
        entry("bin", true, true),
    ];
    let out: Vec<String> = select_drop_ins(&existing, &entries).into_iter().map(|p| p.command).collect();
    assert_eq!(out, vec!["/d/bin", "node /d/alpha.js", "python3 /d/zeta.py"]);
}

#[test]
fn interpreter_follows_the_extension() {
    assert_eq!(interpreted_command("/p/a.b.py", "py").as_deref(), Some("python3 /p/a.b.py"));
    assert_eq!(interpreted_command("/p/x", "js").as_deref(), Some("node /p/x"));
    assert_eq!(interpreted_command("/p/x.sh", "sh").as_deref(), Some("sh /p/x.sh"));
    assert_eq!(interpreted_command("/p/x.PY", "PY"), None);
    assert_eq!(interpreted_command("/p/x.rb", "rb"), None);
}
