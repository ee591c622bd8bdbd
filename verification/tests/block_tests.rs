use jetem::block::{base64_decode, decode_command, BlockTracker, MAX_OUTPUT};

#[test]
fn drain_returns_each_completed_block_once() {
    let mut t = BlockTracker::new_in_memory();
    t.output_start_with_command("ls".into());
    t.command_end(Some(0));
    assert_eq!(t.drain_completed().len(), 1);
    assert_eq!(t.drain_completed().len(), 0);
}

#[test]
fn base64_decodes_command() {
    assert_eq!(decode_command(b"Z2l0IHB1c2g=").as_deref(), Some("git push"));
}

#[test]
fn base64_rejects_invalid_input() {
    assert_eq!(base64_decode(b"Zm9v!"), None);
    assert_eq!(base64_decode(b"Zm9v"), Some(b"foo".to_vec()));
}

#[test]
fn decode_command_rejects_invalid_utf8() {
    // base64 of the single byte 0xff
    assert_eq!(decode_command(b"/w=="), None);
}

#[test]
fn feed_output_outside_a_block_is_dropped() {
    let mut t = BlockTracker::new_in_memory();
    t.feed_output('x');
    t.output_start_with_command("echo".into());
    t.feed_output('y');
    t.command_end(None);
    let b = t.last().unwrap();
    assert_eq!(b.output, "y");
    assert_eq!(b.exit_code, None);
}

#[test]
fn history_keeps_every_finished_block() {
    let mut t = BlockTracker::new_in_memory();
    for cmd in ["a", "b"] {
        t.output_start_with_command(cmd.into());
        t.command_end(Some(0));
    }
    let cmds: Vec<&str> = t.history().iter().map(|b| b.command.as_str()).collect();
    assert_eq!(cmds, vec!["a", "b"]);
}

#[test]
fn output_is_capped_in_bytes() {
    let mut t = BlockTracker::new_in_memory();
    t.output_start_with_command("yes".into());
    for _ in 0..MAX_OUTPUT - 1 {
        t.feed_output('y');
    }
    // A two-byte char still fits while under the cap, and crosses it.
    t.feed_output('é');
    for _ in 0..100 {
        t.feed_output('y');
    }
    t.command_end(Some(0));
    let b = t.last().unwrap();
    assert_eq!(b.output.len(), MAX_OUTPUT + 1);
    assert!(b.output.ends_with('é'));
}

#[test]
fn base64_round_trips_every_group_length() {
    assert_eq!(base64_decode(b"Zm9vYmFy"), Some(b"foobar".to_vec()));
    assert_eq!(base64_decode(b"Zm9vYmE="), Some(b"fooba".to_vec()));
    assert_eq!(base64_decode(b"Zm9vYg=="), Some(b"foob".to_vec()));
    assert_eq!(base64_decode(b""), Some(Vec::new()));
    assert_eq!(base64_decode(b"/+8A"), Some(vec![0xff, 0xef, 0x00]));
    // Line breaks anywhere change nothing.
    assert_eq!(base64_decode(b"Zm9v\nYm\r\nFy"), Some(b"foobar".to_vec()));
    assert_eq!(base64_decode(b"Zm9v YmFy"), None);
}
