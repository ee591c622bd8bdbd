use jetem::text::is_white_space_char;

#[test]
fn white_space_matches_std_on_every_char() {
    for u in 0u32..=0x10ffff {
        if let Some(c) = char::from_u32(u) {
            assert_eq!(is_white_space_char(c), c.is_whitespace(), "U+{u:04X}");
        }
    }
}
