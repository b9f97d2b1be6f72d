use workgraph::parse::trim_str;

#[test]
fn white_space_matches_std_for_every_char() {
    for u in 0u32..=0x10FFFF {
        if let Some(c) = char::from_u32(u) {
            let s = c.to_string();
            assert_eq!(trim_str(&s).is_empty(), c.is_whitespace(), "U+{:04X}", u);
        }
    }
}

#[test]
fn trim_removes_unicode_spaces_at_both_ends() {
    assert_eq!(trim_str("\u{3000} a b\u{85}\t"), "a b");
    assert_eq!(trim_str("\u{200B}x"), "\u{200B}x");
}
