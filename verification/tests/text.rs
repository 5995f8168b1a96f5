use lazyscript::text::{is_blank, trim, trim_end};

const SPACES: [(u32, u32); 11] = [
    (0x9, 0xd),
    (0x20, 0x20),
    (0x85, 0x85),
    (0xa0, 0xa0),
    (0x1680, 0x1680),
    (0x2000, 0x200a),
    (0x2028, 0x2028),
    (0x2029, 0x2029),
    (0x202f, 0x202f),
    (0x205f, 0x205f),
    (0x3000, 0x3000),
];

#[test]
fn white_space_is_what_unicode_says() {
    for c in '\0'..=char::MAX {
        let code = c as u32;
        let space = SPACES.iter().any(|(first, last)| *first <= code && code <= *last);
        assert_eq!(is_blank(c.to_string().as_str()), space, "{code:x}");
    }
}

#[test]
fn white_space_is_trimmed_at_the_ends_alone() {
    assert_eq!(trim("\u{3000} a\u{a0}b \u{2028}"), "a\u{a0}b");
    assert_eq!(trim_end("\u{3000} a\u{a0}b \u{2028}"), "\u{3000} a\u{a0}b");
    assert_eq!(trim("\u{85}\u{1680}"), "");
    assert_eq!(trim("\u{200b}"), "\u{200b}");
    assert!(is_blank(""));
}
