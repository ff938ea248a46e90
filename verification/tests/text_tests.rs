use house_builder::text::{char_is_control, char_is_white_space, trim, trim_bounds};

#[test]
fn trims_unicode_white_space() {
    assert_eq!(trim("  a b \t"), "a b");
    assert_eq!(trim("\u{2003}x\u{3000}"), "x");
    assert_eq!(trim("   "), "");
    assert_eq!(trim(""), "");
    assert_eq!(trim("\u{200b}x"), "\u{200b}x");
    assert_eq!(trim_bounds(" \u{e9}\u{e9} "), (1, 3));
}

#[test]
fn white_space_matches_std() {
    for c in ['\t', '\n', ' ', '\u{85}', '\u{a0}', '\u{1680}', '\u{2000}', '\u{200a}', '\u{2028}', '\u{202f}', '\u{205f}', '\u{3000}', 'a', '\u{200b}', '\u{feff}', '\u{180e}'] {
        assert_eq!(char_is_white_space(c), c.is_whitespace(), "{:?}", c);
    }
}

#[test]
fn control_matches_std() {
    for c in ['\0', '\u{1f}', ' ', '\u{7f}', '\u{9f}', '\u{a0}', 'x', '\u{200b}'] {
        assert_eq!(char_is_control(c), c.is_control(), "{:?}", c);
    }
}

#[test]
fn trimming_twice_changes_nothing() {
    for s in ["  a  ", "\u{3000}b\t", "", "   ", "x"] {
        let once = trim(s);
        assert_eq!(trim(once), once);
        if let Some(c) = once.chars().next() {
            assert!(!char_is_white_space(c));
        }
    }
}
