use house_builder::color::{
    add_color_to_history, enter_hex_code, hex_code_splits_a_char, normalize_hex,
    parse_hex_color, pick_history_color, pick_wheel_color, rgb_hex_name, ColorInputBuffer,
    ColorPickerState, HexColor, HISTORY_LIMIT,
};

fn rgba(red: u8, green: u8, blue: u8, alpha: u8) -> HexColor {
    HexColor { red, green, blue, alpha }
}

#[test]
fn parses_six_digit_code_with_hash() {
    assert_eq!(parse_hex_color("#FF0000"), Some(rgba(255, 0, 0, 255)));
}

#[test]
fn parses_eight_digit_code_without_hash() {
    assert_eq!(parse_hex_color("00FF00FF"), Some(rgba(0, 255, 0, 255)));
    assert_eq!(parse_hex_color("12345678"), Some(rgba(0x12, 0x34, 0x56, 0x78)));
}

#[test]
fn parses_lower_case_and_surrounding_white_space() {
    assert_eq!(parse_hex_color("  #ccb399\t\n"), Some(rgba(0xCC, 0xB3, 0x99, 255)));
    assert_eq!(parse_hex_color("\u{3000}#aBcDeF\u{a0}"), Some(rgba(0xAB, 0xCD, 0xEF, 255)));
}

#[test]
fn rejects_wrong_lengths() {
    assert_eq!(parse_hex_color(""), None);
    assert_eq!(parse_hex_color("#"), None);
    assert_eq!(parse_hex_color("#FFF"), None);
    assert_eq!(parse_hex_color("#FFFFFFF"), None);
    assert_eq!(parse_hex_color("#FFFFFFFFF"), None);
}

#[test]
fn only_one_hash_is_removed() {
    assert_eq!(parse_hex_color("##FFFFF"), None);
    assert_eq!(parse_hex_color("##FFFFFF"), None);
}

#[test]
fn rejects_non_digits() {
    assert_eq!(parse_hex_color("#GG0000"), None);
    assert_eq!(parse_hex_color("#00 000"), None);
    assert_eq!(parse_hex_color("-10000"), None);
}

#[test]
fn a_plus_sign_is_no_digit() {
    assert_eq!(parse_hex_color("+F0000"), None);
    assert_eq!(parse_hex_color("00+A00FF"), None);
    assert_eq!(parse_hex_color("#+F+F+F"), None);
}

#[test]
fn non_ascii_on_channel_bounds_reads_as_nothing() {
    // "é" takes two bytes and fills the second channel exactly.
    let code = "AB\u{e9}CD";
    assert!(!hex_code_splits_a_char(code));
    assert_eq!(parse_hex_color(code), None);
}

#[test]
fn codes_that_would_split_a_character_read_as_nothing() {
    // "é" takes bytes 1..3, so the first channel's cut splits it.
    assert!(hex_code_splits_a_char("f\u{e9}fff"));
    assert_eq!(parse_hex_color("f\u{e9}fff"), None);
    assert_eq!(parse_hex_color("A\u{20ac}BC"), None);
    let mut name = String::from("#CCB399");
    let mut input = ColorInputBuffer::default();
    let mut picker = ColorPickerState::default();
    assert_eq!(enter_hex_code(&mut name, &mut input, &mut picker, "f\u{e9}fff"), None);
    assert_eq!(input.text, "f\u{e9}fff");
    assert_eq!(name, "#CCB399");
}

#[test]
fn normal_form_is_its_own_normal_form() {
    for code in [" #ff00aa ", "##abc", "", "zz+9", "\t#0a0B0c ", "a:b\\c"] {
        let once = normalize_hex(code);
        assert!(once.starts_with('#'));
        assert!(!once[1..].starts_with('#'));
        assert!(!once.chars().any(|c| c.is_ascii_lowercase()));
        assert_eq!(normalize_hex(&once), once);
    }
    assert_eq!(normalize_hex("##abc"), "#ABC");
    assert_eq!(normalize_hex("#\u{e9}t\u{e9}"), "#\u{c9}T\u{c9}");
}

#[test]
fn cuts_through_a_character_are_detected() {
    // The three-byte "€" straddles the cut after the first channel.
    assert!(hex_code_splits_a_char("A\u{20ac}BC"));
    // A wrong first channel is read before the cut would be made.
    assert!(!hex_code_splits_a_char("ZZ\u{20ac}B"));
    assert!(!hex_code_splits_a_char("#FF0000"));
    assert!(!hex_code_splits_a_char("\u{20ac}\u{20ac}\u{20ac}"));
}

#[test]
fn wheel_name_reads_back() {
    let name = rgb_hex_name(0xCC, 0x0B, 0x99);
    assert_eq!(name, "#CC0B99");
    assert_eq!(parse_hex_color(&name), Some(rgba(0xCC, 0x0B, 0x99, 255)));
    assert_eq!(rgb_hex_name(0, 0, 0), "#000000");
    assert_eq!(rgb_hex_name(255, 255, 255), "#FFFFFF");
}

#[test]
fn normalizes_codes() {
    assert_eq!(normalize_hex("  ##ff00aa "), "#FF00AA");
    assert_eq!(normalize_hex("abc"), "#ABC");
    assert_eq!(normalize_hex(""), "#");
    assert_eq!(normalize_hex("#CCB399"), "#CCB399");
}

#[test]
fn normalized_code_reads_as_the_same_colour() {
    for code in ["#ff00aa", " 0a0b0c0d ", "#abcdef"] {
        assert_eq!(parse_hex_color(&normalize_hex(code)), parse_hex_color(code));
    }
}

fn strings(items: &[&str]) -> Vec<String> {
    items.iter().map(|s| s.to_string()).collect()
}

#[test]
fn history_puts_colour_first_and_drops_copies() {
    let mut h = strings(&["#111111", "#222222", "#111111", "#333333"]);
    add_color_to_history(&mut h, "#111111");
    assert_eq!(h, strings(&["#111111", "#222222", "#333333"]));
    add_color_to_history(&mut h, "#444444");
    assert_eq!(h, strings(&["#444444", "#111111", "#222222", "#333333"]));
}

#[test]
fn history_is_cut_to_its_limit() {
    let mut h = Vec::new();
    for i in 0..20 {
        add_color_to_history(&mut h, &format!("#{:06}", i));
    }
    assert_eq!(h.len(), HISTORY_LIMIT);
    assert_eq!(h[0], "#000019");
    assert_eq!(h[HISTORY_LIMIT - 1], "#000005");
}

#[test]
fn history_reuse_changes_nothing() {
    let mut h = strings(&["#AAAAAA", "#BBBBBB"]);
    add_color_to_history(&mut h, "#CCCCCC");
    let once = h.clone();
    add_color_to_history(&mut h, "#CCCCCC");
    assert_eq!(h, once);
}

#[test]
fn history_stays_free_of_repeats() {
    let mut h = Vec::new();
    for c in ["#1", "#2", "#1", "#3", "#2", "#2", "#4"] {
        add_color_to_history(&mut h, c);
    }
    assert_eq!(h, strings(&["#4", "#2", "#3", "#1"]));
}

#[test]
fn colour_field_starts_with_default() {
    assert_eq!(ColorInputBuffer::default().text, "#CCB399");
    let p = ColorPickerState::default();
    assert!(!p.is_open && !p.show_history && p.history.is_empty());
}

#[test]
fn wheel_pick_sets_name_field_and_history() {
    let mut name = String::from("#CCB399");
    let mut input = ColorInputBuffer::default();
    let mut picker = ColorPickerState::default();
    let c = pick_wheel_color(&mut name, &mut input, &mut picker, 1, 2, 254);
    assert_eq!(c, rgba(1, 2, 254, 255));
    assert_eq!(name, "#0102FE");
    assert_eq!(input.text, "#0102FE");
    assert_eq!(picker.history, strings(&["#0102FE"]));
}

#[test]
fn typed_code_that_reads_is_normalized() {
    let mut name = String::from("#CCB399");
    let mut input = ColorInputBuffer::default();
    let mut picker = ColorPickerState::default();
    let c = enter_hex_code(&mut name, &mut input, &mut picker, " #00ff7f");
    assert_eq!(c, Some(rgba(0, 255, 127, 255)));
    assert_eq!(name, "#00FF7F");
    assert_eq!(input.text, "#00FF7F");
    assert_eq!(picker.history, strings(&["#00FF7F"]));
}

#[test]
fn typed_code_that_does_not_read_stays_in_the_field() {
    let mut name = String::from("#CCB399");
    let mut input = ColorInputBuffer::default();
    let mut picker = ColorPickerState::default();
    let c = enter_hex_code(&mut name, &mut input, &mut picker, "#00ff");
    assert_eq!(c, None);
    assert_eq!(name, "#CCB399");
    assert_eq!(input.text, "#00ff");
    assert!(picker.history.is_empty());
}

#[test]
fn history_pick_uses_the_entry_as_it_is() {
    let mut name = String::from("#CCB399");
    let mut input = ColorInputBuffer::default();
    assert_eq!(pick_history_color(&mut name, &mut input, "#ff0000"), Some(rgba(255, 0, 0, 255)));
    assert_eq!(name, "#ff0000");
    assert_eq!(input.text, "#ff0000");
    assert_eq!(pick_history_color(&mut name, &mut input, "nope"), None);
    assert_eq!(name, "#ff0000");
}
