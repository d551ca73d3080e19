use meteo::text::{
    axis, center, char_width, decimal_text, display_width, has_infix, has_prefix, pad_to,
    push_center_aligned, push_left_aligned, push_right_aligned, same_text, signed_text,
};

#[test]
fn width_counts_visible_columns() {
    assert_eq!(display_width("abc"), 3);
    assert_eq!(display_width(""), 0);
    assert_eq!(display_width("\x1b[48;5;21m\x1b[97m  12°C  \x1b[0m"), 8);
    assert_eq!(display_width("☀"), 2);
    assert_eq!(display_width("🌧x"), 3);
    assert_eq!(display_width("↑"), 1);
    assert_eq!(display_width("🠞 "), 2);
    // An escape that never closes hides the rest of the line.
    assert_eq!(display_width("ab\x1b[12 3"), 2);
    assert_eq!(display_width("ab\x1b[12 cd"), 3);
}

#[test]
fn char_widths() {
    assert_eq!(char_width('a'), 1);
    assert_eq!(char_width('\u{2600}'), 2);
    assert_eq!(char_width('\u{27BF}'), 2);
    assert_eq!(char_width('\u{27C0}'), 1);
    assert_eq!(char_width('\u{1F300}'), 2);
    assert_eq!(char_width('\u{1F6FF}'), 2);
    assert_eq!(char_width('\u{1F700}'), 1);
    assert_eq!(char_width('\u{1F900}'), 2);
    assert_eq!(char_width('\u{2B00}'), 2);
    assert_eq!(char_width('\u{2190}'), 1);
    assert_eq!(char_width('\u{1F81E}'), 1);
}

#[test]
fn pad_reaches_target_only_when_narrower() {
    let mut s = String::from("ab");
    pad_to(&mut s, 5);
    assert_eq!(s, "ab   ");
    let mut t = String::from("\x1b[31mab\x1b[0m");
    pad_to(&mut t, 4);
    assert_eq!(t, "\x1b[31mab\x1b[0m  ");
    assert_eq!(display_width(&t), 4);
    let mut u = String::from("abcdef");
    pad_to(&mut u, 3);
    assert_eq!(u, "abcdef");
}

#[test]
fn center_pads_and_truncates() {
    assert_eq!(center("abc", 7), "  abc  ");
    assert_eq!(center("ab", 5), " ab  ");
    assert_eq!(center("abcdef", 3), "abc");
    assert_eq!(center("°C", 2), "°C");
    assert_eq!(center("Temp. °C", 15).chars().count(), 15);
}

#[test]
fn axis_puts_labels_at_both_ends() {
    assert_eq!(axis("-3°", "21°", 10), "-3°    21°");
    assert_eq!(axis("-3°", "21°", 6), "-3°21°");
    assert_eq!(axis("-3°", "21°", 5), "-3°21");
    assert_eq!(axis("-30°", "45°", 2), "-3");
    assert_eq!(axis("1°", "2°", 16).chars().count(), 16);
}

#[test]
fn decimals() {
    assert_eq!(decimal_text(0), "0");
    assert_eq!(decimal_text(7), "7");
    assert_eq!(decimal_text(1013), "1013");
    assert_eq!(decimal_text(u64::MAX), u64::MAX.to_string());
    assert_eq!(signed_text(-5), "-5");
    assert_eq!(signed_text(0), "0");
    assert_eq!(signed_text(42), "42");
    assert_eq!(signed_text(i64::MIN), i64::MIN.to_string());
}

#[test]
fn alignments_match_rust_formatting() {
    for (text, width) in [("7", 4usize), ("1013", 4), ("12345", 4), ("", 3), ("↑", 5), ("ab", 5)] {
        let mut r = String::new();
        push_right_aligned(&mut r, text, width);
        assert_eq!(r, format!("{:>w$}", text, w = width));
        let mut l = String::new();
        push_left_aligned(&mut l, text, width);
        assert_eq!(l, format!("{:<w$}", text, w = width));
        let mut c = String::new();
        push_center_aligned(&mut c, text, width);
        assert_eq!(c, format!("{:^w$}", text, w = width));
    }
}

#[test]
fn prefixes_and_infixes() {
    assert!(has_prefix("xterm-256color", "xterm"));
    assert!(has_prefix("abc", ""));
    assert!(!has_prefix("xt", "xterm"));
    assert!(has_infix("xterm-256color", "256color"));
    assert!(has_infix("256color", "256color"));
    assert!(!has_infix("xterm-color", "256color"));
    assert!(has_infix("", ""));
    assert!(same_text("fr", "fr"));
    assert!(!same_text("fr", "en"));
    assert!(!same_text("fr", "fra"));
}

#[test]
fn widths_add_up_and_count_each_character() {
    let a = "\x1b[31mab\x1b[0m";
    let b = "☀c";
    assert_eq!(display_width(&format!("{}{}", a, b)), display_width(a) + display_width(b));
    assert_eq!(display_width(&format!("{}{}", a, b)), 5);
    let s = "a☀↑🌧";
    let sum: usize = s.chars().map(char_width).sum();
    assert_eq!(display_width(s), sum);
    assert_eq!(display_width(s), 6);
    assert!(s.chars().count() <= display_width(s) && display_width(s) <= 2 * s.chars().count());
}
