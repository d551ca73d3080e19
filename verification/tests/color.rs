use meteo::color::{check_256_colors, colored_text, cube_index};

#[test]
fn gradient_anchors_sit_in_the_colour_cube() {
    // t = 0 → deep blue, t = 0.5 → green, t = 1 → deep red.
    assert_eq!(cube_index(0, 0, 5), 21);
    assert_eq!(cube_index(0, 5, 0), 46);
    assert_eq!(cube_index(5, 0, 0), 196);
    assert_eq!(cube_index(0, 0, 0), 16);
    assert_eq!(cube_index(9, 200, 6), 231);
    assert_eq!(cube_index(2, 3, 1), 16 + 72 + 18 + 1);
}

#[test]
fn colored_cells() {
    assert_eq!(colored_text("  12°C  ", None), "  12°C  ");
    assert_eq!(
        colored_text("  12°C  ", Some((46, true))),
        "\x1b[48;5;46m\x1b[30m  12°C  \x1b[0m"
    );
    assert_eq!(
        colored_text("   5  ", Some((21, false))),
        "\x1b[48;5;21m\x1b[97m   5  \x1b[0m"
    );
}

#[test]
fn terminal_capability() {
    // NO_COLOR wins over everything.
    assert!(!check_256_colors(true, Some("truecolor"), Some("xterm-256color"), true));
    assert!(check_256_colors(false, Some("TrueColor"), None, false));
    assert!(check_256_colors(false, Some("24bit"), Some("dumb"), false));
    assert!(check_256_colors(false, Some("256COLOR"), None, false));
    assert!(!check_256_colors(false, Some("yes"), None, false));
    assert!(check_256_colors(false, None, Some("xterm-256color"), false));
    assert!(check_256_colors(false, None, Some("screen.linux"), false));
    assert!(check_256_colors(false, None, Some("alacritty"), false));
    assert!(check_256_colors(false, None, Some("vte"), false));
    assert!(!check_256_colors(false, None, Some("dumb"), false));
    assert!(!check_256_colors(false, None, Some("linux"), false));
    assert!(!check_256_colors(false, None, None, false));
    assert!(check_256_colors(false, None, None, true));
    assert!(check_256_colors(false, None, Some("dumb"), true));
}
