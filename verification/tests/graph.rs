use meteo::graph::{
    attach_graph, choose_title, degree_text, draw_graph, plan_graph, Canvas, OutLine, Role,
};

fn line(text: &str, temp: Option<f32>, role: Role) -> OutLine<f32> {
    OutLine { text: text.to_string(), temp, role }
}

fn sample() -> Vec<OutLine<f32>> {
    vec![
        line("T", None, Role::GraphTitle),
        line("A", None, Role::GraphAxis),
        line("aaaa", Some(1.0), Role::Body),
        line("", None, Role::Body),
        line("bbbb", Some(2.0), Role::Body),
    ]
}

#[test]
fn dots_light_braille_bits() {
    let mut c = Canvas::new(2, 1);
    c.set_dot(0, 0);
    c.set_dot(3, 1);
    c.set_dot(4, 0); // right of the canvas
    c.set_dot(-1, 0); // left of the canvas
    c.set_dot(0, 4); // below the canvas
    assert_eq!(c.row_strip(0, 196), "\x1b[38;5;196m\u{2801}\u{2810}\x1b[0m");
    let blank = Canvas::new(3, 2);
    assert_eq!(blank.row_strip(1, 7), "");
}

#[test]
fn paths_are_bridged_row_to_row() {
    let mut c = Canvas::new(3, 2);
    c.draw_path(0, 1, &vec![0, 3, 5, 5, 2]);
    assert_eq!(c.row_strip(0, 1), "\x1b[38;5;1m\u{2826}\u{28A4}\u{28C0}\x1b[0m");
    assert_eq!(c.row_strip(1, 2), "\x1b[38;5;2m\u{2800}\u{2812}\u{281A}\x1b[0m");
}

#[test]
fn trailing_blank_cells_are_trimmed() {
    let mut c = Canvas::new(4, 1);
    c.set_dot(0, 3);
    assert_eq!(c.row_strip(0, 9), "\x1b[38;5;9m\u{2840}\x1b[0m");
}

#[test]
fn title_is_the_longest_that_fits() {
    assert_eq!(choose_title(true, 40), "Température (°C)");
    assert_eq!(choose_title(false, 16), "Temperature (°C)");
    assert_eq!(choose_title(false, 15), "Temp. °C");
    assert_eq!(choose_title(true, 8), "Temp. °C");
    assert_eq!(choose_title(true, 7), "°C");
    assert_eq!(choose_title(true, 1), "");
}

#[test]
fn degree_labels() {
    assert_eq!(degree_text(-3), "-3°");
    assert_eq!(degree_text(21), "21°");
    assert_eq!(degree_text(0), "0°");
}

#[test]
fn plan_needs_room_and_two_rows() {
    let lines = sample();
    let p = plan_graph(&lines, 40).unwrap();
    assert_eq!(p.graph_col, 6);
    assert_eq!(p.graph_w, 34);
    assert_eq!(p.rows, 3);
    assert_eq!(p.anchors, vec![0, 2]);
    assert_eq!(p.anchor_lines, vec![2, 4]);
    assert_eq!(plan_graph(&lines, 100).unwrap().graph_w, 40);
    assert_eq!(plan_graph(&lines, 21).unwrap().graph_w, 15);
    assert!(plan_graph(&lines, 20).is_none());
    let one = vec![line("T", None, Role::GraphTitle), line("aaaa", Some(1.0), Role::Body), line("", None, Role::Body)];
    assert!(plan_graph(&one, 100).is_none());
    let none = vec![line("x", None, Role::Body), line("y", None, Role::Body)];
    assert!(plan_graph(&none, 100).is_none());
}

#[test]
fn widest_row_ignores_escapes_and_separators() {
    let lines = vec![
        line("\x1b[31mab\x1b[0m", Some(1.0), Role::Body),
        line("a much longer separator line", None, Role::Body),
        line("abc", Some(2.0), Role::Body),
        line("a very long plain line indeed", None, Role::Plain),
    ];
    assert_eq!(plan_graph(&lines, 30).unwrap().graph_col, 5);
}

#[test]
fn attach_decorates_by_role() {
    let mut lines = vec![
        line("loc", None, Role::Plain),
        line("T", None, Role::GraphTitle),
        line("A", None, Role::GraphAxis),
        line("aa", Some(1.0), Role::Body),
        line("bbbb", Some(2.0), Role::Body),
    ];
    let strips = vec![String::from("S"), String::new()];
    attach_graph(&mut lines, &strips, "title", "scale", 5);
    assert_eq!(lines[0].text, "loc");
    assert_eq!(lines[1].text, "T    title");
    assert_eq!(lines[2].text, "A    scale");
    assert_eq!(lines[3].text, "aa   S");
    assert_eq!(lines[4].text, "bbbb");
    assert_eq!(lines[3].temp, Some(1.0));
}

#[test]
fn graph_is_drawn_in_the_margin() {
    let mut lines = sample();
    let p = plan_graph(&lines, 40).unwrap();
    draw_graph(&mut lines, &p, &vec![0], &vec![vec![0, 0, 0, 0, 1, 1, 1, 1, 2]], &vec![100, 101, 102], false, 1, 2);
    assert_eq!(lines[0].text, format!("T     {}", meteo::text::center("Temperature (°C)", 34)));
    assert_eq!(lines[1].text, format!("A     1°{}2°", " ".repeat(30)));
    assert_eq!(lines[2].text, "aaaa  \x1b[38;5;100m\u{2846}\x1b[0m");
    assert_eq!(lines[3].text, "      \x1b[38;5;101m\u{28B3}\x1b[0m");
    assert_eq!(lines[4].text, "bbbb  \x1b[38;5;102m\u{2818}\u{2802}\x1b[0m");
}

#[test]
fn graph_cells_start_in_one_column() {
    let mut lines = vec![
        line("\x1b[31mab\x1b[0m", Some(1.0), Role::Body),
        line("abcd", Some(2.0), Role::Body),
        line("", None, Role::Body),
    ];
    let strips = vec![String::from("X"), String::from("Y"), String::from("Z")];
    attach_graph(&mut lines, &strips, "", "", 6);
    for l in &lines {
        let cut = l.text.rfind(|c: char| c == 'X' || c == 'Y' || c == 'Z').unwrap();
        assert_eq!(meteo::text::display_width(&l.text[..cut]), 6);
    }
}

#[test]
fn every_row_between_anchors_gets_a_strip() {
    let mut lines = vec![
        line("T", None, Role::GraphTitle),
        line("A", None, Role::GraphAxis),
        line("aaaa", Some(1.0), Role::Body),
        line("", None, Role::Body),
        line("", None, Role::Body),
        line("bbbb", Some(9.0), Role::Body),
    ];
    let p = plan_graph(&lines, 40).unwrap();
    assert_eq!(p.anchors, vec![0, 3]);
    let path: Vec<i32> = (0..13).map(|i| i * 5).collect();
    draw_graph(&mut lines, &p, &vec![0], &vec![path], &vec![100, 101, 102, 103], true, 1, 9);
    for l in &lines[2..] {
        assert!(l.text.contains("\x1b[38;5;"), "row without a strip: {:?}", l.text);
        assert!(l.text.ends_with("\x1b[0m"));
        let before_reset = l.text.trim_end_matches("\x1b[0m");
        assert_ne!(before_reset.chars().last(), Some('\u{2800}'));
    }
}
