use shotcaller::draw::DrawCommand;
use shotcaller::keybinds::{sort_keybinds, Keybind};
use shotcaller::render_map::render_ui;
use shotcaller::text::{decimal_string, text_le_exec};

fn bind(key: &str, action: &str) -> Keybind {
    Keybind { key: key.to_string(), action: action.to_string() }
}

fn text(c: &DrawCommand) -> (usize, usize, String) {
    match c {
        DrawCommand::Text { x, y, text } => (*x, *y, text.clone()),
        DrawCommand::Frame { .. } => panic!("expected text"),
    }
}

#[test]
fn text_order_is_str_order() {
    let cases = [("", ""), ("", "a"), ("a", ""), ("A", "B"), ("Ba", "B"), ("B", "Ba"), ("Z", "a"), ("z", "é"), ("abc", "abd"), ("same", "same")];
    for (a, b) in cases {
        assert_eq!(text_le_exec(a, b), a <= b, "{} {}", a, b);
    }
}

#[test]
fn decimal_strings() {
    for n in [0u64, 7, 10, 99, 100, 12345, u64::MAX] {
        assert_eq!(decimal_string(n), format!("{}", n));
    }
}

#[test]
fn keybinds_sorted_by_action_and_stable() {
    let binds = vec![
        bind("Q", "Quit"),
        bind("Space", "SpeedToggle"),
        bind("Escape", "Quit"),
        bind("Key1", "SelectHero1"),
        bind("T", "Teleport"),
        bind("Key2", "SelectHero2"),
    ];
    let sorted = sort_keybinds(binds);
    let keys: Vec<&str> = sorted.iter().map(|b| b.key.as_str()).collect();
    assert_eq!(keys, vec!["Q", "Escape", "Key1", "Key2", "Space", "T"]);
}

#[test]
fn keybinds_sort_matches_std_stable_sort() {
    let raw = vec![("c", "b"), ("a", "a"), ("d", "b"), ("b", "a"), ("e", "ab"), ("f", ""), ("g", "b")];
    let binds: Vec<Keybind> = raw.iter().map(|(k, a)| bind(k, a)).collect();
    let mut expected = raw.clone();
    expected.sort_by(|x, y| x.1.cmp(y.1));
    let sorted = sort_keybinds(binds);
    let got: Vec<(&str, &str)> = sorted.iter().map(|b| (b.key.as_str(), b.action.as_str())).collect();
    assert_eq!(got, expected);
}

#[test]
fn keybinds_sort_of_nothing() {
    assert!(sort_keybinds(Vec::new()).is_empty());
}

#[test]
fn side_panel_layout() {
    let team = vec!["Generic1".to_string(), "Generic2".to_string()];
    let binds = vec![bind("Q", "Quit"), bind("Key1", "SelectHero1")];
    let commands = render_ui(1, &team, binds, "12.50", 3);
    assert_eq!(commands.len(), 10 + 2 * 2 + 2);
    match &commands[0] {
        DrawCommand::Frame { x, y, width, height } => assert_eq!((*x, *y, *width, *height), (81, 0, 18, 49)),
        _ => panic!("expected the frame first"),
    }
    let lines: Vec<(usize, usize, String)> = commands[1..].iter().map(text).collect();
    let expected: Vec<(usize, usize, &str)> = vec![
        (82, 1, "Leaders"),
        (82, 3, "My Team"),
        (82, 4, " Generic1"),
        (82, 5, " Generic2"),
        (82, 10, "Enemy Team"),
        (82, 11, " Leader Generic1"),
        (82, 12, " Leader Generic2"),
        (82, 5, ">"),
        (82, 17, "Keybinds"),
        (82, 18, "Q:Quit"),
        (82, 19, "Key1:SelectHero1"),
        (82, 45, "Total Damage"),
        (82, 46, "12.50"),
        (82, 47, "Kills"),
        (82, 48, "3"),
    ];
    let got: Vec<(usize, usize, &str)> = lines.iter().map(|(x, y, t)| (*x, *y, t.as_str())).collect();
    assert_eq!(got, expected);
}

#[test]
fn side_panel_cursor_marks_selected_hero_row() {
    let team = vec!["A".to_string(), "B".to_string(), "C".to_string()];
    for selected in 0..3 {
        let commands = render_ui(selected, &team, Vec::new(), "0.00", 0);
        let (_, name_row, _) = text(&commands[3 + selected]);
        let (_, cursor_row, cursor) = text(&commands[4 + 2 * team.len()]);
        assert_eq!(cursor, ">");
        assert_eq!(cursor_row, name_row);
    }
}

#[test]
fn side_panel_with_empty_team() {
    let commands = render_ui(0, &Vec::new(), Vec::new(), "0.00", 1000);
    assert_eq!(commands.len(), 10);
    assert_eq!(text(&commands[9]), (82, 48, "1000".to_string()));
}
