use zellij_agent_threads::click::{
    collect_hitboxes, hitbox_at, parse_marker, strip_line_markers, tab_arg, wrap_button, ButtonRegistry,
    ClickAction, Hitbox,
};

const MARKER_END: &str = "\u{E001}";
const BUTTON_START: &str = "\u{E000}B";
const BUTTON_END: &str = "\u{E000}E";

#[test]
fn strips_markers_and_registers_hitbox() {
    let action = ClickAction::FocusPane { pane: "1".into() };
    let input = format!("x{BUTTON_START}0{MARKER_END}abc{BUTTON_END}0{MARKER_END}y");

    let mut active = None;
    let (clean, hitboxes) = strip_line_markers(2, &input, &vec![action.clone()], &mut active);

    assert_eq!(clean, "xabcy");
    assert_eq!(hitboxes, vec![Hitbox { row: 2, start_col: 1, end_col: 4, action }]);
}

#[test]
fn ansi_escapes_do_not_count_as_columns() {
    let action = ClickAction::SwitchTab { tab: 3 };
    let input = format!("{BUTTON_START}0{MARKER_END}\u{1b}[31mred\u{1b}[0m{BUTTON_END}0{MARKER_END}");

    let mut active = None;
    let (clean, hitboxes) = strip_line_markers(0, &input, &vec![action.clone()], &mut active);

    assert_eq!(clean, "\u{1b}[31mred\u{1b}[0m");
    assert_eq!(hitboxes[0].start_col, 0);
    assert_eq!(hitboxes[0].end_col, 3);
    assert_eq!(hitboxes[0].action, action);
}

#[test]
fn multiline_button_registers_one_hitbox_per_visible_line() {
    let action = ClickAction::FocusPane { pane: "1".into() };
    let mut registry = ButtonRegistry::new();
    let button = wrap_button(&mut registry, "ab\ncd".into(), action.clone());
    let captured = format!("x{button}y");

    let (clean, hitboxes) = collect_hitboxes(&registry.actions, &captured);

    assert_eq!(clean, "xab\ncdy");
    assert_eq!(
        hitboxes,
        vec![
            Hitbox { row: 0, start_col: 1, end_col: 3, action: action.clone() },
            Hitbox { row: 1, start_col: 0, end_col: 2, action },
        ]
    );
}

#[test]
fn wrap_button_numbers_buttons_in_order() {
    let mut registry = ButtonRegistry::new();
    let first = wrap_button(&mut registry, "a".into(), ClickAction::SwitchTab { tab: 1 });
    let second = wrap_button(&mut registry, "b".into(), ClickAction::SwitchTab { tab: 2 });
    assert_eq!(first, format!("{BUTTON_START}0{MARKER_END}a{BUTTON_END}0{MARKER_END}"));
    assert_eq!(second, format!("{BUTTON_START}1{MARKER_END}b{BUTTON_END}1{MARKER_END}"));
    assert_eq!(registry.actions.len(), 2);
}

#[test]
fn hitbox_lookup_finds_first_covering_box() {
    let boxes = vec![
        Hitbox { row: 1, start_col: 2, end_col: 4, action: ClickAction::SwitchTab { tab: 5 } },
        Hitbox { row: 1, start_col: 3, end_col: 6, action: ClickAction::FocusPane { pane: "9".into() } },
    ];
    assert_eq!(hitbox_at(&boxes, 1, 3), Some(ClickAction::SwitchTab { tab: 5 }));
    assert_eq!(hitbox_at(&boxes, 1, 5), Some(ClickAction::FocusPane { pane: "9".into() }));
    assert_eq!(hitbox_at(&boxes, 1, 6), None);
    assert_eq!(hitbox_at(&boxes, -1, 3), None);
    assert_eq!(hitbox_at(&boxes, 0, 3), None);
}

#[test]
fn markers_are_read_with_their_length() {
    assert_eq!(parse_marker(&format!("{BUTTON_START}12{MARKER_END}rest"), BUTTON_START), Some((12, 9)));
    assert_eq!(parse_marker(&format!("{BUTTON_START}x{MARKER_END}"), BUTTON_START), None);
    assert_eq!(parse_marker(&format!("{BUTTON_START}12"), BUTTON_START), None);
    assert_eq!(parse_marker("plain", BUTTON_START), None);
}

#[test]
fn unclosed_button_continues_on_next_line() {
    let action = ClickAction::SwitchTab { tab: 1 };
    let mut active = None;
    let (clean, hits) = strip_line_markers(0, &format!("{BUTTON_START}0{MARKER_END}ab"), &vec![action.clone()], &mut active);
    assert_eq!(clean, "ab");
    assert_eq!(hits, vec![Hitbox { row: 0, start_col: 0, end_col: 2, action: action.clone() }]);
    assert_eq!(active, Some((0, 0)));
}

#[test]
fn tab_argument_accepts_numbers_and_numeric_text() {
    assert_eq!(tab_arg(Some(4), None), Ok(4));
    assert_eq!(tab_arg(None, Some("7")), Ok(7));
    assert_eq!(tab_arg(Some(5_000_000_000), Some("8")), Ok(8));
    assert_eq!(tab_arg(None, Some("x")), Err("tab button expects numeric tab id".to_string()));
    assert_eq!(tab_arg(None, None), Err("tab button expects numeric tab id".to_string()));
}
