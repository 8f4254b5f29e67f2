use zellij_agent_threads::click::ClickAction;
use zellij_agent_threads::template::{
    decode_focus_pane, decode_switch_tab, decode_switch_to_session, one_argument, present_button,
    reject_legacy_configuration, terminal_output,
};
use zellij_agent_threads::text_map::TextMap;

#[test]
fn terminal_output_preserves_ansi_styled_text() {
    let lines = vec!["\u{1b}[38;5;0m\u{1b}[48;5;3mpolite-rhinoceros\u{1b}[49m\u{1b}[39m".to_string()];

    assert_eq!(
        terminal_output(&lines, 2),
        "\u{1b}[2K\u{1b}[38;5;0m\u{1b}[48;5;3mpolite-rhinoceros\u{1b}[49m\u{1b}[39m\n\u{1b}[2K"
    );
}

#[test]
fn terminal_output_of_zero_rows_is_empty() {
    assert_eq!(terminal_output(&vec!["a".to_string()], 0), "");
}

#[test]
fn legacy_template_loader_configuration_is_rejected() {
    let mut configuration = TextMap::new();
    configuration.insert("template_dir".into(), "/tmp/templates".into());
    let error = reject_legacy_configuration(&configuration).err().unwrap();

    assert!(error.contains("use template_file"));
}

#[test]
fn configuration_without_legacy_keys_is_accepted() {
    let mut configuration = TextMap::new();
    configuration.insert("template".into(), "inline".into());
    assert_eq!(reject_legacy_configuration(&configuration), Ok(()));
    let mut legacy = TextMap::new();
    legacy.insert("template_name".into(), "main.j2".into());
    assert!(reject_legacy_configuration(&legacy).is_err());
}

#[test]
fn malformed_action_arguments_are_template_errors() {
    let error = decode_switch_tab(0, None).unwrap_err();
    assert!(error.contains("switch_tab expects exactly one argument"));
}

#[test]
fn action_arguments_decode_to_click_actions() {
    assert_eq!(decode_switch_tab(1, Some(3)), Ok(ClickAction::SwitchTab { tab: 3 }));
    assert_eq!(
        decode_switch_tab(1, None).unwrap_err(),
        "switch_tab expects one unsigned 32-bit integer"
    );
    assert_eq!(
        decode_switch_to_session(1, Some("work")),
        Ok(ClickAction::SwitchToSession { session: "work".into() })
    );
    assert_eq!(
        decode_switch_to_session(1, Some("")).unwrap_err(),
        "switch_to_session expects one non-empty session name"
    );
    assert_eq!(
        decode_focus_pane(1, Some("terminal_1")),
        Ok(ClickAction::FocusPane { pane: "terminal_1".into() })
    );
    assert_eq!(
        decode_focus_pane(2, Some("x")).unwrap_err(),
        "focus_pane expects exactly one argument"
    );
    assert_eq!(one_argument(1, "f"), Ok(()));
}

#[test]
fn buttons_are_focused_by_their_target() {
    let tab = ClickAction::SwitchTab { tab: 2 };
    assert!(present_button(None, &tab, Some(2), "s", None));
    assert!(!present_button(None, &tab, Some(1), "s", None));
    assert!(!present_button(Some(false), &tab, Some(2), "s", None));
    let session = ClickAction::SwitchToSession { session: "s".into() };
    assert!(present_button(None, &session, None, "s", None));
    let pane = ClickAction::FocusPane { pane: "3".into() };
    assert!(present_button(None, &pane, None, "s", Some("3")));
    assert!(!present_button(None, &pane, None, "s", None));
}
