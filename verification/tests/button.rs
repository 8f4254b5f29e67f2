use zellij_agent_threads::button::{collapse_button, collapse_button_start_col, is_collapse_button_click};

#[test]
fn collapse_button_sits_in_the_top_right_corner() {
    assert_eq!(collapse_button(true), "[+]");
    assert_eq!(collapse_button(false), "[-]");
    assert_eq!(collapse_button_start_col(16, true), 13);
    assert_eq!(collapse_button_start_col(2, false), 0);
    assert!(is_collapse_button_click(0, 13, 16, true));
    assert!(is_collapse_button_click(0, 15, 16, false));
    assert!(!is_collapse_button_click(0, 12, 16, true));
    assert!(!is_collapse_button_click(1, 14, 16, true));
    assert!(!is_collapse_button_click(-1, 14, 16, true));
}
