use zellij_agent_threads::click::{collect_hitboxes, wrap_button, ButtonRegistry, ClickAction};
use zellij_agent_threads::layout::{
    apply_padding, body_cells, column_widths, fit_cell, flex, flex_column_heights, flex_widths, grid,
    grow_lines, join_column, join_row, natural_heights, natural_widths, non_zero, padding, parse_weights,
    stack, truncate_visible, viewport_value, visible_width, zero_width_len, Padding,
};

const NONE: Padding = Padding { x: 0, y: 0 };

#[test]
fn lays_out_call_body_as_fixed_columns() {
    let rendered = grid("A\nBB\nCCC\nD", Some(2), Some(1), NONE, 7).unwrap();
    assert_eq!(rendered, "A   BB\nCCC D");
}

#[test]
fn uses_viewport_width() {
    let rendered = grid("abcd\nef", Some(2), Some(2), NONE, 8).unwrap();
    assert_eq!(rendered, "abc  ef");
}

#[test]
fn applies_padding_to_layout_helpers() {
    let pad = padding(None, Some(1), Some(1));
    let rendered = flex("A\nB", None, Some(1), pad, Some(true), None, 5, 8).unwrap();
    assert_eq!(rendered, "\n A  B \n");
}

#[test]
fn rejects_zero_columns() {
    let error = grid("x", Some(0), None, NONE, 10).unwrap_err();
    assert!(error.contains("Grid expects cols > 0"));
}

#[test]
fn keeps_button_markers_zero_width_for_hitboxes() {
    let mut registry = ButtonRegistry::new();
    let button = wrap_button(&mut registry, "X".into(), ClickAction::FocusPane { pane: "1".into() });
    let body = format!("{button}\nYY");
    let rendered = grid(&body, Some(2), Some(1), NONE, 5).unwrap();
    let (clean, hitboxes) = collect_hitboxes(&registry.actions, &rendered);

    assert_eq!(clean, "X  YY");
    assert_eq!(hitboxes[0].start_col, 0);
    assert_eq!(hitboxes[0].end_col, 1);
    assert_eq!(hitboxes[0].action, ClickAction::FocusPane { pane: "1".into() });
}

#[test]
fn stack_renders_vertical() {
    assert_eq!(stack("A\nB", Some(1), NONE, None, 10), "A\n\nB");
}

#[test]
fn stack_grows_to_viewport_height() {
    assert_eq!(stack("A\nB", Some(0), NONE, Some(true), 4), "A\nB\n\n");
}

#[test]
fn flex_distributes_viewport_by_weights() {
    let rendered = flex("aa\nbbbbbb", None, Some(1), NONE, Some(true), Some("1,2"), 10, 11).unwrap();
    assert_eq!(rendered, "aa  bbbbbb");
}

#[test]
fn flex_supports_column_direction() {
    let rendered = flex("top\nbottom", Some("column"), Some(1), NONE, Some(true), Some("1,2"), 5, 20).unwrap();
    assert_eq!(rendered, "top\n\nbottom");
}

#[test]
fn flex_rejects_mismatched_weights() {
    let error = flex("A\nB", None, None, NONE, None, Some("1"), 10, 11).unwrap_err();
    assert!(error.contains("Flex weights must match cell count"));
}

#[test]
fn flex_rejects_unknown_direction() {
    let error = flex("A\nB", Some("diagonal"), None, NONE, None, None, 10, 11).unwrap_err();
    assert_eq!(error, "Flex direction must be row or column");
}

#[test]
fn weights_must_be_numbers_and_growable() {
    assert_eq!(parse_weights(" 1, 2 ,3", 3), Ok(vec![1, 2, 3]));
    assert_eq!(
        parse_weights("1,x", 2),
        Err("Flex weights must be comma-separated positive integers".to_string())
    );
    assert_eq!(
        parse_weights("0,0", 2),
        Err("Flex weights must match cell count and include a growable item".to_string())
    );
}

#[test]
fn body_cells_split_on_separator_lines() {
    assert_eq!(body_cells(" a \n\n b\n"), vec!["a".to_string(), "b".to_string()]);
    assert_eq!(body_cells("a\nb\n ---\nc\n---\n---"), vec!["a\nb".to_string(), "c".to_string()]);
    assert!(body_cells("  \n").is_empty());
}

#[test]
fn zero_width_sequences_take_no_column() {
    assert_eq!(zero_width_len("\u{1b}[31mx"), Some(5));
    assert_eq!(zero_width_len("\u{1b}x"), Some(1));
    assert_eq!(zero_width_len("\u{E000}B0\u{E001}x"), Some(8));
    assert_eq!(zero_width_len("\u{1b}[é\u{1b}m"), Some(6));
    assert_eq!(zero_width_len("\u{E000}B0"), None);
    assert_eq!(zero_width_len("x"), None);
    assert_eq!(zero_width_len(""), None);
    assert_eq!(visible_width("\u{1b}[1mab\u{1b}[0m"), 2);
    assert_eq!(truncate_visible("\u{1b}[1mabc\u{1b}[0m", 2), "\u{1b}[1mab");
    assert_eq!(truncate_visible("\u{1b}[1mab\u{1b}[0m", 2), "\u{1b}[1mab\u{1b}[0m");
    assert_eq!(fit_cell("abc", 5), "abc  ");
    assert_eq!(fit_cell("abcdef", 3), "abc");
}

#[test]
fn widths_and_heights() {
    assert_eq!(column_widths(3, 2, 20), vec![5, 5, 5]);
    assert_eq!(column_widths(0, 2, 20), Vec::<usize>::new());
    let cells = vec!["ab".to_string(), "x\ny\nz".to_string()];
    assert_eq!(natural_widths(&cells), vec![2, 5]);
    assert_eq!(natural_heights(&cells), vec![1, 3]);
    assert_eq!(flex_widths(10, 0, &vec![1, 1, 1]), vec![3, 3, 4]);
    assert_eq!(flex_widths(10, 0, &vec![0, 0]), vec![0, 0]);
    assert_eq!(flex_column_heights(10, 1, &cells, &vec![1, 1]), vec![3, 6]);
}

#[test]
fn rows_columns_padding_and_growth() {
    let cells = vec!["ab".to_string(), "c".to_string()];
    assert_eq!(join_row(&cells, vec![3, 3], 1), "ab  c");
    assert_eq!(join_column(&cells, vec![2, 1], 1), "ab\n\n\nc");
    assert_eq!(apply_padding("a\nb".into(), Padding { x: 1, y: 0 }), " a \n b ");
    assert_eq!(grow_lines("a".into(), 3), "a\n\n");
    assert_eq!(grow_lines("a\nb".into(), 1), "a\nb");
}

#[test]
fn layout_arguments() {
    assert_eq!(non_zero(3, "cols"), Ok(3));
    assert_eq!(non_zero(0, "cols"), Err("Grid expects cols > 0".to_string()));
    assert_eq!(viewport_value(Some(Some(4)), "viewport_rows"), Ok(4));
    assert_eq!(viewport_value(None, "viewport_rows"), Err("Grid expects viewport_rows global".to_string()));
    assert_eq!(
        viewport_value(Some(None), "viewport_cols"),
        Err("Grid expects viewport_cols to be a positive integer".to_string())
    );
    assert_eq!(padding(Some(2), None, Some(1)), Padding { x: 2, y: 1 });
}

#[test]
fn fitted_cells_take_exactly_their_column_width() {
    for cell in ["", "ab", "abcdef", "\u{1b}[1mabcdef\u{1b}[0m", "\u{E000}B0\u{E001}xy\u{E000}E0\u{E001}", "\u{1b}"] {
        for width in [0usize, 1, 3, 8] {
            assert_eq!(visible_width(&fit_cell(cell, width)), width, "{cell:?} {width}");
        }
    }
}

#[test]
fn flex_widths_fill_usable_width() {
    let widths = flex_widths(20, 2, &vec![1, 2, 1]);
    assert_eq!(widths.iter().sum::<usize>() + 2 * 2, 20);
    let widths = flex_widths(11, 1, &vec![3, 0, 1]);
    assert_eq!(widths.iter().sum::<usize>() + 2, 11);
}

#[test]
fn truncation_keeps_the_longest_fitting_prefix() {
    assert_eq!(truncate_visible("abcd", 3), "abc");
    assert_eq!(truncate_visible("\u{1b}[31mred\u{1b}[0m", 2), "\u{1b}[31mre");
    assert_eq!(truncate_visible("ab", 5), "ab");
    assert_eq!(visible_width(&truncate_visible("\u{1b}[31mred\u{1b}[0m", 2)), 2);
}
