use zellij_agent_threads::filters::{bg, bold, color_code, dim, fg, italic, style};

#[test]
fn colors_text_with_fg_and_bg() {
    let rendered = format!(
        "{} {} {}",
        fg("run", "green").unwrap(),
        bg("stop", "red").unwrap(),
        fg("idx", "34").unwrap()
    );
    assert_eq!(rendered, "\u{1b}[32mrun\u{1b}[0m \u{1b}[41mstop\u{1b}[0m \u{1b}[38;5;34midx\u{1b}[0m");
}

#[test]
fn styles_text_with_sgr_attributes() {
    let rendered = format!("{} {} {}", dim("muted"), bold("loud"), italic("tilt"));
    assert_eq!(rendered, "\u{1b}[2mmuted\u{1b}[0m \u{1b}[1mloud\u{1b}[0m \u{1b}[3mtilt\u{1b}[0m");
}

#[test]
fn rejects_unknown_color() {
    let error = fg("run", "nope").unwrap_err();
    assert!(error.contains("fg/bg expects a color"));
}

#[test]
fn color_names_ignore_case_and_space() {
    assert_eq!(color_code(" Bright-Cyan ", 30, 90, 38), Ok("96".to_string()));
    assert_eq!(color_code("GREY", 40, 100, 48), Ok("100".to_string()));
    assert_eq!(color_code("255", 30, 90, 38), Ok("38;5;255".to_string()));
    assert!(color_code("256", 30, 90, 38).is_err());
    assert_eq!(style("x", 7), "\u{1b}[7mx\u{1b}[0m");
}
