use std::collections::VecDeque;
use zellij_agent_threads::plugin::{
    control_pipe, external_template_requested, finish_pending_permission, parse_pane_id,
    prepare_external_template, ControlPipe,
    PermissionRequestKind,
};
use zellij_agent_threads::runtime::PaneId;
use zellij_agent_threads::sessions::{plugin_is_suppressed, PaneSnapshot};
use zellij_agent_threads::text_map::TextMap;

fn template_config(path: &str) -> TextMap<String> {
    let mut config = TextMap::new();
    config.insert("template_file".to_string(), path.to_string());
    config
}

fn template_file(config: &TextMap<String>) -> Option<&str> {
    config.get("template_file").map(String::as_str)
}

#[test]
fn recognizes_control_pipe_names() {
    assert_eq!(control_pipe("agenthreads:refresh"), Some(ControlPipe::Refresh));
    assert_eq!(control_pipe("agenthreads:toggle"), Some(ControlPipe::Toggle));
    assert_eq!(control_pipe("unknown"), None);
}

#[test]
fn finds_plugin_suppression_state() {
    let panes = vec![PaneSnapshot {
        tab_position: 0,
        id: 42,
        is_plugin: true,
        is_focused: false,
        is_suppressed: true,
        content_rows: 0,
        content_columns: 0,
    }];

    assert_eq!(plugin_is_suppressed(&panes, 42), Some(true));
    assert_eq!(plugin_is_suppressed(&panes, 7), None);
}

#[test]
fn permission_queue_reports_base_request() {
    let mut pending_permissions = VecDeque::from([PermissionRequestKind::Base]);

    assert_eq!(
        finish_pending_permission(&mut pending_permissions),
        PermissionRequestKind::Base
    );
    assert!(pending_permissions.is_empty());
}

#[test]
fn external_template_mounts_parent_and_uses_guest_root_entry() {
    let pending = prepare_external_template(
        template_config("~/.config/zellij/agent-threads/main.jinja"),
        Some("/var/home/q"),
        None,
    )
    .unwrap();

    assert_eq!(pending.host_folder, "/var/home/q/.config/zellij/agent-threads");
    assert_eq!(template_file(&pending.configuration), Some("/main.jinja"));
}

#[test]
fn dot_relative_template_uses_zellij_config_dir() {
    let pending = prepare_external_template(
        template_config("./agent-threads/main.jinja"),
        Some("/var/home/q"),
        Some("/etc/zellij"),
    )
    .unwrap();

    assert_eq!(pending.host_folder, "/etc/zellij/./agent-threads");
    assert_eq!(template_file(&pending.configuration), Some("/main.jinja"));
}

#[test]
fn relative_template_falls_back_to_home_zellij_config() {
    let pending = prepare_external_template(
        template_config("./agent-threads/main.jinja"),
        Some("/var/home/q"),
        None,
    )
    .unwrap();

    assert_eq!(pending.host_folder, "/var/home/q/.config/zellij/./agent-threads");
    assert_eq!(template_file(&pending.configuration), Some("/main.jinja"));
}

#[test]
fn absolute_template_mounts_its_parent() {
    let pending = prepare_external_template(
        template_config("/opt/zellij/templates/main.jinja"),
        Some("/var/home/q"),
        Some("/etc/zellij"),
    )
    .unwrap();

    assert_eq!(pending.host_folder, "/opt/zellij/templates");
    assert_eq!(template_file(&pending.configuration), Some("/main.jinja"));
}

#[test]
fn relative_template_requires_config_dir_or_home() {
    let error = prepare_external_template(template_config("main.jinja"), None, None)
        .err()
        .unwrap();

    assert_eq!(error, "relative template_file requires ZELLIJ_CONFIG_DIR or HOME");
}

#[test]
fn tilde_template_without_home_is_rejected() {
    let error = prepare_external_template(template_config("~/main.jinja"), None, Some("/etc/zellij"))
        .err()
        .unwrap();
    assert_eq!(error, "cannot expand template path without a home directory");
}

#[test]
fn missing_template_file_is_rejected() {
    let error = prepare_external_template(TextMap::new(), Some("/home/q"), None)
        .err()
        .unwrap();
    assert_eq!(error, "template_file is missing");
}

#[test]
fn other_configuration_keys_are_kept() {
    let mut config = template_config("/opt/t/main.jinja");
    config.insert("title".to_string(), "x".to_string());
    let pending = prepare_external_template(config, None, None).unwrap();
    assert_eq!(pending.configuration.get("title").map(String::as_str), Some("x"));
    assert_eq!(pending.configuration.len(), 2);
}

#[test]
fn parses_pane_ids() {
    assert_eq!(parse_pane_id("terminal_3"), Some(PaneId::Terminal(3)));
    assert_eq!(parse_pane_id("plugin_4"), Some(PaneId::Plugin(4)));
    assert_eq!(parse_pane_id("5"), Some(PaneId::Terminal(5)));
    assert_eq!(parse_pane_id("plugin_x"), None);
}

#[test]
fn external_template_needs_template_file_without_inline_template() {
    let mut config = TextMap::new();
    assert!(!external_template_requested(&config));
    config.insert("template_file".to_string(), "main.jinja".to_string());
    assert!(external_template_requested(&config));
    config.insert("template".to_string(), "{{ x }}".to_string());
    assert!(!external_template_requested(&config));
    let mut inline_only = TextMap::new();
    inline_only.insert("template".to_string(), "{{ x }}".to_string());
    assert!(!external_template_requested(&inline_only));
}
