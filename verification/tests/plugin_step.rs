use zellij_agent_threads::click::ClickAction;
use zellij_agent_threads::plugin::{PendingTemplate, PermissionRequestKind};
use zellij_agent_threads::plugin_step::{plugin_update, step_in_range, PluginAction, PluginCore, PluginEvent};
use zellij_agent_threads::runtime::PaneId;
use zellij_agent_threads::sessions::NativeSession;
use zellij_agent_threads::text_map::TextMap;

fn native(name: &str, current: bool, created_at_seconds: u64) -> NativeSession {
    NativeSession {
        name: name.into(),
        is_current_session: current,
        connected_clients: 0,
        web_client_count: 0,
        tab_count: 0,
        pane_count: 0,
        creation_nanos: created_at_seconds as u128 * 1_000_000_000,
    }
}

fn with_pending_template() -> PluginCore {
    let mut core = PluginCore::new();
    let mut configuration = TextMap::new();
    configuration.insert("template_file".to_string(), "/main.jinja".to_string());
    core.pending_template = Some(PendingTemplate { host_folder: "/host/templates".into(), configuration });
    core.pending_permissions.push_back(PermissionRequestKind::Base);
    core
}

fn step(core: &mut PluginCore, event: PluginEvent) -> (bool, Vec<PluginAction>) {
    assert!(step_in_range(core, &event));
    plugin_update(core, event)
}

#[test]
fn granted_permission_mounts_pending_template_and_starts_polling() {
    let mut core = with_pending_template();
    let (redraw, actions) = step(&mut core, PluginEvent::PermissionResult(true));
    assert!(redraw);
    assert!(matches!(&actions[0], PluginAction::ChangeHostFolder(f) if f == "/host/templates"));
    assert!(matches!(actions.last(), Some(PluginAction::SetSelectable(false))));
    assert!(core.pending_template.is_some());
    assert!(core.runtime.session_polling_enabled);
    assert!(core.pending_permissions.is_empty());

    let (redraw, actions) = step(&mut core, PluginEvent::HostFolderChanged);
    assert!(redraw);
    assert_eq!(actions.len(), 1);
    assert!(matches!(&actions[0], PluginAction::InitializeRenderer(c) if c.get("template_file").map(String::as_str) == Some("/main.jinja")));
    assert!(core.pending_template.is_none());

    let (redraw, actions) = step(&mut core, PluginEvent::HostFolderChanged);
    assert!(!redraw);
    assert!(actions.is_empty());
}

#[test]
fn denied_permission_fails_pending_template_and_stops_polling() {
    let mut core = with_pending_template();
    let (redraw, actions) = step(&mut core, PluginEvent::PermissionResult(false));
    assert!(redraw);
    assert!(matches!(&actions[0], PluginAction::TemplateError(m) if m == "template_file requires FullHdAccess permission"));
    assert!(core.pending_template.is_none());
    assert!(!core.runtime.session_polling_enabled);
    assert_eq!(core.runtime.last_error.as_deref(), Some("session synchronization unavailable"));
}

#[test]
fn failed_mount_reports_the_host_error() {
    let mut core = with_pending_template();
    let (redraw, actions) = step(&mut core, PluginEvent::HostFolderFailed(None));
    assert!(redraw);
    assert!(matches!(&actions[0], PluginAction::TemplateError(m) if m == "failed to mount host filesystem"));
    let (redraw, actions) = step(&mut core, PluginEvent::HostFolderFailed(Some("x".into())));
    assert!(!redraw);
    assert!(actions.is_empty());
}

#[test]
fn clicks_pass_on_the_action_under_them() {
    let mut core = PluginCore::new();
    core.hitboxes = vec![vec![
        Some(ClickAction::SwitchTab { tab: 3 }),
        Some(ClickAction::FocusPane { pane: "plugin_4".into() }),
        None,
    ]];
    let (redraw, actions) = step(&mut core, PluginEvent::Click { row: 0, col: 0 });
    assert!(redraw);
    assert!(matches!(actions[..], [PluginAction::SwitchTab(3)]));
    let (redraw, actions) = step(&mut core, PluginEvent::Click { row: 0, col: 1 });
    assert!(!redraw);
    assert!(matches!(actions[..], [PluginAction::FocusPane(PaneId::Plugin(4))]));
    let (redraw, actions) = step(&mut core, PluginEvent::Click { row: -1, col: 0 });
    assert!(!redraw);
    assert!(actions.is_empty());
}

#[test]
fn refresh_polls_a_remote_session_and_its_answer_is_kept() {
    let mut core = PluginCore::new();
    step(&mut core, PluginEvent::PermissionResult(true));
    let (changed, _) = step(
        &mut core,
        PluginEvent::SessionUpdate(vec![native("local", true, 1), native("alpha", false, 2)]),
    );
    assert!(changed);
    let (redraw, actions) = step(&mut core, PluginEvent::RefreshRequested);
    assert!(!redraw);
    let command = match &actions[0] {
        PluginAction::RunPoll(c) => c,
        _ => panic!("expected a poll"),
    };
    assert_eq!(command.session_name, "alpha");
    let reply = format!(
        "{{\"agent_count\":2,\"fresh_at_millis\":42,\"generation_id\":\"{}\",\"running_agent_count\":1,\"version\":1}}",
        command.generation_id
    );
    let generation = command.generation_id.clone();
    let context = command.context();
    let (redraw, _) = step(
        &mut core,
        PluginEvent::CommandResult { exit_code: Some(0), stdout: reply.into_bytes(), stderr: vec![], context },
    );
    assert!(redraw);
    assert_eq!(core.runtime.session_summaries.get(&generation).unwrap().agent_count, 2);
}

#[test]
fn unmatched_timer_does_nothing() {
    let mut core = PluginCore::new();
    let (redraw, actions) = step(&mut core, PluginEvent::Timer(None));
    assert!(!redraw);
    assert!(actions.is_empty());
    let (redraw, actions) = step(&mut core, PluginEvent::Timer(Some(5)));
    assert!(!redraw);
    assert!(actions.is_empty());
}

#[test]
fn pane_closure_redraws() {
    let mut core = PluginCore::new();
    let (redraw, actions) = step(&mut core, PluginEvent::PaneClosed(PaneId::Terminal(1)));
    assert!(redraw);
    assert!(actions.is_empty());
}

#[test]
fn plugin_steps_keep_sessions_keyed_and_polls_distinct() {
    let mut core = PluginCore::new();
    step(&mut core, PluginEvent::SessionUpdate(vec![native("local", true, 1), native("alpha", false, 2), native("beta", false, 3)]));
    step(&mut core, PluginEvent::PermissionResult(true));
    step(&mut core, PluginEvent::RefreshRequested);
    step(&mut core, PluginEvent::RefreshRequested);

    let sessions = &core.runtime.zellij_sessions;
    assert_eq!(sessions.len(), 3);
    for i in 0..sessions.len() {
        assert_eq!(sessions.key_at(i), &sessions.value_at(i).generation_id);
    }

    let active = core.runtime.active_poll.as_ref().map(|p| p.target.generation_id.clone());
    assert_eq!(active.as_deref(), Some("2000000000"));
    let queued: Vec<String> = core.runtime.poll_queue.iter().map(|t| t.generation_id.clone()).collect();
    assert_eq!(queued, vec!["3000000000".to_string()]);
}

#[test]
fn new_plugin_starts_from_a_fresh_runtime() {
    let core = PluginCore::new();
    let rt = &core.runtime;
    assert_eq!(rt.agents.len(), 0);
    assert_eq!(rt.zellij_sessions.len(), 0);
    assert!(rt.poll_queue.is_empty());
    assert!(rt.active_poll.is_none());
    assert!(!rt.session_polling_enabled);
    assert!(rt.events.is_empty());
    assert!(rt.tabs.is_empty());
    assert_eq!(rt.pipe_count, 0);
    assert!(core.timer.active.is_none());
    assert!(core.pending_template.is_none());
}
