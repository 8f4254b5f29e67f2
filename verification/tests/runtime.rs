use zellij_agent_threads::runtime::{
    AgentReport, AgentState, PaneId, RuntimeState, AGENT_LEASE, AGENT_PIPE_NAME,
    SESSION_POLL_INTERVAL, SESSION_POLL_TIMEOUT, SESSION_SUMMARY_LEASE,
};
use zellij_agent_threads::sessions::{NativeSession, PaneSnapshot, TabSnapshot};
use zellij_agent_threads::runtime::SessionSummary;

const MS: u128 = 1_000_000;

fn session(agent: &str, pane_id: Option<&str>) -> AgentReport {
    AgentReport {
        version: 2,
        harness: Some("pi".into()),
        agent_id: agent.into(),
        session_name: Some(format!("{agent}.jsonl")),
        cwd: "/tmp".into(),
        pane_id: pane_id.map(str::to_string),
        tab_id: None,
        tab_name: None,
        zellij_session: None,
        state: AgentState::Idle,
        model: None,
        title: None,
        current_tool: None,
        updated_at: 0,
    }
}

fn text(o: &Option<String>) -> String {
    match o {
        Some(s) => format!("\"{s}\""),
        None => "null".into(),
    }
}

fn report_json(r: &AgentReport) -> String {
    let state = match r.state {
        AgentState::Idle => "idle",
        AgentState::Running => "running",
        AgentState::Shutdown => "shutdown",
    };
    let tab_id = match r.tab_id {
        Some(t) => t.to_string(),
        None => "null".into(),
    };
    format!(
        "{{\"version\":{},\"harness\":{},\"agent_id\":\"{}\",\"session_name\":{},\"cwd\":\"{}\",\"zellij_session\":{},\"pane_id\":{},\"tab_id\":{},\"tab_name\":{},\"state\":\"{}\",\"model\":{},\"title\":{},\"current_tool\":{},\"updated_at\":{}}}",
        r.version,
        text(&r.harness),
        r.agent_id,
        text(&r.session_name),
        r.cwd,
        text(&r.zellij_session),
        text(&r.pane_id),
        tab_id,
        text(&r.tab_name),
        state,
        text(&r.model),
        text(&r.title),
        text(&r.current_tool),
        r.updated_at
    )
}

fn pipe(runtime: &mut RuntimeState, r: &AgentReport) -> bool {
    runtime.handle_pipe(AGENT_PIPE_NAME, Some(report_json(r)))
}

pub fn native(name: &str, current: bool, created_at_seconds: u64) -> NativeSession {
    NativeSession {
        name: name.into(),
        is_current_session: current,
        connected_clients: 0,
        web_client_count: 0,
        tab_count: 0,
        pane_count: 0,
        creation_nanos: created_at_seconds as u128 * 1_000_000_000,
    }
}

fn poll_reply(generation_id: &str, agent_count: usize, running_agent_count: usize) -> Vec<u8> {
    format!(
        "{{\"agent_count\":{agent_count},\"fresh_at_millis\":42,\"generation_id\":\"{generation_id}\",\"running_agent_count\":{running_agent_count},\"version\":1}}"
    )
    .into_bytes()
}

fn pane(id: u32, tab_position: usize, focused: bool) -> PaneSnapshot {
    PaneSnapshot {
        tab_position,
        id,
        is_plugin: false,
        is_focused: focused,
        is_suppressed: false,
        content_rows: 0,
        content_columns: 0,
    }
}

fn tab(tab_id: usize, name: &str, active: bool) -> TabSnapshot {
    TabSnapshot { tab_id, position: 0, name: name.into(), active }
}

#[test]
fn pipe_end_message_does_not_request_render() {
    let mut runtime = RuntimeState::new();
    assert!(!runtime.handle_pipe(AGENT_PIPE_NAME, None));
    assert_eq!(runtime.pipe_count, 0);
    assert!(runtime.last_error.is_none());
}

#[test]
fn unnamespaced_agent_pipe_name_is_rejected() {
    let mut runtime = RuntimeState::new();
    assert!(!runtime.handle_pipe("agent", Some(report_json(&session("a", Some("1"))))));
    assert_eq!(runtime.agents.len(), 0);
}

#[test]
fn current_tool_payload_updates_rendered_activity() {
    let payload = "{\"version\":2,\"harness\":\"pi\",\"agent_id\":\"a\",\"session_name\":\"diagnostic-session\",\"cwd\":\"/tmp\",\"state\":\"running\",\"current_tool\":\"bash\",\"updated_at\":0}";
    let mut runtime = RuntimeState::new();
    assert!(runtime.handle_pipe(AGENT_PIPE_NAME, Some(payload.into())));
    let session = runtime.agents.get("a").unwrap();
    assert_eq!(session.current_tool.as_deref(), Some("bash"));
}

#[test]
fn legacy_current_task_payload_is_rejected() {
    let payload = "{\"version\":2,\"harness\":\"pi\",\"agent_id\":\"a\",\"cwd\":\"/tmp\",\"state\":\"running\",\"current_task\":\"legacy activity\",\"updated_at\":0}";
    let mut runtime = RuntimeState::new();
    assert!(runtime.handle_pipe(AGENT_PIPE_NAME, Some(payload.into())));
    assert_eq!(runtime.agents.len(), 0);
    assert_eq!(runtime.last_error.as_deref(), Some("invalid agent report"));
}

#[test]
fn version_one_agent_reports_are_rejected_explicitly() {
    let mut runtime = RuntimeState::new();
    let mut payload = session("old", Some("1"));
    payload.version = 1;
    assert!(pipe(&mut runtime, &payload));
    assert_eq!(runtime.agents.len(), 0);
    assert_eq!(runtime.last_error.as_deref(), Some("unsupported agent report version 1"));
}

#[test]
fn unchanged_agent_pipe_does_not_request_render() {
    let mut runtime = RuntimeState::new();
    let mut first = session("a", Some("1"));
    first.updated_at = 1;
    assert!(pipe(&mut runtime, &first));
    let mut unchanged = first;
    unchanged.updated_at = 2;
    assert!(!pipe(&mut runtime, &unchanged));
    assert_eq!(runtime.pipe_count, 1);
}

#[test]
fn accepted_agent_report_renews_lease_without_render_change() {
    let mut runtime = RuntimeState::new();
    let mut first = session("a", Some("1"));
    first.updated_at = 1_000;
    assert!(pipe(&mut runtime, &first));
    let mut heartbeat = first;
    heartbeat.updated_at = 6_000;
    assert!(!pipe(&mut runtime, &heartbeat));
    runtime.advance_lease_clock_to(15_999 * MS);
    assert_eq!(runtime.expire_silent_agents(), 0);
    runtime.advance_lease_clock_to(16_000 * MS);
    assert_eq!(runtime.expire_silent_agents(), 1);
}

#[test]
fn session_polling_queues_remote_sessions_one_at_a_time() {
    let mut runtime = RuntimeState::new();
    runtime.sync_zellij_sessions(&vec![native("local", true, 1), native("alpha", false, 2), native("beta", false, 3)]);
    runtime.set_session_polling_enabled(true);
    runtime.advance_lease_clock_to(SESSION_POLL_INTERVAL);

    assert_eq!(runtime.next_session_poll(), Some(0));
    runtime.begin_session_poll_cycle();
    runtime.begin_session_poll_cycle();

    let first = runtime.next_poll_command().unwrap();
    assert_eq!(first.session_name, "alpha");
    assert!(runtime.next_poll_command().is_none());

    assert!(runtime.handle_poll_result(Some(0), &poll_reply(&first.generation_id, 2, 1), &[], &first.context()));
    assert_eq!(runtime.session_summaries.get(&first.generation_id).unwrap().agent_count, 2);
    assert_eq!(runtime.next_session_summary_expiry(), Some(SESSION_SUMMARY_LEASE));

    let second = runtime.next_poll_command().unwrap();
    assert_eq!(second.session_name, "beta");
    assert!(runtime.next_poll_command().is_none());
}

#[test]
fn poll_failures_and_timeouts_do_not_stall_queue() {
    let mut runtime = RuntimeState::new();
    runtime.sync_zellij_sessions(&vec![native("local", true, 1), native("alpha", false, 2), native("beta", false, 3)]);
    runtime.set_session_polling_enabled(true);
    runtime.begin_session_poll_cycle();

    let first = runtime.next_poll_command().unwrap();
    assert!(runtime.handle_poll_result(Some(1), &[], b"no sidebar", &first.context()));
    assert_eq!(runtime.last_error.as_deref(), Some("session synchronization failed for alpha: no sidebar"));

    let second = runtime.next_poll_command().unwrap();
    assert_eq!(second.session_name, "beta");
    runtime.advance_lease_clock_to(SESSION_POLL_TIMEOUT);
    assert!(runtime.poll_timed_out());
    assert!(runtime.next_poll_command().is_none());
}

#[test]
fn stale_or_malformed_poll_replies_are_rejected() {
    let mut runtime = RuntimeState::new();
    runtime.sync_zellij_sessions(&vec![native("local", true, 1), native("alpha", false, 2)]);
    runtime.set_session_polling_enabled(true);
    runtime.begin_session_poll_cycle();

    let command = runtime.next_poll_command().unwrap();
    assert!(runtime.handle_poll_result(Some(0), b"not-json", &[], &command.context()));
    assert_eq!(runtime.session_summaries.len(), 0);

    runtime.begin_session_poll_cycle();
    let command = runtime.next_poll_command().unwrap();
    assert!(runtime.handle_poll_result(Some(0), &poll_reply("old-generation", 1, 1), &[], &command.context()));
    assert_eq!(runtime.session_summaries.len(), 0);
}

#[test]
fn session_removal_drops_summary_and_queued_poll_work() {
    let mut runtime = RuntimeState::new();
    runtime.sync_zellij_sessions(&vec![native("local", true, 1), native("alpha", false, 2), native("beta", false, 3)]);
    runtime.session_summaries.insert(
        "2000000000".into(),
        SessionSummary {
            generation_id: "2000000000".into(),
            agent_count: 1,
            running_agent_count: 1,
            fresh_at_millis: 0,
        },
    );
    runtime.session_summary_leases.insert("2000000000".into(), 0);
    runtime.set_session_polling_enabled(true);
    runtime.begin_session_poll_cycle();
    let active = runtime.next_poll_command().unwrap();
    assert_eq!(active.generation_id, "2000000000");

    runtime.sync_zellij_sessions(&vec![native("local", true, 1)]);

    assert_eq!(runtime.session_summaries.len(), 0);
    assert_eq!(runtime.session_summary_leases.len(), 0);
    assert!(runtime.next_poll_command().is_none());
    assert!(runtime.next_poll_timeout().is_none());
}

#[test]
fn permission_denial_keeps_remote_counts_unavailable() {
    let mut runtime = RuntimeState::new();
    runtime.sync_zellij_sessions(&vec![native("local", true, 1), native("alpha", false, 2)]);

    assert!(runtime.set_session_polling_enabled(false));
    runtime.begin_session_poll_cycle();

    assert!(runtime.next_poll_command().is_none());
    assert_eq!(runtime.last_error.as_deref(), Some("session synchronization unavailable"));
}

#[test]
fn summary_pipe_returns_only_generation_counts_and_freshness() {
    let mut runtime = RuntimeState::new();
    let mut running = session("running", Some("1"));
    running.state = AgentState::Running;
    runtime.agents.insert("1".into(), running);
    runtime.agents.insert("2".into(), session("idle", Some("2")));
    runtime.sync_zellij_sessions(&vec![native("local", true, 7)]);
    runtime.advance_lease_clock_to(12 * MS);

    let output = runtime
        .session_summary_output(Some("{\"version\":1,\"generation_id\":\"7000000000\"}"))
        .unwrap();
    let value = serde_json::from_str::<serde_json::Value>(&output).unwrap();

    assert_eq!(value["generation_id"], "7000000000");
    assert_eq!(value["agent_count"], 2);
    assert_eq!(value["running_agent_count"], 1);
    assert_eq!(value["fresh_at_millis"], 12);
    assert_eq!(value.as_object().unwrap().len(), 5);
}

#[test]
fn agent_expires_after_ten_seconds_without_report() {
    let mut runtime = RuntimeState::new();
    assert!(pipe(&mut runtime, &session("a", Some("1"))));

    runtime.advance_lease_clock_to(AGENT_LEASE - MS);
    assert_eq!(runtime.expire_silent_agents(), 0);
    assert!(runtime.agents.contains_key("1"));

    runtime.advance_lease_clock_to(AGENT_LEASE);
    assert_eq!(runtime.expire_silent_agents(), 1);
    assert_eq!(runtime.agents.len(), 0);
}

#[test]
fn expiry_removes_only_stale_agents() {
    let mut runtime = RuntimeState::new();
    let mut old = session("old", Some("1"));
    old.updated_at = 1_000;
    let mut fresh = session("fresh", Some("2"));
    fresh.updated_at = 9_000;

    assert!(pipe(&mut runtime, &old));
    assert!(pipe(&mut runtime, &fresh));
    runtime.advance_lease_clock_to(11_000 * MS);

    assert_eq!(runtime.expire_silent_agents(), 1);
    assert!(!runtime.agents.contains_key("1"));
    assert!(runtime.agents.contains_key("2"));
    assert_eq!(runtime.next_agent_expiry(), Some(8_000 * MS));
}

#[test]
fn shutdown_and_pane_closure_remove_leases_immediately() {
    let mut runtime = RuntimeState::new();
    assert!(pipe(&mut runtime, &session("a", Some("1"))));
    assert!(runtime.next_agent_expiry().is_some());

    let mut shutdown = session("a", Some("1"));
    shutdown.state = AgentState::Shutdown;
    assert!(pipe(&mut runtime, &shutdown));
    assert_eq!(runtime.agents.len(), 0);
    assert_eq!(runtime.next_agent_expiry(), None);

    assert!(pipe(&mut runtime, &session("b", Some("2"))));
    assert_eq!(runtime.remove_agents_for_pane(PaneId::Terminal(2)), 1);
    assert_eq!(runtime.next_agent_expiry(), None);
}

#[test]
fn same_pane_replaces_new_agent_report() {
    let mut runtime = RuntimeState::new();
    assert!(pipe(&mut runtime, &session("old", Some("1"))));
    assert!(pipe(&mut runtime, &session("new", Some("1"))));

    assert_eq!(runtime.agents.len(), 1);
    assert_eq!(runtime.agents.get("1").unwrap().agent_id, "new");
}

#[test]
fn zellij_session_change_requests_render() {
    let mut runtime = RuntimeState::new();
    assert!(pipe(&mut runtime, &session("a", Some("1"))));

    let mut hidden_change = session("a", Some("1"));
    hidden_change.zellij_session = Some("renamed".into());
    assert!(pipe(&mut runtime, &hidden_change));
    assert_eq!(runtime.pipe_count, 2);
    assert_eq!(runtime.agents.get("1").unwrap().zellij_session.as_deref(), Some("renamed"));
}

#[test]
fn current_session_rename_requests_render() {
    let mut runtime = RuntimeState::new();
    let sessions = vec![native("old", true, 10)];
    assert!(runtime.sync_zellij_sessions(&sessions));
    assert_eq!(runtime.zellij_session.as_deref(), Some("old"));
    assert!(!runtime.sync_zellij_sessions(&sessions));
    let original_generation = runtime.zellij_sessions.value_at(0).generation_id.clone();

    let renamed = vec![native("new", true, 10)];
    assert!(runtime.sync_zellij_sessions(&renamed));
    assert_eq!(runtime.zellij_session.as_deref(), Some("new"));
    assert_eq!(runtime.zellij_sessions.len(), 1);
    assert_eq!(runtime.zellij_sessions.value_at(0).name, "new");
    assert_eq!(runtime.zellij_sessions.value_at(0).generation_id, original_generation);
}

#[test]
fn native_sessions_replace_removed_records_and_keep_generation_identity() {
    let mut runtime = RuntimeState::new();
    let first = NativeSession {
        name: "work".into(),
        is_current_session: true,
        connected_clients: 2,
        web_client_count: 1,
        tab_count: 1,
        pane_count: 1,
        creation_nanos: 10_000_000_000,
    };
    let other = native("other", false, 20);

    assert!(runtime.sync_zellij_sessions(&vec![first.clone(), other]));
    assert_eq!(runtime.zellij_sessions.len(), 2);
    let mut original_generation = String::new();
    for i in 0..runtime.zellij_sessions.len() {
        if runtime.zellij_sessions.value_at(i).name == "work" {
            original_generation = runtime.zellij_sessions.value_at(i).generation_id.clone();
        }
    }

    let recreated = NativeSession { creation_nanos: 30_000_000_000, ..first };
    assert!(runtime.sync_zellij_sessions(&vec![recreated]));
    assert_eq!(runtime.zellij_sessions.len(), 1);
    let session = runtime.zellij_sessions.value_at(0);
    assert_eq!(session.name, "work");
    assert_ne!(session.generation_id, original_generation);
    assert_eq!(session.connected_client_count, 3);
    assert_eq!(session.tab_count, 1);
    assert_eq!(session.pane_count, 1);
    assert_eq!(session.created_at_seconds, 30);
}

#[test]
fn harness_change_requests_render() {
    let mut runtime = RuntimeState::new();
    assert!(pipe(&mut runtime, &session("a", Some("1"))));

    let mut harness_change = session("a", Some("1"));
    harness_change.harness = Some("codex".into());
    assert!(pipe(&mut runtime, &harness_change));
    assert_eq!(runtime.pipe_count, 2);
    assert_eq!(runtime.agents.get("1").unwrap().harness.as_deref(), Some("codex"));
}

#[test]
fn removes_only_agents_in_closed_terminal_pane() {
    let mut runtime = RuntimeState::new();
    runtime.agents.insert("a".into(), session("a", Some("1")));
    runtime.agents.insert("b".into(), session("b", Some("terminal_1")));
    runtime.agents.insert("c".into(), session("c", Some("2")));
    runtime.agents.insert("d".into(), session("d", None));

    assert_eq!(runtime.remove_agents_for_pane(PaneId::Terminal(1)), 2);
    assert_eq!(runtime.agents.len(), 2);
    assert!(runtime.agents.contains_key("c"));
    assert!(runtime.agents.contains_key("d"));
}

#[test]
fn tracks_focused_pane_from_manifest() {
    let mut runtime = RuntimeState::new();
    let manifest = vec![pane(7, 0, true)];

    assert!(runtime.sync_pane_focus(&manifest));
    assert_eq!(runtime.focused_pane.as_deref(), Some("7"));
    assert_eq!(runtime.active_tab_position, None);
    assert!(!runtime.sync_pane_focus(&manifest));
}

#[test]
fn tracks_focused_pane_only_from_active_tab() {
    let mut runtime = RuntimeState::new();
    runtime.active_tab_position = Some(1);
    let manifest = vec![pane(7, 0, true), pane(8, 1, true)];

    assert!(runtime.sync_pane_focus(&manifest));
    assert_eq!(runtime.focused_pane.as_deref(), Some("8"));
}

#[test]
fn chooses_largest_focused_pane_when_zellij_marks_multiple_in_active_tab() {
    let mut runtime = RuntimeState::new();
    runtime.active_tab_position = Some(0);
    let small = PaneSnapshot { content_rows: 1, content_columns: 130, ..pane(2, 0, true) };
    let large = PaneSnapshot { content_rows: 56, content_columns: 130, ..pane(9, 0, true) };

    assert!(runtime.sync_pane_focus(&vec![small, large]));
    assert_eq!(runtime.focused_pane.as_deref(), Some("9"));
}

#[test]
fn tracks_active_tab() {
    let mut runtime = RuntimeState::new();
    let tabs = vec![tab(3, "", true)];

    assert!(runtime.sync_tabs(&tabs));
    assert_eq!(runtime.active_tab, Some(3));
    assert_eq!(runtime.active_tab_position, Some(0));
    assert!(!runtime.sync_tabs(&tabs));
}

#[test]
fn tab_rename_requests_render_and_updates_session() {
    let mut runtime = RuntimeState::new();
    let mut agent = session("a", Some("1"));
    agent.tab_id = Some(3);
    agent.tab_name = Some("old".into());
    runtime.agents.insert(agent.cache_key(), agent);

    let old = vec![tab(3, "old", true)];
    assert!(runtime.sync_tabs(&old));
    assert!(!runtime.sync_tabs(&old));

    let renamed = vec![TabSnapshot { name: "renamed".into(), ..old[0].clone() }];
    assert!(runtime.sync_tabs(&renamed));
    assert_eq!(runtime.agents.get("1").unwrap().tab_name.as_deref(), Some("renamed"));
    assert!(!runtime.sync_tabs(&renamed));
}

#[test]
fn pipe_events_log_bytes_and_state() {
    let mut runtime = RuntimeState::new();
    let report = session("a", Some("1"));
    let payload = report_json(&report);
    assert!(pipe(&mut runtime, &report));
    let events: Vec<&String> = runtime.events.iter().collect();
    assert_eq!(events.len(), 2);
    assert_eq!(*events[0], format!("pipe #1 bytes={}", payload.len()));
    assert_eq!(events[1], "idle tmp");
}

#[test]
fn invalid_json_is_recorded() {
    let mut runtime = RuntimeState::new();
    assert!(runtime.handle_pipe(AGENT_PIPE_NAME, Some("{".into())));
    assert_eq!(runtime.last_error.as_deref(), Some("invalid json"));
    assert_eq!(runtime.events.back().unwrap(), "pipe #1 invalid json");
}

#[test]
fn missing_version_is_reported_as_missing() {
    let mut runtime = RuntimeState::new();
    assert!(runtime.handle_pipe(AGENT_PIPE_NAME, Some("{\"agent_id\":\"a\"}".into())));
    assert_eq!(runtime.last_error.as_deref(), Some("unsupported agent report version missing"));
    assert_eq!(runtime.events.back().unwrap(), "pipe #1 rejected version missing");
}

#[test]
fn malformed_version_two_report_is_invalid() {
    let mut runtime = RuntimeState::new();
    assert!(runtime.handle_pipe(AGENT_PIPE_NAME, Some("{\"version\":2,\"agent_id\":\"a\"}".into())));
    assert_eq!(runtime.last_error.as_deref(), Some("invalid agent report"));
    assert_eq!(runtime.events.back().unwrap(), "pipe #1 invalid agent report");
}

#[test]
fn event_log_keeps_six_latest() {
    let mut runtime = RuntimeState::new();
    for i in 0..8 {
        runtime.push_event(format!("e{i}"));
    }
    let events: Vec<&String> = runtime.events.iter().collect();
    assert_eq!(events.len(), 6);
    assert_eq!(events[0], "e2");
    assert_eq!(events[5], "e7");
}

#[test]
fn pane_closure_is_logged() {
    let mut runtime = RuntimeState::new();
    runtime.agents.insert("1".into(), session("a", Some("plugin_4")));
    assert_eq!(runtime.remove_agents_for_pane(PaneId::Plugin(4)), 1);
    assert_eq!(runtime.events.back().unwrap(), "pane plugin_4 closed; removed 1");
}

#[test]
fn lease_clock_never_moves_back() {
    let mut runtime = RuntimeState::new();
    runtime.advance_lease_clock_to(5);
    runtime.advance_lease_clock_to(3);
    assert_eq!(runtime.lease_time(), 5);
}

#[test]
fn summary_reply_in_array_form_is_accepted() {
    let mut runtime = RuntimeState::new();
    runtime.sync_zellij_sessions(&vec![native("local", true, 1), native("alpha", false, 2)]);
    runtime.set_session_polling_enabled(true);
    runtime.begin_session_poll_cycle();

    let command = runtime.next_poll_command().unwrap();
    let reply = format!("[1,\"{}\",3,2,42]", command.generation_id);
    assert!(runtime.handle_poll_result(Some(0), reply.as_bytes(), &[], &command.context()));
    let summary = runtime.session_summaries.get(&command.generation_id).unwrap();
    assert_eq!(summary.agent_count, 3);
    assert_eq!(summary.running_agent_count, 2);
    assert_eq!(summary.fresh_at_millis, 42);
    assert_eq!(runtime.last_error, None);
}

#[test]
fn summary_reply_array_of_wrong_length_is_malformed() {
    let mut runtime = RuntimeState::new();
    runtime.sync_zellij_sessions(&vec![native("local", true, 1), native("alpha", false, 2)]);
    runtime.set_session_polling_enabled(true);
    runtime.begin_session_poll_cycle();

    let command = runtime.next_poll_command().unwrap();
    let reply = format!("[1,\"{}\",3,2]", command.generation_id);
    assert!(runtime.handle_poll_result(Some(0), reply.as_bytes(), &[], &command.context()));
    assert_eq!(runtime.session_summaries.len(), 0);
    assert_eq!(
        runtime.last_error.as_deref(),
        Some("session synchronization returned malformed output for alpha")
    );
}

#[test]
fn summary_request_in_array_form_is_answered() {
    let mut runtime = RuntimeState::new();
    runtime.sync_zellij_sessions(&vec![native("local", true, 7)]);
    let output = runtime.session_summary_output(Some("[1,\"7000000000\"]")).unwrap();
    let value = serde_json::from_str::<serde_json::Value>(&output).unwrap();
    assert_eq!(value["generation_id"], "7000000000");
    assert_eq!(value["agent_count"], 0);
    assert_eq!(runtime.session_summary_output(Some("[1,\"7000000000\",0]")), None);
    assert_eq!(runtime.session_summary_output(Some("[1]")), None);
    assert_eq!(runtime.session_summary_output(Some("{\"version\":1,\"generation_id\":\"7000000000\",\"extra\":0}")), None);
}

#[test]
fn agent_state_in_map_form_is_accepted() {
    let payload = "{\"version\":2,\"agent_id\":\"a\",\"cwd\":\"/tmp\",\"state\":{\"running\":null},\"updated_at\":0}";
    let mut runtime = RuntimeState::new();
    assert!(runtime.handle_pipe(AGENT_PIPE_NAME, Some(payload.into())));
    assert_eq!(runtime.last_error, None);
    assert_eq!(runtime.agents.get("a").unwrap().state, AgentState::Running);
}

#[test]
fn agent_state_map_needs_one_null_member() {
    for state in ["{\"running\":1}", "{\"idle\":null,\"running\":null}", "{}", "{\"busy\":null}", "[\"idle\"]"] {
        let payload = format!("{{\"version\":2,\"agent_id\":\"a\",\"cwd\":\"/tmp\",\"state\":{state},\"updated_at\":0}}");
        let mut runtime = RuntimeState::new();
        assert!(runtime.handle_pipe(AGENT_PIPE_NAME, Some(payload)));
        assert_eq!(runtime.last_error.as_deref(), Some("invalid agent report"));
        assert_eq!(runtime.agents.len(), 0);
    }
}
