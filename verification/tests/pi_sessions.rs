use zellij_agent_threads::pi_sessions::{
    apply_session_update, remove_sessions_for_pane, truncate, PiSession, PiSessionsState, PI_PIPE_NAME,
};
use zellij_agent_threads::runtime::{AgentState, PaneId};
use zellij_agent_threads::text_map::TextMap;

fn session(session: &str, pane_id: Option<&str>) -> PiSession {
    PiSession {
        version: 1,
        session: session.into(),
        cwd: "/tmp".into(),
        pane_id: pane_id.map(str::to_string),
        state: AgentState::Idle,
        model: None,
        updated_at: 0,
    }
}

#[test]
fn removes_only_sessions_in_closed_terminal_pane() {
    let mut sessions = TextMap::new();
    sessions.insert("a".into(), session("a", Some("1")));
    sessions.insert("b".into(), session("b", Some("terminal_1")));
    sessions.insert("c".into(), session("c", Some("2")));
    sessions.insert("d".into(), session("d", None));

    assert_eq!(remove_sessions_for_pane(&mut sessions, PaneId::Terminal(1)), 2);
    assert_eq!(sessions.len(), 2);
    assert!(sessions.contains_key("c"));
    assert!(sessions.contains_key("d"));
}

#[test]
fn shutdown_report_removes_its_session() {
    let mut sessions = TextMap::new();
    apply_session_update(&mut sessions, session("a", Some("1")));
    assert!(sessions.contains_key("a"));
    let mut closed = session("a", Some("1"));
    closed.state = AgentState::Shutdown;
    apply_session_update(&mut sessions, closed);
    assert_eq!(sessions.len(), 0);
}

#[test]
fn pipe_counts_and_stores_reports() {
    let mut state = PiSessionsState::new();
    state.load();
    assert!(!state.pipe("other", Some("{}".into())));
    assert_eq!(state.pipe_count, 0);

    assert!(state.pipe(PI_PIPE_NAME, None));
    assert_eq!(state.last_error.as_deref(), Some("empty payload"));

    assert!(state.pipe(PI_PIPE_NAME, Some("not json".into())));
    assert_eq!(state.last_error.as_deref(), Some("invalid json"));

    let report = "{\"version\":1,\"session\":\"s\",\"cwd\":\"/work/proj\",\"pane_id\":\"3\",\"state\":\"running\",\"model\":\"m\",\"updated_at\":5}";
    assert!(state.pipe(PI_PIPE_NAME, Some(report.into())));
    assert_eq!(state.pipe_count, 3);
    assert_eq!(state.last_error, None);
    assert_eq!(state.sessions.len(), 1);
    assert_eq!(state.events.back().map(String::as_str), Some("running proj"));
    assert_eq!(state.events.len(), 6);
}

#[test]
fn renders_status_sessions_and_recent_events() {
    let mut state = PiSessionsState::new();
    state.sessions.insert("s".into(), {
        let mut s = session("s", Some("3"));
        s.cwd = "/work/proj".into();
        s.model = Some("m".into());
        s
    });
    state.pipe_count = 1;
    state.events.push_back("old".into());
    state.events.push_back("new".into());

    let lines = state.render_lines(5, 80);
    assert_eq!(
        lines,
        vec![
            (0, "zellij-agent pipes=1 sessions=1".to_string()),
            (1, "idle    pane=3 proj m".to_string()),
            (2, "new".to_string()),
            (3, "old".to_string()),
        ]
    );
    assert_eq!(state.render_lines(0, 80), vec![]);
    assert_eq!(state.render_lines(1, 5), vec![(0, "zelli".to_string())]);
}

#[test]
fn empty_state_prints_waiting_note() {
    let state = PiSessionsState::new();
    let lines = state.render_lines(2, 80);
    assert_eq!(lines[1], (1, "waiting for pi extension reports".to_string()));
}

#[test]
fn truncate_cuts_by_characters() {
    assert_eq!(truncate("héllo", 2), "hé");
    assert_eq!(truncate("ab", 5), "ab");
}

#[test]
fn session_report_in_array_form_is_stored() {
    let mut state = PiSessionsState::new();
    let report = "[1,\"s\",\"/work/proj\",null,\"idle\",\"m\",5]";
    assert!(state.pipe(PI_PIPE_NAME, Some(report.into())));
    assert_eq!(state.last_error, None);
    assert_eq!(state.sessions.len(), 1);

    let short = "[1,\"t\",\"/work/other\",null,\"idle\",null]";
    assert!(state.pipe(PI_PIPE_NAME, Some(short.into())));
    assert_eq!(state.last_error.as_deref(), Some("invalid json"));
    assert_eq!(state.sessions.len(), 1);
}

#[test]
fn session_state_in_map_form_is_accepted() {
    let mut state = PiSessionsState::new();
    let report = "{\"version\":1,\"session\":\"s\",\"cwd\":\"/work/proj\",\"state\":{\"idle\":null},\"updated_at\":5}";
    assert!(state.pipe(PI_PIPE_NAME, Some(report.into())));
    assert_eq!(state.last_error, None);
    assert_eq!(state.sessions.len(), 1);
    let bad = "{\"version\":1,\"session\":\"t\",\"cwd\":\"/work/proj\",\"state\":{\"idle\":true},\"updated_at\":5}";
    assert!(state.pipe(PI_PIPE_NAME, Some(bad.into())));
    assert_eq!(state.last_error.as_deref(), Some("invalid json"));
    assert_eq!(state.sessions.len(), 1);
}
