use zellij_agent_threads::config::RenderConfig;
use zellij_agent_threads::model::{session_sorts_before, RenderModel, SessionLine};
use zellij_agent_threads::runtime::{AgentReport, AgentState, RuntimeState, ZellijSession};

fn agent_report(agent_id: &str, pane: &str, title: &str) -> AgentReport {
    AgentReport {
        version: 2,
        harness: Some("pi".into()),
        agent_id: agent_id.into(),
        session_name: None,
        cwd: "/tmp/project".into(),
        pane_id: Some(pane.into()),
        tab_id: Some(7),
        tab_name: Some("Agents".into()),
        zellij_session: Some("z".into()),
        state: AgentState::Running,
        model: Some("m".into()),
        title: Some(title.into()),
        current_tool: None,
        updated_at: 0,
    }
}

fn zsession(generation_id: &str, name: &str, clients: usize, tabs: usize, panes: usize, created: u64, current: bool) -> ZellijSession {
    ZellijSession {
        generation_id: generation_id.into(),
        name: name.into(),
        connected_client_count: clients,
        tab_count: tabs,
        pane_count: panes,
        created_at_seconds: created,
        current,
    }
}

fn sample_model() -> RenderModel {
    let mut runtime = RuntimeState::new();
    let mut report = agent_report("s", "1", "First Message Title");
    report.session_name = Some("diagnostic-session".into());
    report.current_tool = Some("bash".into());
    runtime.agents.insert("s".into(), report);
    runtime.events.push_back("old".into());
    runtime.events.push_back("new".into());
    runtime.pipe_count = 2;
    runtime.last_error = None;
    runtime.focused_pane = Some("1".into());
    runtime.active_tab = Some(7);
    runtime.active_tab_position = Some(0);
    runtime.tabs = vec![(7, "Agents".into())];
    runtime.zellij_session = None;
    RenderModel::from_runtime(&runtime, &RenderConfig::defaults())
}

#[test]
fn model_builds_render_model_from_runtime() {
    let model = sample_model();

    assert_eq!(model.agents.len(), 1);
    assert_eq!(model.tabs.len(), 1);
    assert_eq!(model.events, vec!["new", "old"]);
    assert!(model.tabs[0].active);
    assert!(model.agents[0].focused);
    assert!(model.agents[0].active_tab);
    assert_eq!(model.agents[0].zellij_session, "z");
    assert_eq!(model.zellij_session, "z");

    assert_eq!(model.agents[0].harness, "pi");
    assert_eq!(model.agents[0].agent_id, "s");
    assert_eq!(model.agents[0].session_name, "diagnostic-session");
    assert_eq!(model.agents[0].current_tool, "bash");
    assert_eq!(model.tabs[0].agents.len(), 1);
    assert_eq!(model.harness, "pi");
}

#[test]
fn sessions_sort_current_first_then_case_insensitive_name() {
    let mut remote_agent = agent_report("remote-agent", "2", "Other");
    remote_agent.zellij_session = Some("beta".into());
    let mut local_agent = agent_report("local", "1", "Current");
    local_agent.zellij_session = Some("Alpha".into());
    let mut runtime = RuntimeState::new();
    runtime.agents.insert("local".into(), local_agent);
    runtime.agents.insert("remote".into(), remote_agent);
    runtime.zellij_sessions.insert("beta:1".into(), zsession("beta:1", "beta", 2, 3, 4, 10, false));
    runtime.zellij_sessions.insert("Alpha:1".into(), zsession("Alpha:1", "Alpha", 1, 1, 1, 20, true));
    runtime
        .zellij_sessions
        .insert("aardvark:1".into(), zsession("aardvark:1", "aardvark", 0, 0, 0, 30, false));
    runtime.zellij_session = Some("Alpha".into());

    let model = RenderModel::from_runtime(&runtime, &RenderConfig::defaults());

    assert_eq!(model.sessions[0].name, "Alpha");
    assert_eq!(model.sessions[1].name, "aardvark");
    assert_eq!(model.sessions[2].name, "beta");
    assert_eq!(model.sessions[0].agent_count, 1);
    assert_eq!(model.sessions[1].agent_count, 0);
    assert_eq!(model.sessions[2].agent_count, 1);
    assert_eq!(model.sessions[0].created_at_seconds, 20);
}

#[test]
fn current_session_counts_agents_when_pipe_session_name_is_stale() {
    let mut stale_agent = agent_report("local", "1", "Current");
    stale_agent.zellij_session = Some("old-name".into());
    let mut runtime = RuntimeState::new();
    runtime.agents.insert("local".into(), stale_agent);
    runtime.zellij_sessions.insert("10".into(), zsession("10", "new-name", 1, 1, 1, 10, true));
    runtime.zellij_session = Some("new-name".into());

    let model = RenderModel::from_runtime(&runtime, &RenderConfig::defaults());

    assert_eq!(model.sessions[0].name, "new-name");
    assert_eq!(model.sessions[0].agent_count, 1);
}

#[test]
fn single_agent_in_active_tab_is_marked_focused_when_zellij_focus_missing() {
    let mut runtime = RuntimeState::new();
    runtime.active_tab = Some(7);
    runtime.tabs = vec![(7, "Agents".into())];
    let mut report = agent_report("s", "1", "x");
    report.model = None;
    report.title = None;
    runtime.agents.insert("s".into(), report);

    let model = RenderModel::from_runtime(&runtime, &RenderConfig::defaults());

    assert!(model.tabs[0].active);
    assert!(model.tabs[0].agents[0].focused);
}

#[test]
fn agents_without_matching_tab_metadata_remain_flat_only() {
    let mut runtime = RuntimeState::new();
    runtime.tabs = vec![(9, "Empty".into())];
    let mut report = agent_report("s", "1", "x");
    report.tab_name = Some("Stale".into());
    report.state = AgentState::Idle;
    report.model = None;
    report.title = None;
    runtime.agents.insert("s".into(), report);

    let model = RenderModel::from_runtime(&runtime, &RenderConfig::defaults());

    assert_eq!(model.agents.len(), 1);
    assert_eq!(model.tabs.len(), 1);
    assert!(model.tabs[0].agents.is_empty());
}

#[test]
fn zellij_session_event_name_overrides_stale_pipe_name() {
    let mut runtime = RuntimeState::new();
    runtime.zellij_session = Some("renamed".into());
    let model = RenderModel::from_runtime(&runtime, &RenderConfig::defaults());
    assert_eq!(model.zellij_session, "renamed");
}

#[test]
fn title_falls_back_to_cwd_basename_and_tab_ids_are_one_based() {
    let mut runtime = RuntimeState::new();
    runtime.tabs = vec![(0, "First".into())];
    let mut report = agent_report("s", "4", "x");
    report.title = None;
    report.tab_id = Some(0);
    report.cwd = "/home/me/work/project".into();
    runtime.agents.insert("s".into(), report);

    let model = RenderModel::from_runtime(&runtime, &RenderConfig::defaults());

    assert_eq!(model.agents[0].title, "project");
    assert_eq!(model.tabs[0].tab_id, Some(1));
    assert_eq!(model.tabs[0].tab_name, "First");
    assert_eq!(model.agents[0].pane, "4");
}

#[test]
fn current_session_sorts_before_every_other() {
    let line = |name: &str, current: bool| SessionLine {
        id: name.into(),
        generation_id: name.into(),
        name: name.into(),
        status: "live",
        agent_count: 0,
        running_agent_count: 0,
        connected_client_count: 0,
        tab_count: 0,
        pane_count: 0,
        created_at_seconds: 0,
        current,
    };
    assert!(session_sorts_before(&line("zed", true), &line("abc", false)));
    assert!(!session_sorts_before(&line("abc", false), &line("zed", true)));
    assert!(session_sorts_before(&line("Abc", false), &line("bcd", false)));
    assert!(!session_sorts_before(&line("Bcd", false), &line("abc", false)));
}

#[test]
fn session_rows_carry_id_and_running_agent_count() {
    let mut running = agent_report("a", "1", "A");
    running.zellij_session = Some("z".into());
    let mut idle = agent_report("b", "2", "B");
    idle.zellij_session = Some("z".into());
    idle.state = AgentState::Idle;
    let mut runtime = RuntimeState::new();
    runtime.agents.insert("1".into(), running);
    runtime.agents.insert("2".into(), idle);
    runtime.zellij_sessions.insert("z:10".into(), zsession("z:10", "z", 1, 2, 3, 10, true));
    runtime.zellij_session = Some("z".into());

    let model = RenderModel::from_runtime(&runtime, &RenderConfig::defaults());

    let s = &model.sessions[0];
    assert_eq!(
        format!(
            "{} {} {} {} {} {} {} {} {} {}",
            s.id, s.generation_id, s.name, s.status, s.agent_count, s.running_agent_count,
            s.connected_client_count, s.tab_count, s.pane_count, s.created_at_seconds
        ),
        "z:10 z:10 z current 2 1 1 2 3 10"
    );
}
