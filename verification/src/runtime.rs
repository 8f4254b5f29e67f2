//! Plugin runtime state and protocol handling.
//!
//! `RuntimeState` is the plugin's agent database plus small UI state. Zellij events
//! arrive as plain values; every transition is a method with an exact contract.
//! Times are nanosecond counts of a lease clock that only moves forward.

use vstd::prelude::*;
use std::collections::VecDeque;
use crate::json::{JsonDoc, JsonScalar, member, members, get_member, parse_json, json_document};
use crate::polls::target_views;
use crate::text::{
    basename, basename_of, chars_of, decimal, push_decimal, push_text, string_of, same_text,
    push_chars,
};
use crate::text_map::{TextMap, find, insert_entry, remove_entry, keep_flagged, lemma_remove_sorted,
    lemma_remove_absent, lemma_keep_flagged_len};

verus! {

/// Name of the Zellij pipe that receives Agent Reports.
pub const AGENT_PIPE_NAME: &'static str = "agenthreads:agent";

/// Name of the pipe that asks this sidebar for its session summary.
pub const SUMMARY_PIPE_NAME: &'static str = "agenthreads:summary";

/// How long an agent stays listed after its last report, in nanoseconds (ten seconds).
pub const AGENT_LEASE: u128 = 10_000_000_000;

/// Interval between polls of remote sessions, in nanoseconds (ten seconds).
pub const SESSION_POLL_INTERVAL: u128 = 10_000_000_000;

/// How long one session poll may run, in nanoseconds (three seconds).
pub const SESSION_POLL_TIMEOUT: u128 = 3_000_000_000;

/// How long a remote session summary stays fresh, in nanoseconds (thirty seconds).
pub const SESSION_SUMMARY_LEASE: u128 = 30_000_000_000;

/// The most diagnostic events kept.
pub const MAX_EVENTS: usize = 6;

/// Lifecycle state for one agent.
#[derive(Clone, Copy, Debug, PartialEq, Eq, Structural)]
pub enum AgentState {
    Idle,
    Running,
    Shutdown,
}

/// A Zellij pane, as Zellij names it in events.
#[derive(Clone, Copy, Debug, PartialEq, Eq, Structural)]
pub enum PaneId {
    Terminal(u32),
    Plugin(u32),
}

/// Version-two Agent Report sent by a harness over the agent pipe.
#[derive(Clone, Debug, PartialEq, Eq)]
pub struct AgentReport {
    pub version: u8,
    pub harness: Option<String>,
    pub agent_id: String,
    pub session_name: Option<String>,
    pub cwd: String,
    pub zellij_session: Option<String>,
    pub pane_id: Option<String>,
    pub tab_id: Option<usize>,
    pub tab_name: Option<String>,
    pub state: AgentState,
    pub model: Option<String>,
    pub title: Option<String>,
    pub current_tool: Option<String>,
    pub updated_at: u64,
}

/// One native Zellij session generation.
#[derive(Clone, Debug, PartialEq, Eq)]
pub struct ZellijSession {
    pub generation_id: String,
    pub name: String,
    pub connected_client_count: usize,
    pub tab_count: usize,
    pub pane_count: usize,
    pub created_at_seconds: u64,
    pub current: bool,
}

/// Leased agent counts reported by another active sidebar.
#[derive(Clone, Debug, PartialEq, Eq)]
pub struct SessionSummary {
    pub generation_id: String,
    pub agent_count: usize,
    pub running_agent_count: usize,
    pub fresh_at_millis: u64,
}

/// A remote session waiting to be polled.
#[derive(Clone, Debug, PartialEq, Eq)]
pub struct PollTarget {
    pub session_name: String,
    pub generation_id: String,
}

/// The poll that is running.
#[derive(Clone, Debug, PartialEq, Eq)]
pub struct ActivePoll {
    pub id: u64,
    pub target: PollTarget,
    pub started_at: u128,
}

/// Mutable state for one running plugin instance.
pub struct RuntimeState {
    pub agents: TextMap<AgentReport>,
    pub agent_leases: TextMap<u128>,
    pub session_summaries: TextMap<SessionSummary>,
    pub session_summary_leases: TextMap<u128>,
    pub lease_clock: u128,
    pub zellij_sessions: TextMap<ZellijSession>,
    pub poll_queue: VecDeque<PollTarget>,
    pub active_poll: Option<ActivePoll>,
    pub next_poll_at: Option<u128>,
    pub next_poll_id: u64,
    pub session_polling_enabled: bool,
    /// Tab names by native tab id, ids strictly increasing.
    pub tabs: Vec<(usize, String)>,
    pub events: VecDeque<String>,
    pub pipe_count: u64,
    pub last_error: Option<String>,
    pub focused_pane: Option<String>,
    pub active_tab: Option<usize>,
    pub active_tab_position: Option<usize>,
    pub zellij_session: Option<String>,
}

/// The view of an optional string.
pub open spec fn opt_view(o: Option<String>) -> Option<Seq<char>> {
    match o {
        Some(s) => Some(s@),
        None => None,
    }
}

/// The views of a sequence of strings.
pub open spec fn texts(s: Seq<String>) -> Seq<Seq<char>> {
    s.map_values(|x: String| x@)
}

/// The event log after appending `e`: the oldest event leaves when the log is full.
pub open spec fn pushed_event(events: Seq<Seq<char>>, e: Seq<char>) -> Seq<Seq<char>> {
    if events.len() == MAX_EVENTS {
        events.drop_first().push(e)
    } else {
        events.push(e)
    }
}

/// The lowercase state label used in events and templates.
pub open spec fn state_text(state: AgentState) -> Seq<char> {
    match state {
        AgentState::Idle => "idle"@,
        AgentState::Running => "running"@,
        AgentState::Shutdown => "closed"@,
    }
}

/// The key an agent is stored under: its pane when it reports one, else its agent id.
pub open spec fn cache_key(r: AgentReport) -> Seq<char> {
    match r.pane_id {
        Some(p) => p@,
        None => r.agent_id@,
    }
}

/// Whether two reports agree on every field the render model reads.
pub open spec fn same_render_fields(a: AgentReport, b: AgentReport) -> bool {
    &&& a.cwd@ == b.cwd@
    &&& opt_view(a.pane_id) == opt_view(b.pane_id)
    &&& a.tab_id == b.tab_id
    &&& opt_view(a.tab_name) == opt_view(b.tab_name)
    &&& opt_view(a.zellij_session) == opt_view(b.zellij_session)
    &&& opt_view(a.harness) == opt_view(b.harness)
    &&& a.agent_id@ == b.agent_id@
    &&& opt_view(a.session_name) == opt_view(b.session_name)
    &&& a.state == b.state
    &&& opt_view(a.model) == opt_view(b.model)
    &&& opt_view(a.title) == opt_view(b.title)
    &&& opt_view(a.current_tool) == opt_view(b.current_tool)
}

/// Whether a pane id written by a harness names `pane`: a terminal as `N` or `terminal_N`,
/// a plugin as `plugin_N`.
pub open spec fn pane_matches(text: Seq<char>, pane: PaneId) -> bool {
    match pane {
        PaneId::Terminal(id) => text == decimal(id as nat) || text == "terminal_"@ + decimal(
            id as nat,
        ),
        PaneId::Plugin(id) => text == "plugin_"@ + decimal(id as nat),
    }
}

/// How Zellij writes a pane id.
pub open spec fn pane_text(pane: PaneId) -> Seq<char> {
    match pane {
        PaneId::Terminal(id) => "terminal_"@ + decimal(id as nat),
        PaneId::Plugin(id) => "plugin_"@ + decimal(id as nat),
    }
}

/// The lowercase state label used in events and templates.
pub fn state_label(state: AgentState) -> (r: &'static str)
    ensures
        r@ == state_text(state),
{
    match state {
        AgentState::Idle => "idle",
        AgentState::Running => "running",
        AgentState::Shutdown => "closed",
    }
}

/// Compares two optional strings by their text.
pub fn same_opt_text(a: &Option<String>, b: &Option<String>) -> (r: bool)
    ensures
        r == (opt_view(*a) == opt_view(*b)),
{
    match (a, b) {
        (Some(x), Some(y)) => same_text(x.as_str(), y.as_str()),
        (None, None) => true,
        _ => false,
    }
}

/// Clones an optional string.
pub fn clone_opt(a: &Option<String>) -> (r: Option<String>)
    ensures
        r == *a,
        opt_view(r) == opt_view(*a),
{
    match a {
        Some(x) => Some(x.clone()),
        None => None,
    }
}

/// The text a pane id is written as.
pub fn pane_id_text(pane: PaneId) -> (r: Vec<char>)
    ensures
        r@ == pane_text(pane),
{
    let mut r: Vec<char> = Vec::new();
    match pane {
        PaneId::Terminal(id) => {
            push_text(&mut r, "terminal_");
            push_decimal(&mut r, id as u128);
        },
        PaneId::Plugin(id) => {
            push_text(&mut r, "plugin_");
            push_decimal(&mut r, id as u128);
        },
    }
    r
}

/// Matches a pane id written by a harness against a typed Zellij pane id.
pub fn pane_id_matches(text: &str, pane: PaneId) -> (r: bool)
    ensures
        r == pane_matches(text@, pane),
{
    let t = chars_of(text);
    match pane {
        PaneId::Terminal(id) => {
            let mut plain: Vec<char> = Vec::new();
            push_decimal(&mut plain, id as u128);
            assert(plain@ =~= decimal(id as nat));
            let prefixed = pane_id_text(pane);
            crate::text::same_chars(&t, &plain) || crate::text::same_chars(&t, &prefixed)
        },
        PaneId::Plugin(_) => {
            let prefixed = pane_id_text(pane);
            crate::text::same_chars(&t, &prefixed)
        },
    }
}

impl AgentReport {
    /// A copy of this report.
    pub fn clone_report(&self) -> (r: AgentReport)
        ensures
            r == *self,
    {
        AgentReport {
            version: self.version,
            harness: clone_opt(&self.harness),
            agent_id: self.agent_id.clone(),
            session_name: clone_opt(&self.session_name),
            cwd: self.cwd.clone(),
            zellij_session: clone_opt(&self.zellij_session),
            pane_id: clone_opt(&self.pane_id),
            tab_id: self.tab_id,
            tab_name: clone_opt(&self.tab_name),
            state: self.state,
            model: clone_opt(&self.model),
            title: clone_opt(&self.title),
            current_tool: clone_opt(&self.current_tool),
            updated_at: self.updated_at,
        }
    }

    /// The key this report is stored under.
    pub fn cache_key(&self) -> (r: String)
        ensures
            r@ == cache_key(*self),
    {
        match &self.pane_id {
            Some(p) => p.clone(),
            None => self.agent_id.clone(),
        }
    }

    /// Compares only the fields used by the render model.
    pub fn same_render_fields(&self, other: &Self) -> (r: bool)
        ensures
            r == same_render_fields(*self, *other),
    {
        same_text(self.cwd.as_str(), other.cwd.as_str()) && same_opt_text(
            &self.pane_id,
            &other.pane_id,
        ) && self.tab_id == other.tab_id && same_opt_text(&self.tab_name, &other.tab_name)
            && same_opt_text(&self.zellij_session, &other.zellij_session) && same_opt_text(
            &self.harness,
            &other.harness,
        ) && same_text(self.agent_id.as_str(), other.agent_id.as_str()) && same_opt_text(
            &self.session_name,
            &other.session_name,
        ) && self.state == other.state && same_opt_text(&self.model, &other.model)
            && same_opt_text(&self.title, &other.title) && same_opt_text(
            &self.current_tool,
            &other.current_tool,
        )
    }
}

// ---------------------------------------------------------------------------------------
// Decoding an Agent Report from its JSON members.
// ---------------------------------------------------------------------------------------

/// The member names an Agent Report may carry; any other name rejects the report.
pub open spec fn known_report_key(k: Seq<char>) -> bool {
    ||| k == "version"@
    ||| k == "harness"@
    ||| k == "agent_id"@
    ||| k == "session_name"@
    ||| k == "cwd"@
    ||| k == "zellij_session"@
    ||| k == "pane_id"@
    ||| k == "tab_id"@
    ||| k == "tab_name"@
    ||| k == "state"@
    ||| k == "model"@
    ||| k == "title"@
    ||| k == "current_tool"@
    ||| k == "updated_at"@
}

/// A required string member holding `v`.
pub open spec fn text_field(f: Option<JsonScalar>, v: String) -> bool {
    f matches Some(JsonScalar::Text(s)) && s@ == v@
}

/// An optional string member (absent or `null` is `None`) holding `v`.
pub open spec fn opt_text_field(f: Option<JsonScalar>, v: Option<String>) -> bool {
    match f {
        None => v is None,
        Some(JsonScalar::Null) => v is None,
        Some(JsonScalar::Text(s)) => opt_view(v) == Some(s@),
        _ => false,
    }
}

/// Whether an optional string member is well-typed.
pub open spec fn opt_text_ok(f: Option<JsonScalar>) -> bool {
    match f {
        None => true,
        Some(JsonScalar::Null) => true,
        Some(JsonScalar::Text(_)) => true,
        _ => false,
    }
}

/// An optional unsigned member holding `v`.
pub open spec fn opt_index_field(f: Option<JsonScalar>, v: Option<usize>) -> bool {
    match f {
        None => v is None,
        Some(JsonScalar::Null) => v is None,
        Some(JsonScalar::Number(Some(n))) => n <= usize::MAX && v == Some(n as usize),
        _ => false,
    }
}

/// Whether an optional unsigned member is well-typed.
pub open spec fn opt_index_ok(f: Option<JsonScalar>) -> bool {
    match f {
        None => true,
        Some(JsonScalar::Null) => true,
        Some(JsonScalar::Number(Some(n))) => n <= usize::MAX,
        _ => false,
    }
}

/// The state a name stands for.
pub open spec fn state_named(t: Seq<char>) -> Option<AgentState> {
    if t == "idle"@ {
        Some(AgentState::Idle)
    } else if t == "running"@ {
        Some(AgentState::Running)
    } else if t == "shutdown"@ {
        Some(AgentState::Shutdown)
    } else {
        None
    }
}

/// The state a state member gives, in either form `serde` reads a unit variant in: its name
/// as a string, or an object whose one member has that name and the value `null`.
pub open spec fn state_of(f: Option<JsonScalar>) -> Option<AgentState> {
    match f {
        Some(JsonScalar::Text(t)) => state_named(t@),
        Some(JsonScalar::Members(ms)) => if ms@.len() == 1 && ms@[0].1 {
            state_named(ms@[0].0@)
        } else {
            None
        },
        _ => None,
    }
}

/// The state member holding `s`.
pub open spec fn state_field(f: Option<JsonScalar>, s: AgentState) -> bool {
    state_of(f) == Some(s)
}

/// Whether the state member names a state.
pub open spec fn state_ok(f: Option<JsonScalar>) -> bool {
    state_of(f) is Some
}

fn state_by_name(t: &str) -> (r: Option<AgentState>)
    ensures
        r == state_named(t@),
{
    if same_text(t, "idle") {
        Some(AgentState::Idle)
    } else if same_text(t, "running") {
        Some(AgentState::Running)
    } else if same_text(t, "shutdown") {
        Some(AgentState::Shutdown)
    } else {
        None
    }
}

/// Reads a state member.
pub fn decode_state(f: Option<&JsonScalar>) -> (r: Option<AgentState>)
    ensures
        r == state_of(opt_deref(f)),
{
    match f {
        Some(JsonScalar::Text(t)) => state_by_name(t.as_str()),
        Some(JsonScalar::Members(ms)) => if ms.len() == 1 && ms[0].1 {
            state_by_name(ms[0].0.as_str())
        } else {
            None
        },
        _ => None,
    }
}

/// The members of a report object, looked up by name.
pub open spec fn field(obj: Seq<(String, JsonScalar)>, key: Seq<char>) -> Option<JsonScalar> {
    find(members(obj), key)
}

/// Whether a document decodes as an Agent Report.
pub open spec fn report_decodes(doc: JsonDoc) -> bool {
    match doc {
        JsonDoc::Object(o) => {
            let obj = o@;
            &&& forall|i: int| 0 <= i < obj.len() ==> known_report_key(#[trigger] obj[i].0@)
            &&& field(obj, "version"@) matches Some(JsonScalar::Number(Some(n))) && n <= 255
            &&& opt_text_ok(field(obj, "harness"@))
            &&& field(obj, "agent_id"@) matches Some(JsonScalar::Text(_))
            &&& opt_text_ok(field(obj, "session_name"@))
            &&& field(obj, "cwd"@) matches Some(JsonScalar::Text(_))
            &&& opt_text_ok(field(obj, "zellij_session"@))
            &&& opt_text_ok(field(obj, "pane_id"@))
            &&& opt_index_ok(field(obj, "tab_id"@))
            &&& opt_text_ok(field(obj, "tab_name"@))
            &&& state_ok(field(obj, "state"@))
            &&& opt_text_ok(field(obj, "model"@))
            &&& opt_text_ok(field(obj, "title"@))
            &&& opt_text_ok(field(obj, "current_tool"@))
            &&& field(obj, "updated_at"@) matches Some(JsonScalar::Number(Some(_)))
        },
        _ => false,
    }
}

/// Whether `r` is the Agent Report a document decodes as.
pub open spec fn report_decoded_as(doc: JsonDoc, r: AgentReport) -> bool {
    match doc {
        JsonDoc::Object(o) => {
            let obj = o@;
            &&& report_decodes(doc)
            &&& field(obj, "version"@) == Some(JsonScalar::Number(Some(r.version as u64)))
            &&& opt_text_field(field(obj, "harness"@), r.harness)
            &&& text_field(field(obj, "agent_id"@), r.agent_id)
            &&& opt_text_field(field(obj, "session_name"@), r.session_name)
            &&& text_field(field(obj, "cwd"@), r.cwd)
            &&& opt_text_field(field(obj, "zellij_session"@), r.zellij_session)
            &&& opt_text_field(field(obj, "pane_id"@), r.pane_id)
            &&& opt_index_field(field(obj, "tab_id"@), r.tab_id)
            &&& opt_text_field(field(obj, "tab_name"@), r.tab_name)
            &&& state_field(field(obj, "state"@), r.state)
            &&& opt_text_field(field(obj, "model"@), r.model)
            &&& opt_text_field(field(obj, "title"@), r.title)
            &&& opt_text_field(field(obj, "current_tool"@), r.current_tool)
            &&& field(obj, "updated_at"@) == Some(JsonScalar::Number(Some(r.updated_at)))
        },
        _ => false,
    }
}

/// The `version` member of a document, when it is a non-negative integer.
pub open spec fn report_version(doc: JsonDoc) -> Option<u64> {
    match member(doc, "version"@) {
        Some(JsonScalar::Number(Some(n))) => Some(n),
        _ => None,
    }
}

fn is_known_report_key(k: &str) -> (r: bool)
    ensures
        r == known_report_key(k@),
{
    same_text(k, "version") || same_text(k, "harness") || same_text(k, "agent_id") || same_text(
        k,
        "session_name",
    ) || same_text(k, "cwd") || same_text(k, "zellij_session") || same_text(k, "pane_id")
        || same_text(k, "tab_id") || same_text(k, "tab_name") || same_text(k, "state")
        || same_text(k, "model") || same_text(k, "title") || same_text(k, "current_tool")
        || same_text(k, "updated_at")
}

pub fn decode_opt_text(f: Option<&JsonScalar>) -> (r: Result<Option<String>, ()>)
    ensures
        match r {
            Ok(v) => opt_text_ok(opt_deref(f)) && opt_text_field(opt_deref(f), v),
            Err(_) => !opt_text_ok(opt_deref(f)),
        },
{
    match f {
        None => Ok(None),
        Some(JsonScalar::Null) => Ok(None),
        Some(JsonScalar::Text(s)) => Ok(Some(s.clone())),
        _ => Err(()),
    }
}

/// The value behind an optional reference.
pub open spec fn opt_deref<T>(f: Option<&T>) -> Option<T> {
    match f {
        Some(x) => Some(*x),
        None => None,
    }
}

pub fn decode_text(f: Option<&JsonScalar>) -> (r: Option<String>)
    ensures
        match r {
            Some(v) => text_field(opt_deref(f), v),
            None => !(opt_deref(f) matches Some(JsonScalar::Text(_))),
        },
{
    match f {
        Some(JsonScalar::Text(s)) => Some(s.clone()),
        _ => None,
    }
}

/// Decodes an Agent Report from a parsed document, as serde's derived decoder with
/// `deny_unknown_fields` does: every member known, every required member present,
/// every member well-typed.
pub fn decode_agent_report(doc: &JsonDoc) -> (r: Option<AgentReport>)
    ensures
        match r {
            Some(rep) => report_decoded_as(*doc, rep),
            None => !report_decodes(*doc),
        },
{
    let obj = match doc {
        JsonDoc::Object(o) => o,
        _ => {
            return None;
        },
    };
    let mut i: usize = 0;
    while i < obj.len()
        invariant
            i <= obj@.len(),
            *doc == JsonDoc::Object(*obj),
            forall|j: int| 0 <= j < i ==> known_report_key(#[trigger] obj@[j].0@),
        decreases obj@.len() - i,
    {
        if !is_known_report_key(obj[i].0.as_str()) {
            assert(!known_report_key(obj@[i as int].0@));
            assert(!report_decodes(*doc));
            return None;
        }
        i = i + 1;
    }
    let version = match get_member(obj, "version") {
        Some(JsonScalar::Number(Some(n))) => {
            if *n > 255 {
                return None;
            }
            *n as u8
        },
        _ => {
            return None;
        },
    };
    let harness = match decode_opt_text(get_member(obj, "harness")) {
        Ok(v) => v,
        Err(_) => {
            return None;
        },
    };
    let agent_id = match decode_text(get_member(obj, "agent_id")) {
        Some(v) => v,
        None => {
            return None;
        },
    };
    let session_name = match decode_opt_text(get_member(obj, "session_name")) {
        Ok(v) => v,
        Err(_) => {
            return None;
        },
    };
    let cwd = match decode_text(get_member(obj, "cwd")) {
        Some(v) => v,
        None => {
            return None;
        },
    };
    let zellij_session = match decode_opt_text(get_member(obj, "zellij_session")) {
        Ok(v) => v,
        Err(_) => {
            return None;
        },
    };
    let pane_id = match decode_opt_text(get_member(obj, "pane_id")) {
        Ok(v) => v,
        Err(_) => {
            return None;
        },
    };
    let tab_id: Option<usize> = match get_member(obj, "tab_id") {
        None => None,
        Some(JsonScalar::Null) => None,
        Some(JsonScalar::Number(Some(n))) => {
            if *n > (usize::MAX as u64) {
                return None;
            }
            Some(*n as usize)
        },
        _ => {
            return None;
        },
    };
    let tab_name = match decode_opt_text(get_member(obj, "tab_name")) {
        Ok(v) => v,
        Err(_) => {
            return None;
        },
    };
    let state = match decode_state(get_member(obj, "state")) {
        Some(st) => st,
        None => {
            return None;
        },
    };
    let model = match decode_opt_text(get_member(obj, "model")) {
        Ok(v) => v,
        Err(_) => {
            return None;
        },
    };
    let title = match decode_opt_text(get_member(obj, "title")) {
        Ok(v) => v,
        Err(_) => {
            return None;
        },
    };
    let current_tool = match decode_opt_text(get_member(obj, "current_tool")) {
        Ok(v) => v,
        Err(_) => {
            return None;
        },
    };
    let updated_at = match get_member(obj, "updated_at") {
        Some(JsonScalar::Number(Some(n))) => *n,
        _ => {
            return None;
        },
    };
    Some(
        AgentReport {
            version,
            harness,
            agent_id,
            session_name,
            cwd,
            zellij_session,
            pane_id,
            tab_id,
            tab_name,
            state,
            model,
            title,
            current_tool,
            updated_at,
        },
    )
}

// ---------------------------------------------------------------------------------------
// The agent database.
// ---------------------------------------------------------------------------------------

/// Whether tab ids strictly increase.
pub open spec fn tab_ids_sorted(tabs: Seq<(usize, String)>) -> bool {
    forall|i: int, j: int| 0 <= i < j < tabs.len() ==> (#[trigger] tabs[i]).0 < (#[trigger] tabs[j]).0
}

/// The lease time of a report: its `updated_at` milliseconds, in nanoseconds.
pub open spec fn reported_at(r: AgentReport) -> u128 {
    (r.updated_at as u128 * 1_000_000) as u128
}

/// Whether applying `r` changes anything the plugin draws.
pub open spec fn changes_render(agents: Seq<(Seq<char>, AgentReport)>, r: AgentReport) -> bool {
    match r.state {
        AgentState::Shutdown => find(agents, cache_key(r)) is Some,
        _ => match find(agents, cache_key(r)) {
            None => true,
            Some(cur) => !same_render_fields(cur, r),
        },
    }
}

/// The agents after applying `r`: `shutdown` deletes the agent, other states store it.
pub open spec fn agents_after(agents: Seq<(Seq<char>, AgentReport)>, r: AgentReport) -> Seq<
    (Seq<char>, AgentReport),
> {
    if r.state == AgentState::Shutdown {
        remove_entry(agents, cache_key(r))
    } else {
        insert_entry(agents, cache_key(r), r)
    }
}

/// The lease clock after a report: it never moves back.
pub open spec fn clock_after(clock: u128, r: AgentReport) -> u128 {
    if reported_at(r) > clock {
        reported_at(r)
    } else {
        clock
    }
}

/// The agent leases after a report: renewed at the new clock, or dropped on shutdown.
pub open spec fn leases_after(leases: Seq<(Seq<char>, u128)>, clock: u128, r: AgentReport) -> Seq<
    (Seq<char>, u128),
> {
    if r.state == AgentState::Shutdown {
        remove_entry(leases, cache_key(r))
    } else {
        insert_entry(leases, cache_key(r), clock_after(clock, r))
    }
}

/// `"pipe #N"` followed by `tail`.
pub open spec fn pipe_event(n: u64, tail: Seq<char>) -> Seq<char> {
    "pipe #"@ + decimal(n as nat) + tail
}

/// No two queued polls are of the same session generation, and none is of the generation
/// being polled.
pub open spec fn polls_distinct(queued: Seq<(Seq<char>, Seq<char>)>, active: Option<ActivePoll>) -> bool {
    &&& forall|i: int, j: int| 0 <= i < j < queued.len() ==> (#[trigger] queued[i]).1 != (#[trigger] queued[j]).1
    &&& forall|i: int| 0 <= i < queued.len() ==> match active {
        Some(p) => (#[trigger] queued[i]).1 != p.target.generation_id@,
        None => true,
    }
}

/// Each session is recorded under its generation id.
pub open spec fn keyed_by_generation(sessions: Seq<(Seq<char>, ZellijSession)>) -> bool {
    forall|i: int| 0 <= i < sessions.len() ==> (#[trigger] sessions[i]).0 == sessions[i].1.generation_id@
}

impl RuntimeState {
    /// Well-formed: the tables are well formed and the polls are of distinct generations.
    pub open spec fn wf(&self) -> bool {
        &&& self.maps_wf()
        &&& polls_distinct(target_views(self.poll_queue@), self.active_poll)
    }

    /// The tables are well formed: every map sorted by key, tab ids increasing, and each
    /// session recorded under its generation id.
    pub open spec fn maps_wf(&self) -> bool {
        &&& self.agents.wf()
        &&& self.agent_leases.wf()
        &&& self.session_summaries.wf()
        &&& self.session_summary_leases.wf()
        &&& self.zellij_sessions.wf()
        &&& tab_ids_sorted(self.tabs@)
        &&& keyed_by_generation(self.zellij_sessions@)
    }

    /// Everything but the agent database and the diagnostic log is as in `old`.
    pub open spec fn keeps_sessions(&self, old: RuntimeState) -> bool {
        &&& self.session_summaries@ == old.session_summaries@
        &&& self.session_summary_leases@ == old.session_summary_leases@
        &&& self.zellij_sessions@ == old.zellij_sessions@
        &&& self.poll_queue@ == old.poll_queue@
        &&& self.active_poll == old.active_poll
        &&& self.next_poll_at == old.next_poll_at
        &&& self.next_poll_id == old.next_poll_id
        &&& self.session_polling_enabled == old.session_polling_enabled
        &&& self.tabs@ == old.tabs@
        &&& self.focused_pane == old.focused_pane
        &&& self.active_tab == old.active_tab
        &&& self.active_tab_position == old.active_tab_position
        &&& self.zellij_session == old.zellij_session
    }

    /// The state with nothing but a bad report counted: one more pipe, the error
    /// recorded and one event logged.
    pub open spec fn rejected_report(&self, old: RuntimeState, err: Seq<char>, tail: Seq<char>) -> bool {
        &&& self.pipe_count == old.pipe_count + 1
        &&& opt_view(self.last_error) == Some(err)
        &&& texts(self.events@) == pushed_event(texts(old.events@), pipe_event(self.pipe_count, tail))
        &&& self.agents@ == old.agents@
        &&& self.agent_leases@ == old.agent_leases@
        &&& self.lease_clock == old.lease_clock
        &&& self.keeps_sessions(old)
    }

    /// The state after a decoded report `r` of `bytes` bytes, `changed` telling whether
    /// the plugin must redraw.
    pub open spec fn applied_report(&self, old: RuntimeState, r: AgentReport, bytes: usize, changed: bool) -> bool {
        &&& changed == changes_render(old.agents@, r)
        &&& self.agents@ == agents_after(old.agents@, r)
        &&& self.agent_leases@ == leases_after(old.agent_leases@, old.lease_clock, r)
        &&& self.lease_clock == clock_after(old.lease_clock, r)
        &&& self.keeps_sessions(old)
        &&& if changed {
            &&& self.pipe_count == old.pipe_count + 1
            &&& self.last_error is None
            &&& texts(self.events@) == pushed_event(
                pushed_event(texts(old.events@), pipe_event(self.pipe_count, " bytes="@ + decimal(bytes as nat))),
                state_text(r.state) + " "@ + basename_of(r.cwd@),
            )
        } else {
            &&& self.pipe_count == old.pipe_count
            &&& self.last_error == old.last_error
            &&& self.events@ == old.events@
        }
    }

    /// An empty runtime: no agents, no sessions, no tabs, an empty log.
    /// The runtime before any event: it knows no agent, session, tab or poll, its clock and
    /// counters are zero, and polling is off.
    pub open spec fn fresh(&self) -> bool {
        &&& self.agents@.len() == 0
        &&& self.agent_leases@.len() == 0
        &&& self.session_summaries@.len() == 0
        &&& self.session_summary_leases@.len() == 0
        &&& self.zellij_sessions@.len() == 0
        &&& self.lease_clock == 0
        &&& self.poll_queue@.len() == 0
        &&& self.active_poll is None
        &&& self.next_poll_at is None
        &&& self.next_poll_id == 0
        &&& !self.session_polling_enabled
        &&& self.tabs@.len() == 0
        &&& self.events@.len() == 0
        &&& self.pipe_count == 0
        &&& self.last_error is None
        &&& self.focused_pane is None
        &&& self.active_tab is None
        &&& self.active_tab_position is None
        &&& self.zellij_session is None
    }

    pub fn new() -> (r: Self)
        ensures
            r.wf(),
            r.fresh(),
    {
        RuntimeState {
            agents: TextMap::new(),
            agent_leases: TextMap::new(),
            session_summaries: TextMap::new(),
            session_summary_leases: TextMap::new(),
            lease_clock: 0,
            zellij_sessions: TextMap::new(),
            poll_queue: VecDeque::new(),
            active_poll: None,
            next_poll_at: None,
            next_poll_id: 0,
            session_polling_enabled: false,
            tabs: Vec::new(),
            events: VecDeque::new(),
            pipe_count: 0,
            last_error: None,
            focused_pane: None,
            active_tab: None,
            active_tab_position: None,
            zellij_session: None,
        }
    }

    /// Appends a diagnostic event; the log keeps the last `MAX_EVENTS`.
    pub fn push_event(&mut self, event: String)
        ensures
            texts(final(self).events@) == pushed_event(texts(old(self).events@), event@),
            final(self).agents == old(self).agents,
            final(self).agent_leases == old(self).agent_leases,
            final(self).lease_clock == old(self).lease_clock,
            final(self).pipe_count == old(self).pipe_count,
            final(self).last_error == old(self).last_error,
            final(self).keeps_sessions(*old(self)),
            final(self).session_summaries == old(self).session_summaries,
            final(self).session_summary_leases == old(self).session_summary_leases,
            final(self).zellij_sessions == old(self).zellij_sessions,
            final(self).tabs == old(self).tabs,
    {
        let ghost before = texts(self.events@);
        if self.events.len() == MAX_EVENTS {
            self.events.pop_front();
            assert(texts(self.events@) =~= before.drop_first());
        }
        self.events.push_back(event);
        assert(texts(self.events@) =~= pushed_event(before, event@));
    }

    /// Records plugin startup in the event log.
    pub fn load(&mut self)
        ensures
            texts(final(self).events@) == pushed_event(texts(old(self).events@), "plugin loaded"@),
            final(self).agents == old(self).agents,
            final(self).pipe_count == old(self).pipe_count,
            final(self).last_error == old(self).last_error,
            final(self).keeps_sessions(*old(self)),
    {
        self.push_event("plugin loaded".to_owned());
    }

    /// Handles one message on a Zellij pipe.
    ///
    /// Returns `false` when the pipe is not the agent pipe or carries no payload (the end
    /// of a stream). A payload that does not parse, has another version or does not decode
    /// is consumed and recorded as an error; a decoded report renews the agent's lease and
    /// returns whether the drawn state changed.
    pub fn handle_pipe(&mut self, name: &str, payload: Option<String>) -> (changed: bool)
        requires
            old(self).wf(),
            name@ == AGENT_PIPE_NAME@ && payload is Some ==> old(self).pipe_count < u64::MAX,
        ensures
            final(self).wf(),
            name@ != AGENT_PIPE_NAME@ || payload is None ==> !changed && *final(self) == *old(self),
            name@ == AGENT_PIPE_NAME@ && payload is Some ==> final(self).handled_document(
                *old(self),
                json_document(payload->0@),
                vstd::utf8::encode_utf8(payload->0@).len() as usize,
                changed,
            ),
    {
        if !same_text(name, AGENT_PIPE_NAME) {
            return false;
        }
        let payload = match payload {
            Some(p) => p,
            None => {
                return false;
            },
        };
        let bytes = payload.as_str().len();
        let doc = parse_json(payload.as_str());
        self.handle_document(doc, bytes)
    }

    /// What handling a parsed payload of `bytes` bytes does.
    pub open spec fn handled_document(
        &self,
        old: RuntimeState,
        doc: Option<JsonDoc>,
        bytes: usize,
        changed: bool,
    ) -> bool {
        match doc {
            None => changed && self.rejected_report(old, "invalid json"@, " invalid json"@),
            Some(d) => if report_version(d) != Some(2u64) {
                let v = match report_version(d) {
                    Some(n) => decimal(n as nat),
                    None => "missing"@,
                };
                &&& changed
                &&& self.rejected_report(
                    old,
                    "unsupported agent report version "@ + v,
                    " rejected version "@ + v,
                )
            } else if !report_decodes(d) {
                changed && self.rejected_report(old, "invalid agent report"@, " invalid agent report"@)
            } else {
                exists|r: AgentReport| #[trigger]
                    report_decoded_as(d, r) && self.applied_report(old, r, bytes, changed)
            },
        }
    }

    fn reject_report(&mut self, err: &str, tail: &str)
        requires
            old(self).pipe_count < u64::MAX,
        ensures
            final(self).rejected_report(*old(self), err@, tail@),
            final(self).agents == old(self).agents,
            final(self).agent_leases == old(self).agent_leases,
            final(self).session_summaries == old(self).session_summaries,
            final(self).session_summary_leases == old(self).session_summary_leases,
            final(self).zellij_sessions == old(self).zellij_sessions,
            final(self).tabs == old(self).tabs,
    {
        self.pipe_count = self.pipe_count + 1;
        self.last_error = Some(err.to_owned());
        let e = pipe_event_text(self.pipe_count, tail);
        self.push_event(e);
    }

    /// Handles a parsed Agent Report payload of `bytes` bytes.
    pub fn handle_document(&mut self, doc: Option<JsonDoc>, bytes: usize) -> (changed: bool)
        requires
            old(self).wf(),
            old(self).pipe_count < u64::MAX,
        ensures
            final(self).wf(),
            final(self).handled_document(*old(self), doc, bytes, changed),
    {
        let d = match doc {
            None => {
                self.reject_report("invalid json", " invalid json");
                return true;
            },
            Some(d) => d,
        };
        let version = match &d {
            JsonDoc::Object(o) => match get_member(o, "version") {
                Some(JsonScalar::Number(Some(n))) => Some(*n),
                _ => None,
            },
            _ => None,
        };
        if version != Some(2u64) {
            let mut v: Vec<char> = Vec::new();
            match version {
                Some(n) => push_decimal(&mut v, n as u128),
                None => push_text(&mut v, "missing"),
            }
            let vt = string_of(&v);
            let mut err: Vec<char> = Vec::new();
            push_text(&mut err, "unsupported agent report version ");
            push_chars(&mut err, &v);
            let mut tail: Vec<char> = Vec::new();
            push_text(&mut tail, " rejected version ");
            push_chars(&mut tail, &v);
            let err_s = string_of(&err);
            let tail_s = string_of(&tail);
            self.reject_report(err_s.as_str(), tail_s.as_str());
            proof {
                let vs = match report_version(d) {
                    Some(n) => decimal(n as nat),
                    None => "missing"@,
                };
                assert(vt@ =~= vs);
                assert(err_s@ =~= "unsupported agent report version "@ + vs);
                assert(tail_s@ =~= " rejected version "@ + vs);
            }
            return true;
        }
        let report = match decode_agent_report(&d) {
            Some(r) => r,
            None => {
                self.reject_report("invalid agent report", " invalid agent report");
                return true;
            },
        };
        let ghost r = report;
        let changed = self.accept_report(report, bytes);
        assert(report_decoded_as(d, r));
        changed
    }

    /// Applies a decoded Agent Report of `bytes` bytes: renews its lease, stores or deletes
    /// the agent, and logs the report when it changes what is drawn.
    pub fn accept_report(&mut self, report: AgentReport, bytes: usize) -> (changed: bool)
        requires
            old(self).wf(),
            old(self).pipe_count < u64::MAX,
        ensures
            final(self).wf(),
            final(self).applied_report(*old(self), report, bytes, changed),
    {
        let key = report.cache_key();
        let reported = (report.updated_at as u128) * 1_000_000;
        self.advance_lease_clock_to(reported);
        if report.state == AgentState::Shutdown {
            proof {
                lemma_remove_sorted(self.agent_leases@, key@);
            }
            self.agent_leases.remove(key.as_str());
        } else {
            let now = self.lease_clock;
            self.agent_leases.insert(key.clone(), now);
        }
        proof {
            if report.state == AgentState::Shutdown {
                lemma_remove_absent(self.agent_leases@, key@);
            }
        }
        let changed = self.agent_update_changes_render(&report);
        if !changed {
            self.apply_agent_update(report);
            return false;
        }
        self.pipe_count = self.pipe_count + 1;
        let mut tail: Vec<char> = Vec::new();
        push_text(&mut tail, " bytes=");
        push_decimal(&mut tail, bytes as u128);
        let tail_s = string_of(&tail);
        let e1 = pipe_event_text(self.pipe_count, tail_s.as_str());
        self.push_event(e1);
        let mut e2: Vec<char> = Vec::new();
        push_text(&mut e2, state_label(report.state));
        e2.push(' ');
        let base = basename(report.cwd.as_str());
        push_text(&mut e2, base.as_str());
        let e2s = string_of(&e2);
        proof {
            reveal_strlit(" ");
        }
        assert(e2s@ =~= state_text(report.state) + " "@ + basename_of(report.cwd@));
        self.push_event(e2s);
        self.last_error = None;
        self.apply_agent_update(report);
        true
    }

    /// Whether a decoded report changes anything the plugin draws.
    pub fn agent_update_changes_render(&self, report: &AgentReport) -> (r: bool)
        requires
            self.wf(),
        ensures
            r == changes_render(self.agents@, *report),
    {
        let key = report.cache_key();
        match report.state {
            AgentState::Shutdown => self.agents.contains_key(key.as_str()),
            _ => match self.agents.get(key.as_str()) {
                None => true,
                Some(current) => !current.same_render_fields(report),
            },
        }
    }

    /// Stores the latest report for an agent; `shutdown` deletes it and its lease.
    pub fn apply_agent_update(&mut self, report: AgentReport)
        requires
            old(self).wf(),
        ensures
            final(self).wf(),
            final(self).agents@ == agents_after(old(self).agents@, report),
            final(self).agent_leases@ == if report.state == AgentState::Shutdown {
                remove_entry(old(self).agent_leases@, cache_key(report))
            } else {
                old(self).agent_leases@
            },
            final(self).lease_clock == old(self).lease_clock,
            final(self).events == old(self).events,
            final(self).pipe_count == old(self).pipe_count,
            final(self).last_error == old(self).last_error,
            final(self).keeps_sessions(*old(self)),
            final(self).session_summaries == old(self).session_summaries,
            final(self).session_summary_leases == old(self).session_summary_leases,
            final(self).zellij_sessions == old(self).zellij_sessions,
            final(self).tabs == old(self).tabs,
    {
        let key = report.cache_key();
        if report.state == AgentState::Shutdown {
            self.agents.remove(key.as_str());
            self.agent_leases.remove(key.as_str());
        } else {
            self.agents.insert(key, report);
        }
    }

    /// Moves the lease clock forward to `now`; it never moves back.
    pub fn advance_lease_clock_to(&mut self, now: u128)
        requires
            old(self).wf(),
        ensures
            final(self).wf(),
            clock_advanced(*old(self), *final(self), now),
    {
        if now > self.lease_clock {
            self.lease_clock = now;
        }
    }

    /// The lease clock.
    pub fn lease_time(&self) -> (r: u128)
        ensures
            r == self.lease_clock,
    {
        self.lease_clock
    }
}

/// `"pipe #N"` followed by `tail`, as text.
fn pipe_event_text(n: u64, tail: &str) -> (r: String)
    ensures
        r@ == pipe_event(n, tail@),
{
    let mut v: Vec<char> = Vec::new();
    push_text(&mut v, "pipe #");
    push_decimal(&mut v, n as u128);
    push_text(&mut v, tail);
    assert(v@ =~= pipe_event(n, tail@));
    string_of(&v)
}

impl Default for RuntimeState {
    fn default() -> (r: Self)
        ensures
            r.wf(),
            r.agents@.len() == 0,
            r.events@.len() == 0,
            r.pipe_count == 0,
            r.lease_clock == 0,
    {
        RuntimeState::new()
    }
}

// ---------------------------------------------------------------------------------------
// Pane closure and lease expiry.
// ---------------------------------------------------------------------------------------

/// `a - b`, or zero when `b > a`.
pub open spec fn sat_sub(a: u128, b: u128) -> u128 {
    if a > b {
        (a - b) as u128
    } else {
        0
    }
}

/// Whether an agent stays when `pane` closes: it reports no pane, or another one.
pub open spec fn keeps_agent(r: AgentReport, pane: PaneId) -> bool {
    match r.pane_id {
        None => true,
        Some(p) => !pane_matches(p@, pane),
    }
}

/// The flags that keep the agents that stay when `pane` closes.
pub open spec fn agents_kept_for_pane(agents: Seq<(Seq<char>, AgentReport)>, pane: PaneId) -> Seq<bool> {
    agents.map_values(|e: (Seq<char>, AgentReport)| keeps_agent(e.1, pane))
}

/// The flags that keep the leases whose key names an agent.
pub open spec fn leases_of<V, W>(leases: Seq<(Seq<char>, W)>, agents: Seq<(Seq<char>, V)>) -> Seq<bool> {
    leases.map_values(|e: (Seq<char>, W)| find(agents, e.0) is Some)
}

/// Whether agent `key` has a lease that is `lease` or more nanoseconds old at `clock`.
pub open spec fn lease_expired(leases: Seq<(Seq<char>, u128)>, clock: u128, key: Seq<char>) -> bool {
    match find(leases, key) {
        Some(seen) => sat_sub(clock, seen) >= AGENT_LEASE,
        None => false,
    }
}

/// The flags that keep the agents whose lease has not expired.
pub open spec fn agents_alive(agents: Seq<(Seq<char>, AgentReport)>, leases: Seq<(Seq<char>, u128)>, clock: u128) -> Seq<bool> {
    agents.map_values(|e: (Seq<char>, AgentReport)| !lease_expired(leases, clock, e.0))
}

/// The flags that keep the leases not dropped with an expired agent.
pub open spec fn leases_alive(leases: Seq<(Seq<char>, u128)>, agents: Seq<(Seq<char>, AgentReport)>, clock: u128) -> Seq<bool> {
    leases.map_values(
        |e: (Seq<char>, u128)| !(find(agents, e.0) is Some && sat_sub(clock, e.1) >= AGENT_LEASE),
    )
}

/// The time left on the lease of each agent key that has one, the smallest of them.
pub open spec fn min_lease_left(keys: Seq<Seq<char>>, leases: Seq<(Seq<char>, u128)>, clock: u128, lease: u128) -> Option<u128>
    decreases keys.len(),
{
    if keys.len() == 0 {
        None
    } else {
        let rest = min_lease_left(keys.drop_last(), leases, clock, lease);
        match find(leases, keys.last()) {
            None => rest,
            Some(seen) => {
                let d = sat_sub(lease, sat_sub(clock, seen));
                match rest {
                    None => Some(d),
                    Some(m) => Some(if d < m { d } else { m }),
                }
            },
        }
    }
}

/// The least time left is no more than the time left on each lease held by a key, is the
/// time left on one of them, and is there exactly when some key holds a lease.
pub proof fn lemma_min_lease_left(keys: Seq<Seq<char>>, leases: Seq<(Seq<char>, u128)>, clock: u128, lease: u128)
    ensures
        forall|j: int| 0 <= j < keys.len() ==> match find(leases, #[trigger] keys[j]) {
            Some(seen) => min_lease_left(keys, leases, clock, lease) matches Some(d) && d <= sat_sub(
                lease,
                sat_sub(clock, seen),
            ),
            None => true,
        },
        min_lease_left(keys, leases, clock, lease) matches Some(d) ==> exists|j: int|
            0 <= j < keys.len() && (find(leases, #[trigger] keys[j]) matches Some(seen) && d == sat_sub(
                lease,
                sat_sub(clock, seen),
            )),
        min_lease_left(keys, leases, clock, lease) is None ==> forall|j: int|
            0 <= j < keys.len() ==> find(leases, #[trigger] keys[j]) is None,
    decreases keys.len(),
{
    if keys.len() > 0 {
        let init = keys.drop_last();
        lemma_min_lease_left(init, leases, clock, lease);
        assert forall|j: int| 0 <= j < keys.len() - 1 implies #[trigger] keys[j] == init[j] by {}
        let last = keys.len() - 1;
        assert(keys[last] == keys.last());
        if let Some(d) = min_lease_left(keys, leases, clock, lease) {
            if let Some(m) = min_lease_left(init, leases, clock, lease) {
                let j0 = choose|j: int| 0 <= j < init.len() && (find(leases, #[trigger] init[j]) matches Some(seen)
                    && m == sat_sub(lease, sat_sub(clock, seen)));
                assert(keys[j0] == init[j0]);
            }
        }
    }
}

impl RuntimeState {
    /// Removes the agents owned by a pane that Zellij says has closed, and their leases.
    ///
    /// Harnesses report terminal panes as `N` or `terminal_N` and plugin panes as
    /// `plugin_N`; agents without a pane stay. Returns how many agents left.
    pub fn remove_agents_for_pane(&mut self, pane: PaneId) -> (removed: usize)
        requires
            old(self).wf(),
        ensures
            final(self).wf(),
            removed_for_pane(*old(self), *final(self), pane, removed),
    {
        let n = self.agents.len();
        let mut keep: Vec<bool> = Vec::new();
        let mut i: usize = 0;
        while i < n
            invariant
                i <= n,
                n == self.agents@.len(),
                keep@ == agents_kept_for_pane(self.agents@, pane).take(i as int),
            decreases n - i,
        {
            let a = self.agents.value_at(i);
            let k = match &a.pane_id {
                None => true,
                Some(p) => !pane_id_matches(p.as_str(), pane),
            };
            keep.push(k);
            assert(keep@ =~= agents_kept_for_pane(self.agents@, pane).take(i + 1));
            i = i + 1;
        }
        assert(keep@ =~= agents_kept_for_pane(self.agents@, pane));
        proof {
            lemma_keep_flagged_len(self.agents@, keep@);
        }
        self.agents.retain_flagged(&keep);
        let m = self.agent_leases.len();
        let mut keep2: Vec<bool> = Vec::new();
        let mut j: usize = 0;
        while j < m
            invariant
                j <= m,
                m == self.agent_leases@.len(),
                self.agents.wf(),
                keep2@ == leases_of(self.agent_leases@, self.agents@).take(j as int),
            decreases m - j,
        {
            let present = self.agents.contains_key(self.agent_leases.key_at(j).as_str());
            keep2.push(present);
            assert(keep2@ =~= leases_of(self.agent_leases@, self.agents@).take(j + 1));
            j = j + 1;
        }
        assert(keep2@ =~= leases_of(self.agent_leases@, self.agents@));
        self.agent_leases.retain_flagged(&keep2);
        let removed = n - self.agents.len();
        if removed > 0 {
            let mut e: Vec<char> = Vec::new();
            push_text(&mut e, "pane ");
            let p = pane_id_text(pane);
            push_chars(&mut e, &p);
            push_text(&mut e, " closed; removed ");
            push_decimal(&mut e, removed as u128);
            let es = string_of(&e);
            assert(es@ =~= "pane "@ + pane_text(pane) + " closed; removed "@ + decimal(removed as nat));
            self.push_event(es);
        }
        removed
    }

    /// The time until the first agent lease runs out, if any agent holds one.
    pub fn next_agent_expiry(&self) -> (r: Option<u128>)
        requires
            self.wf(),
        ensures
            r == min_lease_left(keys_of_agents(self.agents@), self.agent_leases@, self.lease_clock, AGENT_LEASE),
            forall|i: int| 0 <= i < self.agents@.len() ==> match find(self.agent_leases@, #[trigger] self.agents@[i].0) {
                Some(seen) => r matches Some(d) && d <= sat_sub(AGENT_LEASE, sat_sub(self.lease_clock, seen)),
                None => true,
            },
            r matches Some(d) ==> exists|i: int|
                0 <= i < self.agents@.len() && (find(self.agent_leases@, #[trigger] self.agents@[i].0) matches Some(seen)
                    && d == sat_sub(AGENT_LEASE, sat_sub(self.lease_clock, seen))),
            r is None ==> forall|i: int|
                0 <= i < self.agents@.len() ==> find(self.agent_leases@, #[trigger] self.agents@[i].0) is None,
    {
        let n = self.agents.len();
        let mut best: Option<u128> = None;
        let mut i: usize = 0;
        while i < n
            invariant
                i <= n,
                n == self.agents@.len(),
                self.agent_leases.wf(),
                best == min_lease_left(keys_of_agents(self.agents@).take(i as int), self.agent_leases@, self.lease_clock, AGENT_LEASE),
            decreases n - i,
        {
            let ghost ks = keys_of_agents(self.agents@).take(i + 1);
            assert(ks.drop_last() =~= keys_of_agents(self.agents@).take(i as int));
            assert(ks.last() == self.agents@[i as int].0);
            match self.agent_leases.get(self.agents.key_at(i).as_str()) {
                None => {},
                Some(seen) => {
                    let age = self.lease_clock.saturating_sub(*seen);
                    let d = AGENT_LEASE.saturating_sub(age);
                    best = match best {
                        None => Some(d),
                        Some(m) => Some(if d < m { d } else { m }),
                    };
                },
            }
            i = i + 1;
        }
        assert(keys_of_agents(self.agents@).take(n as int) =~= keys_of_agents(self.agents@));
        proof {
            let ks = keys_of_agents(self.agents@);
            let leases = self.agent_leases@;
            let clock = self.lease_clock;
            lemma_min_lease_left(ks, leases, clock, AGENT_LEASE);
            assert forall|i: int| 0 <= i < self.agents@.len() implies match find(leases, #[trigger] self.agents@[i].0) {
                Some(seen) => best matches Some(d) && d <= sat_sub(AGENT_LEASE, sat_sub(clock, seen)),
                None => true,
            } by {
                assert(ks[i] == self.agents@[i].0);
            }
            if let Some(d) = best {
                let j = choose|j: int| 0 <= j < ks.len() && (find(leases, #[trigger] ks[j]) matches Some(seen)
                    && d == sat_sub(AGENT_LEASE, sat_sub(clock, seen)));
                assert(ks[j] == self.agents@[j].0);
            } else {
                assert forall|i: int| 0 <= i < self.agents@.len() implies find(leases, #[trigger] self.agents@[i].0) is None by {
                    assert(ks[i] == self.agents@[i].0);
                }
            }
        }
        best
    }

    /// Removes the agents whose lease is `AGENT_LEASE` or more old, with their leases, and
    /// returns how many left.
    pub fn expire_silent_agents(&mut self) -> (expired: usize)
        requires
            old(self).wf(),
        ensures
            final(self).wf(),
            expired_silent(*old(self), *final(self), expired),
    {
        let clock = self.lease_clock;
        let n = self.agents.len();
        let mut keep: Vec<bool> = Vec::new();
        let mut i: usize = 0;
        while i < n
            invariant
                i <= n,
                n == self.agents@.len(),
                self.agent_leases.wf(),
                clock == self.lease_clock,
                keep@ == agents_alive(self.agents@, self.agent_leases@, clock).take(i as int),
            decreases n - i,
        {
            let stale = match self.agent_leases.get(self.agents.key_at(i).as_str()) {
                Some(seen) => clock.saturating_sub(*seen) >= AGENT_LEASE,
                None => false,
            };
            keep.push(!stale);
            assert(keep@ =~= agents_alive(self.agents@, self.agent_leases@, clock).take(i + 1));
            i = i + 1;
        }
        assert(keep@ =~= agents_alive(self.agents@, self.agent_leases@, clock));
        let m = self.agent_leases.len();
        let mut keep2: Vec<bool> = Vec::new();
        let mut j: usize = 0;
        while j < m
            invariant
                j <= m,
                m == self.agent_leases@.len(),
                self.agents.wf(),
                clock == self.lease_clock,
                keep2@ == leases_alive(self.agent_leases@, self.agents@, clock).take(j as int),
            decreases m - j,
        {
            let present = self.agents.contains_key(self.agent_leases.key_at(j).as_str());
            let seen = *self.agent_leases.value_at(j);
            keep2.push(!(present && clock.saturating_sub(seen) >= AGENT_LEASE));
            assert(keep2@ =~= leases_alive(self.agent_leases@, self.agents@, clock).take(j + 1));
            j = j + 1;
        }
        assert(keep2@ =~= leases_alive(self.agent_leases@, self.agents@, clock));
        proof {
            lemma_keep_flagged_len(self.agents@, keep@);
        }
        self.agents.retain_flagged(&keep);
        self.agent_leases.retain_flagged(&keep2);
        let expired = n - self.agents.len();
        if expired > 0 {
            let mut e: Vec<char> = Vec::new();
            push_text(&mut e, "expired ");
            push_decimal(&mut e, expired as u128);
            push_text(&mut e, " silent agent(s)");
            let es = string_of(&e);
            assert(es@ =~= "expired "@ + decimal(expired as nat) + " silent agent(s)"@);
            self.push_event(es);
        }
        expired
    }
}

/// The keys of the agent map, in order.
pub open spec fn keys_of_agents<V>(agents: Seq<(Seq<char>, V)>) -> Seq<Seq<char>> {
    agents.map_values(|e: (Seq<char>, V)| e.0)
}

/// What closing `pane` does: its agents and their leases leave, logged when there were any.
pub open spec fn removed_for_pane(old: RuntimeState, new: RuntimeState, pane: PaneId, removed: usize) -> bool {
    &&& new.agents@ == keep_flagged(old.agents@, agents_kept_for_pane(old.agents@, pane))
    &&& new.agent_leases@ == keep_flagged(
        old.agent_leases@,
        leases_of(old.agent_leases@, new.agents@),
    )
    &&& removed == old.agents@.len() - new.agents@.len()
    &&& removed > 0 ==> texts(new.events@) == pushed_event(
        texts(old.events@),
        "pane "@ + pane_text(pane) + " closed; removed "@ + decimal(removed as nat),
    )
    &&& removed == 0 ==> new.events@ == old.events@
    &&& new.lease_clock == old.lease_clock
    &&& new.pipe_count == old.pipe_count
    &&& new.last_error == old.last_error
    &&& new.keeps_sessions(old)
}

/// What lease expiry does: agents whose lease ran out leave with their leases, logged.
pub open spec fn expired_silent(old: RuntimeState, new: RuntimeState, expired: usize) -> bool {
    &&& new.agents@ == keep_flagged(
        old.agents@,
        agents_alive(old.agents@, old.agent_leases@, old.lease_clock),
    )
    &&& new.agent_leases@ == keep_flagged(
        old.agent_leases@,
        leases_alive(old.agent_leases@, old.agents@, old.lease_clock),
    )
    &&& expired == old.agents@.len() - new.agents@.len()
    &&& expired > 0 ==> texts(new.events@) == pushed_event(
        texts(old.events@),
        "expired "@ + decimal(expired as nat) + " silent agent(s)"@,
    )
    &&& expired == 0 ==> new.events@ == old.events@
    &&& new.lease_clock == old.lease_clock
    &&& new.pipe_count == old.pipe_count
    &&& new.last_error == old.last_error
    &&& new.keeps_sessions(old)
}

/// What moving the lease clock to `now` does: it moves forward only, nothing else changes.
pub open spec fn clock_advanced(old: RuntimeState, new: RuntimeState, now: u128) -> bool {
    &&& new.lease_clock == if now > old.lease_clock {
        now
    } else {
        old.lease_clock
    }
    &&& new.agents == old.agents
    &&& new.agent_leases == old.agent_leases
    &&& new.events == old.events
    &&& new.pipe_count == old.pipe_count
    &&& new.last_error == old.last_error
    &&& new.keeps_sessions(old)
    &&& new.session_summaries == old.session_summaries
    &&& new.session_summary_leases == old.session_summary_leases
    &&& new.zellij_sessions == old.zellij_sessions
    &&& new.tabs == old.tabs
}

} // verus!
