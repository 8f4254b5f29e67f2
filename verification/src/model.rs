//! Render-ready snapshot of runtime state.
//!
//! This is the seam between plugin state and drawing: every value is already formatted
//! for compact terminal output, and every UX decision (fallback text, path compaction,
//! session order, focus marking, event order) is made here.

use vstd::prelude::*;
use crate::config::RenderConfig;
use crate::runtime::{AgentReport, AgentState, RuntimeState, ZellijSession, opt_view, state_label, state_text,
    texts, clone_opt};
use crate::text::{basename, basename_of, chars_of, less_chars, same_text, chars_less, string_of,
    join, joined, views};
use crate::text_map::values_of;

verus! {

/// One display row for an agent.
#[derive(Clone, Debug, PartialEq, Eq)]
pub struct AgentLine {
    pub agent_id: String,
    pub session_name: String,
    pub state: &'static str,
    pub pane: String,
    pub cwd: String,
    pub model: String,
    pub title: String,
    pub zellij_session: String,
    pub harness: String,
    pub current_tool: String,
    pub focused: bool,
    pub active_tab: bool,
}

/// One native session row.
#[derive(Clone, Debug, PartialEq, Eq)]
pub struct SessionLine {
    pub id: String,
    pub generation_id: String,
    pub name: String,
    pub status: &'static str,
    pub agent_count: usize,
    pub running_agent_count: usize,
    pub connected_client_count: usize,
    pub tab_count: usize,
    pub pane_count: usize,
    pub created_at_seconds: u64,
    pub current: bool,
}

/// One tab of the current session with the agents in it.
#[derive(Clone, Debug, PartialEq, Eq)]
pub struct TabLine {
    pub tab_id: Option<usize>,
    pub tab_name: String,
    pub agents: Vec<AgentLine>,
    pub active: bool,
}

/// Render-ready snapshot of runtime state.
#[derive(Clone, Debug, PartialEq, Eq)]
pub struct RenderModel {
    pub empty_message: String,
    pub agents: Vec<AgentLine>,
    pub sessions: Vec<SessionLine>,
    pub zellij_session: String,
    pub harness: String,
    pub tabs: Vec<TabLine>,
    pub events: Vec<String>,
    pub has_error: bool,
    pub last_error: String,
}

/// The view of an optional string, or `default` when it is absent.
pub open spec fn text_or(o: Option<String>, default: Seq<char>) -> Seq<char> {
    match o {
        Some(s) => s@,
        None => default,
    }
}

/// The Unicode lower-case mapping of `s`, as `str::to_lowercase` computes it.
pub uninterp spec fn lowercase(s: Seq<char>) -> Seq<char>;

/// `str::to_lowercase`: the result is named `lowercase(s@)`.
#[verifier::external_body]
pub(crate) fn to_lowercase(s: &str) -> (r: String)
    ensures
        r@ == lowercase(s@),
{
    s.to_lowercase()
}

/// The pane an agent row shows: its pane id, or `?`.
pub open spec fn pane_of(r: AgentReport) -> Seq<char> {
    text_or(r.pane_id, "?"@)
}

/// Whether `l` is the row the model draws for report `r` in state `st`.
pub open spec fn agent_line_of(l: AgentLine, r: AgentReport, st: RuntimeState) -> bool {
    &&& l.agent_id@ == r.agent_id@
    &&& l.session_name@ == text_or(r.session_name, Seq::empty())
    &&& l.state@ == state_text(r.state)
    &&& l.pane@ == pane_of(r)
    &&& l.cwd@ == basename_of(r.cwd@)
    &&& l.model@ == text_or(r.model, "?"@)
    &&& l.title@ == text_or(r.title, basename_of(r.cwd@))
    &&& l.zellij_session@ == match st.zellij_session {
        Some(z) => z@,
        None => text_or(r.zellij_session, "?"@),
    }
    &&& l.harness@ == text_or(r.harness, "?"@)
    &&& l.current_tool@ == text_or(r.current_tool, Seq::empty())
    &&& l.focused == (opt_view(st.focused_pane) == Some(pane_of(r)))
    &&& l.active_tab == (r.tab_id == st.active_tab)
}

/// Whether an agent counts toward a native session: for another session, agents that
/// report its name; for the current session, agents that report its name, report no
/// session, or report a name no other native session has.
pub open spec fn counts_toward(a: AgentReport, z: ZellijSession, st: RuntimeState) -> bool {
    if !z.current {
        opt_view(a.zellij_session) == Some(z.name@)
    } else {
        match a.zellij_session {
            None => true,
            Some(n) => n@ == z.name@ || !exists|i: int|
                0 <= i < st.zellij_sessions@.len() && !(#[trigger] st.zellij_sessions@[i]).1.current
                    && st.zellij_sessions@[i].1.name@ == n@,
        }
    }
}

/// How many of `agents` count toward `z`.
pub open spec fn count_toward(agents: Seq<AgentReport>, z: ZellijSession, st: RuntimeState) -> nat
    decreases agents.len(),
{
    if agents.len() == 0 {
        0
    } else {
        count_toward(agents.drop_last(), z, st) + if counts_toward(agents.last(), z, st) {
            1nat
        } else {
            0nat
        }
    }
}

/// How many of `agents` count toward `z` and are running.
pub open spec fn count_running_toward(agents: Seq<AgentReport>, z: ZellijSession, st: RuntimeState) -> nat
    decreases agents.len(),
{
    if agents.len() == 0 {
        0
    } else {
        count_running_toward(agents.drop_last(), z, st) + if counts_toward(agents.last(), z, st)
            && agents.last().state == AgentState::Running {
            1nat
        } else {
            0nat
        }
    }
}

/// Whether `l` is the row the model draws for native session `z`.
pub open spec fn session_line_of(l: SessionLine, z: ZellijSession, st: RuntimeState) -> bool {
    &&& l.id@ == z.generation_id@
    &&& l.generation_id@ == z.generation_id@
    &&& l.name@ == z.name@
    &&& l.status@ == (if z.current {
        "current"@
    } else {
        "active"@
    })
    &&& l.agent_count == count_toward(values_of(st.agents@), z, st)
    &&& l.running_agent_count == count_running_toward(values_of(st.agents@), z, st)
    &&& l.connected_client_count == z.connected_client_count
    &&& l.tab_count == z.tab_count
    &&& l.pane_count == z.pane_count
    &&& l.created_at_seconds == z.created_at_seconds
    &&& l.current == z.current
}

/// The session order: the current session first, then by lower-cased name, then by name.
pub open spec fn session_before(a: SessionLine, b: SessionLine) -> bool {
    if a.current != b.current {
        a.current
    } else if lowercase(a.name@) != lowercase(b.name@) {
        chars_less(lowercase(a.name@), lowercase(b.name@))
    } else {
        chars_less(a.name@, b.name@)
    }
}

/// `x` inserted into `s` before the first element it sorts before.
pub open spec fn insert_session(x: SessionLine, s: Seq<SessionLine>) -> Seq<SessionLine>
    decreases s.len(),
{
    if s.len() == 0 {
        seq![x]
    } else if session_before(x, s[0]) {
        seq![x] + s
    } else {
        seq![s[0]] + insert_session(x, s.drop_first())
    }
}

/// `s` sorted by `session_before`, equal rows keeping their order (a stable sort).
pub open spec fn sort_sessions(s: Seq<SessionLine>) -> Seq<SessionLine>
    decreases s.len(),
{
    if s.len() == 0 {
        s
    } else {
        insert_session(s.last(), sort_sessions(s.drop_last()))
    }
}

/// The agents whose report names tab `id`, in key order.
pub open spec fn agents_in_tab(agents: Seq<AgentReport>, id: usize) -> Seq<AgentReport>
    decreases agents.len(),
{
    if agents.len() == 0 {
        agents
    } else if agents.last().tab_id == Some(id) {
        agents_in_tab(agents.drop_last(), id).push(agents.last())
    } else {
        agents_in_tab(agents.drop_last(), id)
    }
}

/// Whether `t` is the tab row the model draws for tab `(id, name)`. In the active tab a
/// lone agent is drawn focused even when Zellij reports no focus.
pub open spec fn tab_line_of(t: TabLine, id: usize, name: String, st: RuntimeState) -> bool {
    let members = agents_in_tab(values_of(st.agents@), id);
    let active = st.active_tab == Some(id);
    &&& t.tab_id == Some((id + 1) as usize)
    &&& t.tab_name@ == name@
    &&& t.active == active
    &&& t.agents@.len() == members.len()
    &&& forall|i: int|
        0 <= i < members.len() ==> {
            let l = #[trigger] t.agents@[i];
            let r = members[i];
            let base = AgentLine { focused: opt_view(st.focused_pane) == Some(pane_of(r)), ..l };
            &&& agent_line_of(base, r, st)
            &&& l.focused == (base.focused || (active && members.len() == 1))
        }
}

/// The first agent, in key order, that reports a session name.
pub open spec fn first_session_name(agents: Seq<AgentReport>) -> Option<Seq<char>>
    decreases agents.len(),
{
    if agents.len() == 0 {
        None
    } else {
        match agents[0].zellij_session {
            Some(z) => Some(z@),
            None => first_session_name(agents.drop_first()),
        }
    }
}

/// The first agent, in key order, that reports a harness.
pub open spec fn first_harness(agents: Seq<AgentReport>) -> Option<Seq<char>>
    decreases agents.len(),
{
    if agents.len() == 0 {
        None
    } else {
        match agents[0].harness {
            Some(h) => Some(h@),
            None => first_harness(agents.drop_first()),
        }
    }
}

/// Whether `m` is the model built from `st` and `config`.
pub open spec fn model_of(m: RenderModel, st: RuntimeState, config: RenderConfig) -> bool {
    let agents = values_of(st.agents@);
    &&& m.empty_message@ == config.empty_message@
    &&& m.agents@.len() == agents.len()
    &&& forall|i: int| 0 <= i < agents.len() ==> agent_line_of(#[trigger] m.agents@[i], agents[i], st)
    &&& m.zellij_session@ == match st.zellij_session {
        Some(z) => z@,
        None => match first_session_name(agents) {
            Some(z) => z,
            None => "?"@,
        },
    }
    &&& m.harness@ == match first_harness(agents) {
        Some(h) => h,
        None => "?"@,
    }
    &&& exists|lines: Seq<SessionLine>| #[trigger] sort_sessions(lines) == m.sessions@ && lines.len() == st.zellij_sessions@.len()
        && forall|i: int| 0 <= i < lines.len() ==> session_line_of(#[trigger] lines[i], st.zellij_sessions@[i].1, st)
    &&& m.tabs@.len() == st.tabs@.len()
    &&& forall|i: int| 0 <= i < st.tabs@.len() ==> tab_line_of(#[trigger] m.tabs@[i], st.tabs@[i].0, st.tabs@[i].1, st)
    &&& texts(m.events@) == texts(st.events@).reverse()
    &&& m.has_error == (st.last_error is Some)
    &&& m.last_error@ == text_or(st.last_error, Seq::empty())
}

/// Builds the row for one agent.
pub fn agent_line(r: &AgentReport, st: &RuntimeState) -> (l: AgentLine)
    ensures
        agent_line_of(l, *r, *st),
{
    let pane = match &r.pane_id {
        Some(p) => p.clone(),
        None => "?".to_owned(),
    };
    let focused = match &st.focused_pane {
        Some(f) => same_text(f.as_str(), pane.as_str()),
        None => false,
    };
    let cwd = basename(r.cwd.as_str());
    let title = match &r.title {
        Some(t) => t.clone(),
        None => basename(r.cwd.as_str()),
    };
    AgentLine {
        agent_id: r.agent_id.clone(),
        session_name: match &r.session_name {
            Some(s) => s.clone(),
            None => String::new(),
        },
        state: state_label(r.state),
        focused,
        active_tab: r.tab_id == st.active_tab,
        pane,
        cwd,
        model: match &r.model {
            Some(m) => m.clone(),
            None => "?".to_owned(),
        },
        zellij_session: match &st.zellij_session {
            Some(z) => z.clone(),
            None => match &r.zellij_session {
                Some(z) => z.clone(),
                None => "?".to_owned(),
            },
        },
        harness: match &r.harness {
            Some(h) => h.clone(),
            None => "?".to_owned(),
        },
        title,
        current_tool: match &r.current_tool {
            Some(t) => t.clone(),
            None => String::new(),
        },
    }
}

/// Whether some native session other than the current one is called `name`.
pub open spec fn other_session_named(st: RuntimeState, name: Seq<char>) -> bool {
    exists|i: int|
        0 <= i < st.zellij_sessions@.len() && !(#[trigger] st.zellij_sessions@[i]).1.current
            && st.zellij_sessions@[i].1.name@ == name
}

fn has_other_session_named(st: &RuntimeState, name: &str) -> (r: bool)
    ensures
        r == other_session_named(*st, name@),
{
    let n = st.zellij_sessions.len();
    let mut i: usize = 0;
    while i < n
        invariant
            i <= n,
            n == st.zellij_sessions@.len(),
            forall|j: int|
                0 <= j < i ==> !(!(#[trigger] st.zellij_sessions@[j]).1.current
                    && st.zellij_sessions@[j].1.name@ == name@),
        decreases n - i,
    {
        let z = st.zellij_sessions.value_at(i);
        if !z.current && same_text(z.name.as_str(), name) {
            return true;
        }
        i = i + 1;
    }
    false
}

fn agent_counts_toward(a: &AgentReport, z: &ZellijSession, st: &RuntimeState) -> (r: bool)
    ensures
        r == counts_toward(*a, *z, *st),
{
    if !z.current {
        return match &a.zellij_session {
            Some(n) => same_text(n.as_str(), z.name.as_str()),
            None => false,
        };
    }
    match &a.zellij_session {
        None => true,
        Some(n) => same_text(n.as_str(), z.name.as_str()) || !has_other_session_named(
            st,
            n.as_str(),
        ),
    }
}

/// Counts the known agents that belong to a native session.
pub fn agent_count_for_session(z: &ZellijSession, st: &RuntimeState) -> (r: usize)
    ensures
        r == count_toward(values_of(st.agents@), *z, *st),
{
    let n = st.agents.len();
    let mut count: usize = 0;
    let mut i: usize = 0;
    while i < n
        invariant
            i <= n,
            n == st.agents@.len(),
            count == count_toward(values_of(st.agents@).take(i as int), *z, *st),
            count <= i,
        decreases n - i,
    {
        let ghost t = values_of(st.agents@).take(i + 1);
        assert(t.drop_last() =~= values_of(st.agents@).take(i as int));
        assert(t.last() == st.agents@[i as int].1);
        if agent_counts_toward(st.agents.value_at(i), z, st) {
            count = count + 1;
        }
        i = i + 1;
    }
    assert(values_of(st.agents@).take(n as int) =~= values_of(st.agents@));
    count
}

/// Counts the known running agents that belong to a native session.
pub fn running_agent_count_for_session(z: &ZellijSession, st: &RuntimeState) -> (r: usize)
    ensures
        r == count_running_toward(values_of(st.agents@), *z, *st),
{
    let n = st.agents.len();
    let mut count: usize = 0;
    let mut i: usize = 0;
    while i < n
        invariant
            i <= n,
            n == st.agents@.len(),
            count == count_running_toward(values_of(st.agents@).take(i as int), *z, *st),
            count <= i,
        decreases n - i,
    {
        let ghost t = values_of(st.agents@).take(i + 1);
        assert(t.drop_last() =~= values_of(st.agents@).take(i as int));
        assert(t.last() == st.agents@[i as int].1);
        let a = st.agents.value_at(i);
        if agent_counts_toward(a, z, st) && a.state == AgentState::Running {
            count = count + 1;
        }
        i = i + 1;
    }
    assert(values_of(st.agents@).take(n as int) =~= values_of(st.agents@));
    count
}

/// Builds the row for one native session.
pub fn session_line(z: &ZellijSession, st: &RuntimeState) -> (l: SessionLine)
    ensures
        session_line_of(l, *z, *st),
{
    SessionLine {
        id: z.generation_id.clone(),
        generation_id: z.generation_id.clone(),
        name: z.name.clone(),
        status: if z.current {
            "current"
        } else {
            "active"
        },
        agent_count: agent_count_for_session(z, st),
        running_agent_count: running_agent_count_for_session(z, st),
        connected_client_count: z.connected_client_count,
        tab_count: z.tab_count,
        pane_count: z.pane_count,
        created_at_seconds: z.created_at_seconds,
        current: z.current,
    }
}

/// Whether session row `a` sorts before `b`.
pub fn session_sorts_before(a: &SessionLine, b: &SessionLine) -> (r: bool)
    ensures
        r == session_before(*a, *b),
{
    if a.current != b.current {
        return a.current;
    }
    let la = chars_of(to_lowercase(a.name.as_str()).as_str());
    let lb = chars_of(to_lowercase(b.name.as_str()).as_str());
    if !crate::text::same_chars(&la, &lb) {
        return less_chars(&la, &lb);
    }
    let na = chars_of(a.name.as_str());
    let nb = chars_of(b.name.as_str());
    less_chars(&na, &nb)
}

/// Inserting past a prefix that `x` does not sort before keeps the prefix.
proof fn lemma_insert_session_prefix(x: SessionLine, s: Seq<SessionLine>, p: int)
    requires
        0 <= p <= s.len(),
        forall|j: int| 0 <= j < p ==> !session_before(x, #[trigger] s[j]),
    ensures
        insert_session(x, s) == s.take(p) + insert_session(x, s.skip(p)),
    decreases p,
{
    if p > 0 {
        assert forall|j: int| 0 <= j < p - 1 implies !session_before(x, #[trigger] s.drop_first()[j]) by {
            assert(s.drop_first()[j] == s[j + 1]);
        }
        lemma_insert_session_prefix(x, s.drop_first(), p - 1);
        assert(s.drop_first().skip(p - 1) =~= s.skip(p));
        assert(s.take(p) =~= seq![s[0]] + s.drop_first().take(p - 1));
    } else {
        assert(s.skip(0) =~= s);
        assert(s.take(0) =~= Seq::<SessionLine>::empty());
    }
}

/// Sorts session rows: the current session first, then by lower-cased name, then by name;
/// equal rows keep their order.
pub fn sort_session_lines(lines: Vec<SessionLine>) -> (r: Vec<SessionLine>)
    ensures
        r@ == sort_sessions(lines@),
{
    let mut out: Vec<SessionLine> = Vec::new();
    let mut rest = lines;
    let ghost all = rest@;
    let n = rest.len();
    let mut i: usize = 0;
    assert(all.take(0) =~= Seq::<SessionLine>::empty());
    while i < n
        invariant
            i <= n,
            n == all.len(),
            rest@ == all.skip(i as int),
            out@ == sort_sessions(all.take(i as int)),
        decreases n - i,
    {
        let x = rest.remove(0);
        assert(x == all[i as int]);
        let mut p: usize = 0;
        while p < out.len() && !session_sorts_before(&x, &out[p])
            invariant
                p <= out@.len(),
                forall|j: int| 0 <= j < p ==> !session_before(x, #[trigger] out@[j]),
            decreases out@.len() - p,
        {
            p = p + 1;
        }
        let ghost before = out@;
        proof {
            lemma_insert_session_prefix(x, before, p as int);
            let rest2 = before.skip(p as int);
            if p < before.len() {
                assert(insert_session(x, rest2) == seq![x] + rest2);
            } else {
                assert(rest2 =~= Seq::<SessionLine>::empty());
            }
        }
        out.insert(p, x);
        proof {
            assert(out@ =~= before.take(p as int) + insert_session(x, before.skip(p as int)));
            assert(all.take(i + 1).drop_last() =~= all.take(i as int));
            assert(all.take(i + 1).last() == x);
        }
        assert(rest@ =~= all.skip(i + 1));
        i = i + 1;
    }
    assert(all.take(n as int) =~= all);
    out
}

/// Marks the lone agent of the active tab focused when Zellij reports no focus for it.
pub fn mark_single_agent_active_tabs(tabs: &mut Vec<TabLine>)
    ensures
        final(tabs)@.len() == old(tabs)@.len(),
        forall|i: int|
            0 <= i < old(tabs)@.len() ==> {
                let t = old(tabs)@[i];
                let u = #[trigger] final(tabs)@[i];
                &&& u.tab_id == t.tab_id
                &&& u.tab_name == t.tab_name
                &&& u.active == t.active
                &&& u.agents@.len() == t.agents@.len()
                &&& if t.active && t.agents@.len() == 1 {
                    u.agents@[0] == AgentLine { focused: true, ..t.agents@[0] }
                } else {
                    u.agents@ == t.agents@
                }
            },
{
    let ghost start = tabs@;
    let n = tabs.len();
    let mut i: usize = 0;
    while i < n
        invariant
            i <= n,
            n == start.len(),
            tabs@.len() == n,
            forall|j: int| i <= j < n ==> #[trigger] tabs@[j] == start[j],
            forall|j: int|
                0 <= j < i ==> {
                    let t = start[j];
                    let u = #[trigger] tabs@[j];
                    &&& u.tab_id == t.tab_id
                    &&& u.tab_name == t.tab_name
                    &&& u.active == t.active
                    &&& u.agents@.len() == t.agents@.len()
                    &&& if t.active && t.agents@.len() == 1 {
                        u.agents@[0] == AgentLine { focused: true, ..t.agents@[0] }
                    } else {
                        u.agents@ == t.agents@
                    }
                },
        decreases n - i,
    {
        let mut tab = tabs.remove(i);
        if tab.active && tab.agents.len() == 1 {
            let mut a = tab.agents.remove(0);
            a.focused = true;
            tab.agents.insert(0, a);
        }
        tabs.insert(i, tab);
        i = i + 1;
    }
}

/// The tab rows of the current session, before focus marking.
fn tab_lines(st: &RuntimeState) -> (r: Vec<TabLine>)
    requires
        forall|i: int| 0 <= i < st.tabs@.len() ==> (#[trigger] st.tabs@[i]).0 < usize::MAX,
    ensures
        r@.len() == st.tabs@.len(),
        forall|i: int|
            0 <= i < st.tabs@.len() ==> {
                let t = #[trigger] r@[i];
                let id = st.tabs@[i].0;
                let members = agents_in_tab(values_of(st.agents@), id);
                &&& t.tab_id == Some((id + 1) as usize)
                &&& t.tab_name@ == st.tabs@[i].1@
                &&& t.active == (st.active_tab == Some(id))
                &&& t.agents@.len() == members.len()
                &&& forall|k: int| 0 <= k < members.len() ==> agent_line_of(#[trigger] t.agents@[k], members[k], *st)
            },
{
    let mut out: Vec<TabLine> = Vec::new();
    let n = st.tabs.len();
    let mut i: usize = 0;
    while i < n
        invariant
            i <= n,
            n == st.tabs@.len(),
            forall|j: int| 0 <= j < st.tabs@.len() ==> (#[trigger] st.tabs@[j]).0 < usize::MAX,
            out@.len() == i,
            forall|j: int|
                0 <= j < i ==> {
                    let t = #[trigger] out@[j];
                    let id = st.tabs@[j].0;
                    let members = agents_in_tab(values_of(st.agents@), id);
                    &&& t.tab_id == Some((id + 1) as usize)
                    &&& t.tab_name@ == st.tabs@[j].1@
                    &&& t.active == (st.active_tab == Some(id))
                    &&& t.agents@.len() == members.len()
                    &&& forall|k: int| 0 <= k < members.len() ==> agent_line_of(#[trigger] t.agents@[k], members[k], *st)
                },
        decreases n - i,
    {
        let id = st.tabs[i].0;
        let mut agents: Vec<AgentLine> = Vec::new();
        let m = st.agents.len();
        let mut k: usize = 0;
        while k < m
            invariant
                k <= m,
                m == st.agents@.len(),
                agents@.len() == agents_in_tab(values_of(st.agents@).take(k as int), id).len(),
                forall|q: int|
                    0 <= q < agents@.len() ==> agent_line_of(
                        #[trigger] agents@[q],
                        agents_in_tab(values_of(st.agents@).take(k as int), id)[q],
                        *st,
                    ),
            decreases m - k,
        {
            let ghost t = values_of(st.agents@).take(k + 1);
            assert(t.drop_last() =~= values_of(st.agents@).take(k as int));
            assert(t.last() == st.agents@[k as int].1);
            let a = st.agents.value_at(k);
            if a.tab_id == Some(id) {
                let l = agent_line(a, st);
                agents.push(l);
            }
            k = k + 1;
        }
        assert(values_of(st.agents@).take(m as int) =~= values_of(st.agents@));
        out.push(
            TabLine {
                tab_id: Some(id + 1),
                tab_name: st.tabs[i].1.clone(),
                active: st.active_tab == Some(id),
                agents,
            },
        );
        i = i + 1;
    }
    out
}

/// The number of blank rows `n` drawn as lines of one space.
pub open spec fn blank_text(n: nat) -> Seq<char> {
    joined(Seq::new(n, |_i: int| seq![' ']), seq!['\n'])
}

/// `rows` lines of one space, joined by newlines.
pub fn blank_rows(rows: usize) -> (r: String)
    ensures
        r@ == blank_text(rows as nat),
{
    let mut parts: Vec<Vec<char>> = Vec::new();
    let mut i: usize = 0;
    while i < rows
        invariant
            i <= rows,
            views(parts@) == Seq::new(i as nat, |_k: int| seq![' ']),
        decreases rows - i,
    {
        let mut p: Vec<char> = Vec::new();
        p.push(' ');
        assert(p@ =~= seq![' ']);
        let ghost before = views(parts@);
        parts.push(p);
        assert(views(parts@) =~= before.push(seq![' ']));
        assert(views(parts@) =~= Seq::new((i + 1) as nat, |_k: int| seq![' ']));
        i = i + 1;
    }
    let mut sep: Vec<char> = Vec::new();
    sep.push('\n');
    let r = join(&parts, &sep);
    string_of(&r)
}

/// Rows an agent takes in the built-in layout: three, and one more while it runs.
pub open spec fn agent_rows(agents: Seq<AgentLine>) -> int
    decreases agents.len(),
{
    if agents.len() == 0 {
        0
    } else {
        agent_rows(agents.drop_last()) + 3 + if agents.last().state@ == "running"@ {
            1int
        } else {
            0int
        }
    }
}

/// Rows the tabs with agents take: a header each, and their agents.
pub open spec fn tab_rows(tabs: Seq<TabLine>) -> int
    decreases tabs.len(),
{
    if tabs.len() == 0 {
        0
    } else {
        tab_rows(tabs.drop_last()) + if tabs.last().agents@.len() == 0 {
            0int
        } else {
            1 + agent_rows(tabs.last().agents@)
        }
    }
}

/// Rows the built-in layout draws above the filler.
pub open spec fn used_rows(m: RenderModel) -> int {
    let session_rows: int = if m.sessions@.len() == 0 {
        1
    } else {
        1 + m.sessions@.len() as int
    };
    let agent_rows: int = if m.agents@.len() == 0 {
        0
    } else {
        1 + tab_rows(m.tabs@)
    };
    let event_rows: int = if m.agents@.len() == 0 {
        0
    } else {
        1 + m.events@.len() as int + if m.has_error {
            1int
        } else {
            0int
        }
    };
    4 + session_rows + agent_rows + event_rows
}

proof fn lemma_agent_rows_monotone(agents: Seq<AgentLine>, i: int)
    requires
        0 <= i <= agents.len(),
    ensures
        0 <= agent_rows(agents.take(i)) <= agent_rows(agents),
    decreases agents.len() - i,
{
    if i < agents.len() {
        lemma_agent_rows_monotone(agents, i + 1);
        assert(agents.take(i + 1).drop_last() =~= agents.take(i));
    } else {
        assert(agents.take(i) =~= agents);
    }
    lemma_agent_rows_nonneg(agents.take(i));
}

proof fn lemma_agent_rows_nonneg(agents: Seq<AgentLine>)
    ensures
        agent_rows(agents) >= 0,
    decreases agents.len(),
{
    if agents.len() > 0 {
        lemma_agent_rows_nonneg(agents.drop_last());
    }
}

proof fn lemma_tab_rows_monotone(tabs: Seq<TabLine>, i: int)
    requires
        0 <= i <= tabs.len(),
    ensures
        0 <= tab_rows(tabs.take(i)) <= tab_rows(tabs),
    decreases tabs.len() - i,
{
    if i < tabs.len() {
        lemma_tab_rows_monotone(tabs, i + 1);
        assert(tabs.take(i + 1).drop_last() =~= tabs.take(i));
        lemma_agent_rows_nonneg(tabs[i].agents@);
    } else {
        assert(tabs.take(i) =~= tabs);
    }
    lemma_tab_rows_nonneg(tabs.take(i));
}

proof fn lemma_tab_rows_nonneg(tabs: Seq<TabLine>)
    ensures
        tab_rows(tabs) >= 0,
    decreases tabs.len(),
{
    if tabs.len() > 0 {
        lemma_tab_rows_nonneg(tabs.drop_last());
        lemma_agent_rows_nonneg(tabs.last().agents@);
    }
}

impl RenderModel {
    /// Builds the render snapshot of runtime state and render configuration.
    pub fn from_runtime(st: &RuntimeState, config: &RenderConfig) -> (m: Self)
        requires
            forall|i: int| 0 <= i < st.tabs@.len() ==> (#[trigger] st.tabs@[i]).0 < usize::MAX,
        ensures
            model_of(m, *st, *config),
    {
        let n = st.agents.len();
        let mut agents: Vec<AgentLine> = Vec::new();
        let mut i: usize = 0;
        while i < n
            invariant
                i <= n,
                n == st.agents@.len(),
                agents@.len() == i,
                forall|j: int| 0 <= j < i ==> agent_line_of(#[trigger] agents@[j], values_of(st.agents@)[j], *st),
            decreases n - i,
        {
            agents.push(agent_line(st.agents.value_at(i), st));
            i = i + 1;
        }
        let zellij_session = match &st.zellij_session {
            Some(z) => z.clone(),
            None => {
                let mut found: Option<String> = None;
                let mut k: usize = 0;
                assert(values_of(st.agents@).skip(0) =~= values_of(st.agents@));
                while k < n && found.is_none()
                    invariant
                        k <= n,
                        n == st.agents@.len(),
                        match found {
                            Some(z) => first_session_name(values_of(st.agents@)) == Some(z@),
                            None => first_session_name(values_of(st.agents@)) == first_session_name(values_of(st.agents@).skip(k as int)),
                        },
                    decreases n - k + if found.is_none() { 1int } else { 0int },
                {
                    let ghost rest = values_of(st.agents@).skip(k as int);
                    assert(rest[0] == st.agents@[k as int].1);
                    assert(rest.drop_first() =~= values_of(st.agents@).skip(k + 1));
                    found = clone_opt(&st.agents.value_at(k).zellij_session);
                    k = k + 1;
                }
                proof {
                    if found.is_none() {
                        assert(values_of(st.agents@).skip(k as int) =~= Seq::<AgentReport>::empty());
                    }
                }
                match found {
                    Some(z) => z,
                    None => "?".to_owned(),
                }
            },
        };
        proof {
            assert(values_of(st.agents@).skip(0) =~= values_of(st.agents@));
        }
        let mut harness: Option<String> = None;
        let mut k: usize = 0;
        while k < n && harness.is_none()
            invariant
                k <= n,
                n == st.agents@.len(),
                match harness {
                    Some(h) => first_harness(values_of(st.agents@)) == Some(h@),
                    None => first_harness(values_of(st.agents@)) == first_harness(values_of(st.agents@).skip(k as int)),
                },
            decreases n - k + if harness.is_none() { 1int } else { 0int },
        {
            let ghost rest = values_of(st.agents@).skip(k as int);
            assert(rest[0] == st.agents@[k as int].1);
            assert(rest.drop_first() =~= values_of(st.agents@).skip(k + 1));
            harness = clone_opt(&st.agents.value_at(k).harness);
            k = k + 1;
        }
        proof {
            if harness.is_none() {
                assert(values_of(st.agents@).skip(k as int) =~= Seq::<AgentReport>::empty());
            }
        }
        let harness = match harness {
            Some(h) => h,
            None => "?".to_owned(),
        };
        let sn = st.zellij_sessions.len();
        let mut lines: Vec<SessionLine> = Vec::new();
        let mut q: usize = 0;
        while q < sn
            invariant
                q <= sn,
                sn == st.zellij_sessions@.len(),
                lines@.len() == q,
                forall|j: int| 0 <= j < q ==> session_line_of(#[trigger] lines@[j], st.zellij_sessions@[j].1, *st),
            decreases sn - q,
        {
            lines.push(session_line(st.zellij_sessions.value_at(q), st));
            q = q + 1;
        }
        let ghost unsorted = lines@;
        let sessions = sort_session_lines(lines);
        let mut tabs = tab_lines(st);
        let ghost unmarked = tabs@;
        mark_single_agent_active_tabs(&mut tabs);
        assert forall|i: int| 0 <= i < st.tabs@.len() implies tab_line_of(#[trigger] tabs@[i], st.tabs@[i].0, st.tabs@[i].1, *st) by {
            let t = unmarked[i];
            let members = agents_in_tab(values_of(st.agents@), st.tabs@[i].0);
            assert forall|k: int| 0 <= k < members.len() implies {
                let l = #[trigger] tabs@[i].agents@[k];
                let r = members[k];
                let base = AgentLine { focused: opt_view(st.focused_pane) == Some(pane_of(r)), ..l };
                &&& agent_line_of(base, r, *st)
                &&& l.focused == (base.focused || (st.active_tab == Some(st.tabs@[i].0) && members.len() == 1))
            } by {
                assert(agent_line_of(t.agents@[k], members[k], *st));
            }
        }
        let ne = st.events.len();
        let mut events: Vec<String> = Vec::new();
        let mut e: usize = 0;
        while e < ne
            invariant
                e <= ne,
                ne == st.events@.len(),
                texts(events@) == texts(st.events@).reverse().take(e as int),
            decreases ne - e,
        {
            let ghost before = texts(events@);
            let x = st.events[ne - 1 - e].clone();
            assert(x@ == texts(st.events@)[ne - 1 - e]);
            assert(texts(st.events@).reverse()[e as int] == texts(st.events@)[ne - 1 - e]);
            events.push(x);
            assert(texts(events@) =~= before.push(x@));
            assert(texts(st.events@).reverse().take(e + 1) =~= texts(st.events@).reverse().take(e as int).push(texts(st.events@).reverse()[e as int]));
            assert(texts(events@) =~= texts(st.events@).reverse().take(e + 1));
            e = e + 1;
        }
        assert(texts(st.events@).reverse().take(ne as int) =~= texts(st.events@).reverse());
        let m = RenderModel {
            empty_message: config.empty_message.clone(),
            agents,
            sessions,
            zellij_session,
            harness,
            tabs,
            events,
            has_error: st.last_error.is_some(),
            last_error: match &st.last_error {
                Some(err) => err.clone(),
                None => String::new(),
            },
        };
        assert(sort_sessions(unsorted) == m.sessions@);
        m
    }

    /// The native id of the active tab, when it fits in `u32`.
    pub fn active_tab(&self) -> (r: Option<u32>)
        ensures
            r == active_tab_of(self.tabs@),
    {
        let n = self.tabs.len();
        let mut i: usize = 0;
        assert(self.tabs@.skip(0) =~= self.tabs@);
        while i < n
            invariant
                i <= n,
                n == self.tabs@.len(),
                active_tab_of(self.tabs@) == active_tab_of(self.tabs@.skip(i as int)),
            decreases n - i,
        {
            assert(self.tabs@.skip(i as int)[0] == self.tabs@[i as int]);
            if self.tabs[i].active {
                return match self.tabs[i].tab_id {
                    Some(id) => if id <= (u32::MAX as usize) {
                        Some(id as u32)
                    } else {
                        None
                    },
                    None => None,
                };
            }
            assert(self.tabs@.skip(i as int).drop_first() =~= self.tabs@.skip(i + 1));
            i = i + 1;
        }
        None
    }

    /// The pane of the first focused agent.
    pub fn focused_pane(&self) -> (r: Option<&str>)
        ensures
            match r {
                Some(p) => focused_pane_of(self.agents@) == Some(p@),
                None => focused_pane_of(self.agents@) is None,
            },
    {
        let n = self.agents.len();
        let mut i: usize = 0;
        assert(self.agents@.skip(0) =~= self.agents@);
        while i < n
            invariant
                i <= n,
                n == self.agents@.len(),
                focused_pane_of(self.agents@) == focused_pane_of(self.agents@.skip(i as int)),
            decreases n - i,
        {
            assert(self.agents@.skip(i as int)[0] == self.agents@[i as int]);
            if self.agents[i].focused {
                return Some(self.agents[i].pane.as_str());
            }
            assert(self.agents@.skip(i as int).drop_first() =~= self.agents@.skip(i + 1));
            i = i + 1;
        }
        None
    }

    /// The rows the built-in layout draws above its filler, or `None` when that count does
    /// not fit in `usize`.
    pub fn layout_rows(&self) -> (r: Option<usize>)
        ensures
            r == (if used_rows(*self) <= usize::MAX {
                Some(used_rows(*self) as usize)
            } else {
                None::<usize>
            }),
    {
        proof {
            lemma_tab_rows_nonneg(self.tabs@);
        }
        let session_rows: usize = if self.sessions.len() == 0 {
            1
        } else {
            match self.sessions.len().checked_add(1) {
                Some(v) => v,
                None => {
                    return None;
                },
            }
        };
        let mut agents_used: usize = 0;
        if self.agents.len() > 0 {
            let mut total: usize = 0;
            let mut t: usize = 0;
            while t < self.tabs.len()
                invariant
                    t <= self.tabs@.len(),
                    total == tab_rows(self.tabs@.take(t as int)),
                    self.agents@.len() > 0,
                    session_rows == (if self.sessions@.len() == 0 { 1 } else { 1 + self.sessions@.len() }),
                decreases self.tabs@.len() - t,
            {
                proof {
                    lemma_tab_rows_monotone(self.tabs@, t + 1);
                    assert(self.tabs@.take(t + 1).drop_last() =~= self.tabs@.take(t as int));
                    lemma_tab_rows_nonneg(self.tabs@);
                }
                let tab = &self.tabs[t];
                if tab.agents.len() > 0 {
                    let ghost whole = tab_rows(self.tabs@.take(t + 1));
                    assert(whole == total + 1 + agent_rows(tab.agents@));
                    let mut sum: usize = 0;
                    let mut a: usize = 0;
                    while a < tab.agents.len()
                        invariant
                            a <= tab.agents@.len(),
                            sum == agent_rows(tab.agents@.take(a as int)),
                            whole == total + 1 + agent_rows(tab.agents@),
                            whole <= tab_rows(self.tabs@),
                            tab_rows(self.tabs@) >= 0,
                            self.agents@.len() > 0,
                            session_rows >= 1,
                            used_rows(*self) >= 6 + tab_rows(self.tabs@),
                        decreases tab.agents@.len() - a,
                    {
                        proof {
                            lemma_agent_rows_monotone(tab.agents@, a + 1);
                            assert(tab.agents@.take(a + 1).drop_last() =~= tab.agents@.take(a as int));
                        }
                        let running = same_text(tab.agents[a].state, "running");
                        let step: usize = if running { 4 } else { 3 };
                        sum = match sum.checked_add(step) {
                            Some(v) => v,
                            None => {
                                return None;
                            },
                        };
                        a = a + 1;
                    }
                    assert(tab.agents@.take(a as int) =~= tab.agents@);
                    total = match total.checked_add(1) {
                        Some(v) => match v.checked_add(sum) {
                            Some(w) => w,
                            None => {
                                return None;
                            },
                        },
                        None => {
                            return None;
                        },
                    };
                }
                t = t + 1;
            }
            assert(self.tabs@.take(t as int) =~= self.tabs@);
            agents_used = match total.checked_add(1) {
                Some(v) => v,
                None => {
                    return None;
                },
            };
        }
        let event_rows: usize = if self.agents.len() == 0 {
            0
        } else {
            match self.events.len().checked_add(1) {
                Some(v) => match v.checked_add(if self.has_error { 1 } else { 0 }) {
                    Some(w) => w,
                    None => {
                        return None;
                    },
                },
                None => {
                    return None;
                },
            }
        };
        let used = match session_rows.checked_add(4) {
            Some(v) => match v.checked_add(agents_used) {
                Some(w) => w.checked_add(event_rows),
                None => None,
            },
            None => None,
        };
        used
    }

    /// Blank filler rows that push the built-in layout's footer to the bottom of a viewport
    /// of `viewport_rows` rows.
    pub fn layout_fill(&self, viewport_rows: usize) -> (r: String)
        requires
            used_rows(*self) <= usize::MAX,
        ensures
            r@ == blank_text(
                if viewport_rows > used_rows(*self) {
                    (viewport_rows - used_rows(*self)) as nat
                } else {
                    0
                },
            ),
    {
        proof {
            lemma_tab_rows_nonneg(self.tabs@);
        }
        let used = match self.layout_rows() {
            Some(u) => u,
            None => 0,
        };
        assert(used == used_rows(*self));
        let fill = if viewport_rows > used {
            viewport_rows - used
        } else {
            0
        };
        blank_rows(fill)
    }
}

/// The native id of the first active tab, when it has one that fits in `u32`.
pub open spec fn active_tab_of(tabs: Seq<TabLine>) -> Option<u32>
    decreases tabs.len(),
{
    if tabs.len() == 0 {
        None
    } else if tabs[0].active {
        match tabs[0].tab_id {
            Some(id) => if id <= u32::MAX {
                Some(id as u32)
            } else {
                None
            },
            None => None,
        }
    } else {
        active_tab_of(tabs.drop_first())
    }
}

/// The pane of the first focused agent row.
pub open spec fn focused_pane_of(agents: Seq<AgentLine>) -> Option<Seq<char>>
    decreases agents.len(),
{
    if agents.len() == 0 {
        None
    } else if agents[0].focused {
        Some(agents[0].pane@)
    } else {
        focused_pane_of(agents.drop_first())
    }
}

} // verus!
