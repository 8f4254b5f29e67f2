//! What Zellij reports about panes, tabs and sessions, and how the runtime follows it.
//!
//! Zellij's own event types stay outside the library: the plugin hands over plain
//! snapshots of the fields the runtime reads, in the order Zellij gave them.

use vstd::prelude::*;
use crate::runtime::{AgentReport, PollTarget, RuntimeState, ZellijSession, keys_of_agents,
    leases_of, opt_view};
use crate::timer::DURATION_MAX;
use std::collections::VecDeque;
use crate::text::{decimal, push_decimal, push_text, string_of, same_text};
use crate::text_map::{TextMap, find, insert_entry, keep_flagged};

verus! {

/// One pane of a Zellij pane manifest.
#[derive(Clone, Copy, Debug, PartialEq, Eq, Structural)]
pub struct PaneSnapshot {
    /// Position of the tab the pane is in.
    pub tab_position: usize,
    pub id: u32,
    pub is_plugin: bool,
    pub is_focused: bool,
    pub is_suppressed: bool,
    pub content_rows: usize,
    pub content_columns: usize,
}

/// The area a pane draws in.
pub open spec fn pane_area(p: PaneSnapshot) -> int {
    p.content_rows * p.content_columns
}

/// Whether a pane may be the focused pane: a focused terminal pane in the active tab, or in
/// any tab when no tab is known to be active.
pub open spec fn focus_candidate(p: PaneSnapshot, active_position: Option<usize>) -> bool {
    &&& match active_position {
        Some(t) => p.tab_position == t,
        None => true,
    }
    &&& p.is_focused
    &&& !p.is_plugin
}

/// The index of the largest candidate pane, the last of equally large ones.
pub open spec fn largest_focused(panes: Seq<PaneSnapshot>, active_position: Option<usize>) -> Option<int>
    decreases panes.len(),
{
    if panes.len() == 0 {
        None
    } else {
        let r = largest_focused(panes.drop_last(), active_position);
        if focus_candidate(panes.last(), active_position) {
            match r {
                None => Some(panes.len() - 1),
                Some(i) => if pane_area(panes.last()) >= pane_area(panes[i]) {
                    Some(panes.len() - 1)
                } else {
                    Some(i)
                },
            }
        } else {
            r
        }
    }
}

proof fn lemma_largest_focused(panes: Seq<PaneSnapshot>, active_position: Option<usize>)
    ensures
        largest_focused(panes, active_position) matches Some(i) ==> 0 <= i < panes.len(),
    decreases panes.len(),
{
    if panes.len() > 0 {
        lemma_largest_focused(panes.drop_last(), active_position);
    }
}

/// How agents name a pane: `plugin_N` for a plugin, the bare number for a terminal.
pub open spec fn pane_key(p: PaneSnapshot) -> Seq<char> {
    if p.is_plugin {
        "plugin_"@ + decimal(p.id as nat)
    } else {
        decimal(p.id as nat)
    }
}

/// The key of the focused pane in the active tab.
pub open spec fn focused_pane_key(panes: Seq<PaneSnapshot>, active_position: Option<usize>) -> Option<Seq<char>> {
    match largest_focused(panes, active_position) {
        Some(i) => Some(pane_key(panes[i])),
        None => None,
    }
}

/// The key agents use for a pane.
pub fn pane_key_text(p: &PaneSnapshot) -> (r: String)
    ensures
        r@ == pane_key(*p),
{
    let mut v: Vec<char> = Vec::new();
    if p.is_plugin {
        push_text(&mut v, "plugin_");
    }
    push_decimal(&mut v, p.id as u128);
    string_of(&v)
}

/// The largest focused terminal pane in the active tab (in any tab when none is active);
/// the last of equally large ones.
pub fn largest_focused_terminal_pane(panes: &Vec<PaneSnapshot>, active_position: Option<usize>) -> (r: Option<usize>)
    ensures
        match r {
            Some(i) => largest_focused(panes@, active_position) == Some(i as int),
            None => largest_focused(panes@, active_position) is None,
        },
{
    let mut best: Option<usize> = None;
    let mut best_area: u128 = 0;
    let mut i: usize = 0;
    while i < panes.len()
        invariant
            i <= panes@.len(),
            match best {
                Some(b) => b < i && largest_focused(panes@.take(i as int), active_position) == Some(b as int)
                    && best_area == pane_area(panes@[b as int]),
                None => largest_focused(panes@.take(i as int), active_position) is None,
            },
        decreases panes@.len() - i,
    {
        let ghost t = panes@.take(i + 1);
        assert(t.drop_last() =~= panes@.take(i as int));
        assert(t.last() == panes@[i as int]);
        let p = panes[i];
        let in_tab = match active_position {
            Some(pos) => p.tab_position == pos,
            None => true,
        };
        if in_tab && p.is_focused && !p.is_plugin {
            let rows = p.content_rows as u128;
            let cols = p.content_columns as u128;
            assert(rows * cols <= u128::MAX) by (nonlinear_arith)
                requires
                    rows <= u64::MAX,
                    cols <= u64::MAX,
            ;
            let area = rows * cols;
            match best {
                None => {
                    best = Some(i);
                    best_area = area;
                },
                Some(b) => {
                    if area >= best_area {
                        best = Some(i);
                        best_area = area;
                    }
                },
            }
        }
        i = i + 1;
    }
    assert(panes@.take(i as int) =~= panes@);
    best
}

/// Whether the pane of plugin `plugin_id` is suppressed, if the manifest holds it.
pub open spec fn plugin_suppression(panes: Seq<PaneSnapshot>, plugin_id: u32) -> Option<bool>
    decreases panes.len(),
{
    if panes.len() == 0 {
        None
    } else if panes[0].is_plugin && panes[0].id == plugin_id {
        Some(panes[0].is_suppressed)
    } else {
        plugin_suppression(panes.drop_first(), plugin_id)
    }
}

/// Finds whether this plugin's own pane is suppressed: the first plugin pane with its id.
pub fn plugin_is_suppressed(panes: &Vec<PaneSnapshot>, plugin_id: u32) -> (r: Option<bool>)
    ensures
        r == plugin_suppression(panes@, plugin_id),
{
    let mut i: usize = 0;
    assert(panes@.skip(0) =~= panes@);
    while i < panes.len()
        invariant
            i <= panes@.len(),
            plugin_suppression(panes@, plugin_id) == plugin_suppression(panes@.skip(i as int), plugin_id),
        decreases panes@.len() - i,
    {
        assert(panes@.skip(i as int)[0] == panes@[i as int]);
        if panes[i].is_plugin && panes[i].id == plugin_id {
            return Some(panes[i].is_suppressed);
        }
        assert(panes@.skip(i as int).drop_first() =~= panes@.skip(i + 1));
        i = i + 1;
    }
    assert(panes@.skip(i as int) =~= Seq::<PaneSnapshot>::empty());
    None
}

impl RuntimeState {
    /// Everything but the focused pane is as in `old`.
    pub open spec fn only_focus_changed(&self, old: RuntimeState) -> bool {
        &&& self.agents@ == old.agents@
        &&& self.agent_leases@ == old.agent_leases@
        &&& self.session_summaries@ == old.session_summaries@
        &&& self.session_summary_leases@ == old.session_summary_leases@
        &&& self.lease_clock == old.lease_clock
        &&& self.zellij_sessions@ == old.zellij_sessions@
        &&& self.poll_queue@ == old.poll_queue@
        &&& self.active_poll == old.active_poll
        &&& self.next_poll_at == old.next_poll_at
        &&& self.next_poll_id == old.next_poll_id
        &&& self.session_polling_enabled == old.session_polling_enabled
        &&& self.tabs@ == old.tabs@
        &&& self.events@ == old.events@
        &&& self.pipe_count == old.pipe_count
        &&& self.last_error == old.last_error
        &&& self.active_tab == old.active_tab
        &&& self.active_tab_position == old.active_tab_position
        &&& self.zellij_session == old.zellij_session
    }

    /// Follows the focused pane of the active tab; returns whether it changed.
    pub fn sync_pane_focus(&mut self, panes: &Vec<PaneSnapshot>) -> (changed: bool)
        requires
            old(self).wf(),
        ensures
            final(self).wf(),
            focus_synced(*old(self), *final(self), panes@, changed),
    {
        proof {
            lemma_largest_focused(panes@, self.active_tab_position);
        }
        let focused = match largest_focused_terminal_pane(panes, self.active_tab_position) {
            Some(i) => Some(pane_key_text(&panes[i])),
            None => None,
        };
        let same = match (&self.focused_pane, &focused) {
            (Some(a), Some(b)) => same_text(a.as_str(), b.as_str()),
            (None, None) => true,
            _ => false,
        };
        if same {
            return false;
        }
        self.focused_pane = focused;
        true
    }
}


/// One tab of a Zellij tab update.
#[derive(Clone, Debug, PartialEq, Eq)]
pub struct TabSnapshot {
    pub tab_id: usize,
    pub position: usize,
    pub name: String,
    pub active: bool,
}

/// The index of the first active tab.
pub open spec fn first_active(tabs: Seq<TabSnapshot>) -> Option<int>
    decreases tabs.len(),
{
    if tabs.len() == 0 {
        None
    } else if tabs[0].active {
        Some(0)
    } else {
        match first_active(tabs.drop_first()) {
            Some(i) => Some(i + 1),
            None => None,
        }
    }
}

/// The index of the first tab with id `id`.
pub open spec fn first_with_id(tabs: Seq<TabSnapshot>, id: usize) -> Option<int>
    decreases tabs.len(),
{
    if tabs.len() == 0 {
        None
    } else if tabs[0].tab_id == id {
        Some(0)
    } else {
        match first_with_id(tabs.drop_first(), id) {
            Some(i) => Some(i + 1),
            None => None,
        }
    }
}

proof fn lemma_first_tab(tabs: Seq<TabSnapshot>, id: usize)
    ensures
        first_active(tabs) matches Some(i) ==> 0 <= i < tabs.len() && tabs[i].active,
        first_with_id(tabs, id) matches Some(i) ==> 0 <= i < tabs.len() && tabs[i].tab_id == id,
    decreases tabs.len(),
{
    if tabs.len() > 0 {
        lemma_first_tab(tabs.drop_first(), id);
    }
}

/// An optional index moved by `d`.
pub open spec fn shift(o: Option<int>, d: int) -> Option<int> {
    match o {
        Some(x) => Some(x + d),
        None => None,
    }
}

/// Tab names by id, ids strictly increasing.
pub open spec fn ids_increasing(s: Seq<(usize, Seq<char>)>) -> bool {
    forall|i: int, j: int| 0 <= i < j < s.len() ==> (#[trigger] s[i]).0 < (#[trigger] s[j]).0
}

/// `s` with tab `id` named `name`: its entry replaced, or a new entry where ids stay
/// increasing.
pub open spec fn insert_tab(s: Seq<(usize, Seq<char>)>, id: usize, name: Seq<char>) -> Seq<(usize, Seq<char>)>
    decreases s.len(),
{
    if s.len() == 0 {
        seq![(id, name)]
    } else if s[0].0 == id {
        s.update(0, (id, name))
    } else if id < s[0].0 {
        seq![(id, name)] + s
    } else {
        seq![s[0]] + insert_tab(s.drop_first(), id, name)
    }
}

/// The tab names of a tab update by id; a later tab with the same id wins.
pub open spec fn tab_names(tabs: Seq<TabSnapshot>) -> Seq<(usize, Seq<char>)>
    decreases tabs.len(),
{
    if tabs.len() == 0 {
        Seq::empty()
    } else {
        insert_tab(tab_names(tabs.drop_last()), tabs.last().tab_id, tabs.last().name@)
    }
}

/// The views of a tab list.
pub open spec fn tab_views(s: Seq<(usize, String)>) -> Seq<(usize, Seq<char>)> {
    s.map_values(|e: (usize, String)| (e.0, e.1@))
}

proof fn lemma_insert_tab(s: Seq<(usize, Seq<char>)>, id: usize, name: Seq<char>, k: int)
    requires
        ids_increasing(s),
        0 <= k <= s.len(),
        forall|j: int| 0 <= j < k ==> (#[trigger] s[j]).0 < id,
        k < s.len() ==> s[k].0 >= id,
    ensures
        insert_tab(s, id, name) == s.take(k) + if k < s.len() && s[k].0 == id {
            seq![(id, name)] + s.skip(k + 1)
        } else {
            seq![(id, name)] + s.skip(k)
        },
        ids_increasing(insert_tab(s, id, name)),
    decreases s.len(),
{
    if s.len() == 0 {
        assert(s.take(k) =~= Seq::<(usize, Seq<char>)>::empty());
        assert(s.skip(k) =~= Seq::<(usize, Seq<char>)>::empty());
    } else if k == 0 {
        assert(s.take(0) =~= Seq::<(usize, Seq<char>)>::empty());
        if s[0].0 == id {
            assert(s.update(0, (id, name)) =~= seq![(id, name)] + s.skip(1));
        } else {
            assert(s =~= s.skip(0));
        }
    } else {
        let t = s.drop_first();
        assert forall|j: int| 0 <= j < k - 1 implies (#[trigger] t[j]).0 < id by {
            assert(t[j] == s[j + 1]);
        }
        lemma_insert_tab(t, id, name, k - 1);
        assert(s.take(k) =~= seq![s[0]] + t.take(k - 1));
        if k < s.len() {
            assert(s.skip(k + 1) =~= t.skip(k));
        }
        assert(s.skip(k) =~= t.skip(k - 1));
        let r = insert_tab(s, id, name);
        assert(r == seq![s[0]] + insert_tab(t, id, name));
        assert forall|i: int, j: int| 0 <= i < j < r.len() implies (#[trigger] r[i]).0 < (#[trigger] r[j]).0 by {
            if i == 0 {
                let rt = insert_tab(t, id, name);
                assert(r[j] == rt[j - 1]);
                if k < s.len() && s[k].0 == id {
                    assert(rt =~= t.take(k - 1) + (seq![(id, name)] + t.skip(k)));
                } else {
                    assert(rt =~= t.take(k - 1) + (seq![(id, name)] + t.skip(k - 1)));
                }
                if j - 1 < k - 1 {
                    assert(rt[j - 1] == t[j - 1]);
                } else if j - 1 == k - 1 {
                    assert(rt[j - 1].0 == id);
                    assert(s[0].0 < id);
                } else {
                    if k < s.len() && s[k].0 == id {
                        assert(rt[j - 1] == t[j - 1]);
                    } else {
                        assert(rt[j - 1] == t[j - 2]);
                    }
                }
            } else {
                assert(r[i] == insert_tab(t, id, name)[i - 1]);
                assert(r[j] == insert_tab(t, id, name)[j - 1]);
            }
        }
    }
}

/// Binds tab `id` to `name` in a tab list whose ids increase.
fn insert_tab_exec(tabs: &mut Vec<(usize, String)>, id: usize, name: String)
    requires
        ids_increasing(tab_views(old(tabs)@)),
    ensures
        tab_views(final(tabs)@) == insert_tab(tab_views(old(tabs)@), id, name@),
        ids_increasing(tab_views(final(tabs)@)),
{
    let ghost before = tab_views(tabs@);
    let ghost nv = name@;
    let mut k: usize = 0;
    while k < tabs.len() && tabs[k].0 < id
        invariant
            k <= tabs@.len(),
            tab_views(tabs@) == before,
            forall|j: int| 0 <= j < k ==> (#[trigger] before[j]).0 < id,
        decreases tabs@.len() - k,
    {
        assert(before[k as int].0 == tabs@[k as int].0);
        k = k + 1;
    }
    proof {
        if k < before.len() {
            assert(before[k as int].0 == tabs@[k as int].0);
        }
        lemma_insert_tab(before, id, nv, k as int);
    }
    if k < tabs.len() && tabs[k].0 == id {
        tabs.remove(k);
        tabs.insert(k, (id, name));
        assert(tab_views(tabs@) =~= before.take(k as int) + (seq![(id, nv)] + before.skip(k + 1)));
    } else {
        tabs.insert(k, (id, name));
        assert(tab_views(tabs@) =~= before.take(k as int) + (seq![(id, nv)] + before.skip(k as int)));
    }
}

/// The name a tab update gives an agent's tab, when the agent sits in a known tab and the
/// name differs from the one it holds.
pub open spec fn renamed_tab(a: AgentReport, tabs: Seq<TabSnapshot>) -> Option<Seq<char>> {
    match a.tab_id {
        Some(id) => match first_with_id(tabs, id) {
            Some(j) => if opt_view(a.tab_name) != Some(tabs[j].name@) {
                Some(tabs[j].name@)
            } else {
                None
            },
            None => None,
        },
        None => None,
    }
}

/// Whether `b` is agent `a` after a tab update: its tab name renamed when the update renames
/// it, every other field kept.
pub open spec fn retabbed(a: AgentReport, b: AgentReport, tabs: Seq<TabSnapshot>) -> bool {
    &&& b == AgentReport { tab_name: b.tab_name, ..a }
    &&& match renamed_tab(a, tabs) {
        Some(n) => opt_view(b.tab_name) == Some(n),
        None => b.tab_name == a.tab_name,
    }
}

impl RuntimeState {
    /// Everything but the tabs, the agents' tab names and the active tab is as in `old`.
    pub open spec fn only_tabs_changed(&self, old: RuntimeState) -> bool {
        &&& self.agent_leases@ == old.agent_leases@
        &&& self.session_summaries@ == old.session_summaries@
        &&& self.session_summary_leases@ == old.session_summary_leases@
        &&& self.lease_clock == old.lease_clock
        &&& self.zellij_sessions@ == old.zellij_sessions@
        &&& self.poll_queue@ == old.poll_queue@
        &&& self.active_poll == old.active_poll
        &&& self.next_poll_at == old.next_poll_at
        &&& self.next_poll_id == old.next_poll_id
        &&& self.session_polling_enabled == old.session_polling_enabled
        &&& self.events@ == old.events@
        &&& self.pipe_count == old.pipe_count
        &&& self.last_error == old.last_error
        &&& self.focused_pane == old.focused_pane
        &&& self.zellij_session == old.zellij_session
    }

    /// Follows a tab update: the active tab and its position, the tab names, and the tab name
    /// of every agent in a renamed tab. Returns whether anything changed.
    pub fn sync_tabs(&mut self, tabs: &Vec<TabSnapshot>) -> (changed: bool)
        requires
            old(self).wf(),
        ensures
            final(self).wf(),
            tabs_synced(*old(self), *final(self), tabs@, changed),
    {
        let ghost tv = tabs@;
        proof {
            lemma_first_tab(tv, 0);
        }
        let mut active: Option<usize> = None;
        let mut i: usize = 0;
        assert(tabs@.skip(0) =~= tabs@);
        while i < tabs.len() && active.is_none()
            invariant
                i <= tabs@.len(),
                match active {
                    Some(a) => a < tabs@.len() && first_active(tabs@) == Some(a as int),
                    None => first_active(tabs@) == shift(first_active(tabs@.skip(i as int)), i as int),
                },
            decreases tabs@.len() - i,
        {
            assert(tabs@.skip(i as int)[0] == tabs@[i as int]);
            assert(tabs@.skip(i as int).drop_first() =~= tabs@.skip(i + 1));
            if tabs[i].active {
                active = Some(i);
            }
            i = i + 1;
        }
        if active.is_none() {
            assert(tabs@.skip(i as int) =~= Seq::<TabSnapshot>::empty());
        }
        let active_tab = match active {
            Some(a) => Some(tabs[a].tab_id),
            None => None,
        };
        let active_position = match active {
            Some(a) => Some(tabs[a].position),
            None => None,
        };
        let mut next: Vec<(usize, String)> = Vec::new();
        assert(tab_views(next@) =~= tab_names(tabs@.take(0)));
        let mut k: usize = 0;
        while k < tabs.len()
            invariant
                k <= tabs@.len(),
                tab_views(next@) == tab_names(tabs@.take(k as int)),
                ids_increasing(tab_views(next@)),
            decreases tabs@.len() - k,
        {
            let ghost t = tabs@.take(k + 1);
            assert(t.drop_last() =~= tabs@.take(k as int));
            insert_tab_exec(&mut next, tabs[k].tab_id, tabs[k].name.clone());
            k = k + 1;
        }
        assert(tabs@.take(k as int) =~= tabs@);
        let same_tabs = same_tab_lists(&self.tabs, &next);
        let mut changed = self.active_tab != active_tab || self.active_tab_position != active_position
            || !same_tabs;
        self.active_tab = active_tab;
        self.active_tab_position = active_position;
        self.tabs = next;
        proof {
            assert forall|a: int, b: int| 0 <= a < b < self.tabs@.len() implies (#[trigger] self.tabs@[a]).0 < (#[trigger] self.tabs@[b]).0 by {
                assert(tab_views(self.tabs@)[a].0 == self.tabs@[a].0);
                assert(tab_views(self.tabs@)[b].0 == self.tabs@[b].0);
            }
        }
        let ghost old_agents = self.agents@;
        assert(old_agents == old(self).agents@);
        let ghost was_changed = changed;
        let n = self.agents.len();
        let mut j: usize = 0;
        while j < n
            invariant
                j <= n,
                n == old_agents.len(),
                self.agents@.len() == n,
                self.wf(),
                self.only_tabs_changed(*old(self)),
                self.active_tab == active_tab,
                self.active_tab_position == active_position,
                tab_views(self.tabs@) == tab_names(tabs@),
                keys_of_agents(self.agents@) == keys_of_agents(old_agents),
                forall|q: int| 0 <= q < n ==> (#[trigger] self.agents@[q]).0 == old_agents[q].0,
                forall|q: int| 0 <= q < j ==> retabbed(old_agents[q].1, (#[trigger] self.agents@[q]).1, tv),
                forall|q: int| j <= q < n ==> (#[trigger] self.agents@[q]) == old_agents[q],
                changed == (was_changed || exists|q: int| 0 <= q < j && (#[trigger] renamed_tab(old_agents[q].1, tv)) is Some),
                tv == tabs@,
            decreases n - j,
        {
            proof {
                lemma_first_tab(tv, 0);
            }
            let a = self.agents.value_at(j);
            let found = match a.tab_id {
                Some(id) => find_tab(tabs, id),
                None => None,
            };
            proof {
                if let Some(id) = a.tab_id {
                    lemma_first_tab(tv, id);
                }
            }
            let rename = match found {
                Some(t) => {
                    let differs = match &a.tab_name {
                        Some(name) => !same_text(name.as_str(), tabs[t].name.as_str()),
                        None => true,
                    };
                    differs
                },
                None => false,
            };
            assert(rename == renamed_tab(old_agents[j as int].1, tv) is Some);
            if rename {
                let t = match found {
                    Some(t) => t,
                    None => 0,
                };
                let mut b = a.clone_report();
                b.tab_name = Some(tabs[t].name.clone());
                let ghost before = self.agents@;
                self.agents.set_value_at(j, b);
                assert(keys_of_agents(self.agents@) =~= keys_of_agents(before));
                proof {
                    crate::text_map::lemma_same_keys_sorted(before, self.agents@);
                }
                changed = true;
            }
            j = j + 1;
        }
        changed
    }
}

/// The index of the first tab with id `id`.
fn find_tab(tabs: &Vec<TabSnapshot>, id: usize) -> (r: Option<usize>)
    ensures
        match r {
            Some(i) => first_with_id(tabs@, id) == Some(i as int),
            None => first_with_id(tabs@, id) is None,
        },
{
    let mut i: usize = 0;
    assert(tabs@.skip(0) =~= tabs@);
    while i < tabs.len()
        invariant
            i <= tabs@.len(),
            first_with_id(tabs@, id) == shift(first_with_id(tabs@.skip(i as int), id), i as int),
        decreases tabs@.len() - i,
    {
        assert(tabs@.skip(i as int)[0] == tabs@[i as int]);
        assert(tabs@.skip(i as int).drop_first() =~= tabs@.skip(i + 1));
        if tabs[i].tab_id == id {
            return Some(i);
        }
        i = i + 1;
    }
    assert(tabs@.skip(i as int) =~= Seq::<TabSnapshot>::empty());
    None
}

/// Whether two tab lists hold the same ids and names.
fn same_tab_lists(a: &Vec<(usize, String)>, b: &Vec<(usize, String)>) -> (r: bool)
    ensures
        r == (tab_views(a@) == tab_views(b@)),
{
    if a.len() != b.len() {
        assert(tab_views(a@).len() != tab_views(b@).len());
        return false;
    }
    let mut i: usize = 0;
    while i < a.len()
        invariant
            i <= a@.len(),
            a@.len() == b@.len(),
            forall|k: int| 0 <= k < i ==> tab_views(a@)[k] == tab_views(b@)[k],
        decreases a@.len() - i,
    {
        if a[i].0 != b[i].0 || !same_text(a[i].1.as_str(), b[i].1.as_str()) {
            assert(tab_views(a@)[i as int] != tab_views(b@)[i as int]);
            return false;
        }
        i = i + 1;
    }
    assert(tab_views(a@) =~= tab_views(b@));
    true
}


/// One session of a Zellij session update.
#[derive(Clone, Debug, PartialEq, Eq)]
pub struct NativeSession {
    pub name: String,
    pub is_current_session: bool,
    pub connected_clients: usize,
    pub web_client_count: usize,
    pub tab_count: usize,
    /// Panes over all tabs.
    pub pane_count: usize,
    /// When the session was created, in nanoseconds.
    pub creation_nanos: u128,
}

/// What the runtime records of a session: generation id, name, clients, tabs, panes,
/// creation second and whether it is the current session.
pub type SessionView = (Seq<char>, Seq<char>, int, int, int, int, bool);

/// The view of a recorded session.
pub open spec fn zview(z: ZellijSession) -> SessionView {
    (
        z.generation_id@,
        z.name@,
        z.connected_client_count as int,
        z.tab_count as int,
        z.pane_count as int,
        z.created_at_seconds as int,
        z.current,
    )
}

/// The id of one generation of a session: its creation time in nanoseconds, in decimal. A
/// session recreated under the same name is a new generation.
pub open spec fn generation_id(creation_nanos: u128) -> Seq<char> {
    decimal(creation_nanos as nat)
}

/// The record a session update gives for a session.
pub open spec fn native_view(n: NativeSession) -> SessionView {
    (
        generation_id(n.creation_nanos),
        n.name@,
        n.connected_clients + n.web_client_count,
        n.tab_count as int,
        n.pane_count as int,
        (n.creation_nanos / 1_000_000_000) as int,
        n.is_current_session,
    )
}

/// Whether a session's numbers fit what the runtime records.
pub open spec fn native_ok(n: NativeSession) -> bool {
    n.connected_clients + n.web_client_count <= usize::MAX && n.creation_nanos <= DURATION_MAX
}

/// The views of recorded sessions.
pub open spec fn session_views(s: Seq<(Seq<char>, ZellijSession)>) -> Seq<(Seq<char>, SessionView)> {
    s.map_values(|e: (Seq<char>, ZellijSession)| (e.0, zview(e.1)))
}

/// The sessions of an update by generation id; a later session with the same id wins.
pub open spec fn native_entries(ns: Seq<NativeSession>) -> Seq<(Seq<char>, SessionView)>
    decreases ns.len(),
{
    if ns.len() == 0 {
        Seq::empty()
    } else {
        insert_entry(native_entries(ns.drop_last()), generation_id(ns.last().creation_nanos), native_view(ns.last()))
    }
}

/// The name of the first current session of an update.
pub open spec fn current_name(ns: Seq<NativeSession>) -> Option<Seq<char>>
    decreases ns.len(),
{
    if ns.len() == 0 {
        None
    } else if ns[0].is_current_session {
        Some(ns[0].name@)
    } else {
        current_name(ns.drop_first())
    }
}

proof fn lemma_views_insert(s: Seq<(Seq<char>, ZellijSession)>, k: Seq<char>, v: ZellijSession)
    ensures
        session_views(insert_entry(s, k, v)) == insert_entry(session_views(s), k, zview(v)),
    decreases s.len(),
{
    let vs = session_views(s);
    if s.len() == 0 {
        assert(session_views(seq![(k, v)]) =~= seq![(k, zview(v))]);
    } else {
        assert(vs[0] == (s[0].0, zview(s[0].1)));
        if s[0].0 == k {
            assert(session_views(s.update(0, (k, v))) =~= vs.update(0, (k, zview(v))));
        } else if crate::text::chars_less(k, s[0].0) {
            assert(session_views(seq![(k, v)] + s) =~= seq![(k, zview(v))] + vs);
        } else {
            lemma_views_insert(s.drop_first(), k, v);
            assert(session_views(s.drop_first()) =~= vs.drop_first());
            assert(session_views(seq![s[0]] + insert_entry(s.drop_first(), k, v)) =~= seq![vs[0]]
                + session_views(insert_entry(s.drop_first(), k, v)));
        }
    }
}

/// The generation id of a session created `creation_nanos` nanoseconds into the epoch.
pub fn session_generation_id(name: &str, creation_nanos: u128) -> (r: String)
    ensures
        r@ == generation_id(creation_nanos),
{
    let mut v: Vec<char> = Vec::new();
    push_decimal(&mut v, creation_nanos);
    string_of(&v)
}

/// The record and generation id of a session of an update.
pub fn native_session(n: &NativeSession) -> (r: (String, ZellijSession))
    requires
        native_ok(*n),
    ensures
        r.0@ == generation_id(n.creation_nanos),
        zview(r.1) == native_view(*n),
{
    let id = session_generation_id(n.name.as_str(), n.creation_nanos);
    let secs = n.creation_nanos / 1_000_000_000;
    assert(secs <= u64::MAX);
    (
        id.clone(),
        ZellijSession {
            generation_id: id,
            name: n.name.clone(),
            connected_client_count: n.connected_clients + n.web_client_count,
            tab_count: n.tab_count,
            pane_count: n.pane_count,
            created_at_seconds: secs as u64,
            current: n.is_current_session,
        },
    )
}

fn same_session(a: &ZellijSession, b: &ZellijSession) -> (r: bool)
    ensures
        r == (zview(*a) == zview(*b)),
{
    same_text(a.generation_id.as_str(), b.generation_id.as_str()) && same_text(a.name.as_str(), b.name.as_str())
        && a.connected_client_count == b.connected_client_count && a.tab_count == b.tab_count
        && a.pane_count == b.pane_count && a.created_at_seconds == b.created_at_seconds
        && a.current == b.current
}

fn same_sessions(a: &TextMap<ZellijSession>, b: &TextMap<ZellijSession>) -> (r: bool)
    ensures
        r == (session_views(a@) == session_views(b@)),
{
    if a.len() != b.len() {
        assert(session_views(a@).len() != session_views(b@).len());
        return false;
    }
    let mut i: usize = 0;
    while i < a.len()
        invariant
            i <= a@.len(),
            a@.len() == b@.len(),
            forall|k: int| 0 <= k < i ==> session_views(a@)[k] == session_views(b@)[k],
        decreases a@.len() - i,
    {
        if !same_text(a.key_at(i).as_str(), b.key_at(i).as_str()) || !same_session(a.value_at(i), b.value_at(i)) {
            assert(session_views(a@)[i as int] != session_views(b@)[i as int]);
            return false;
        }
        i = i + 1;
    }
    assert(session_views(a@) =~= session_views(b@));
    true
}

/// The flags that keep queued polls whose session generation is still live.
pub open spec fn live_targets(q: Seq<PollTarget>, sessions: Seq<(Seq<char>, ZellijSession)>) -> Seq<bool> {
    q.map_values(|t: PollTarget| find(sessions, t.generation_id@) is Some)
}

/// A copy of a poll target.
pub fn copy_target(t: &PollTarget) -> (r: PollTarget)
    ensures
        r == *t,
{
    PollTarget { session_name: t.session_name.clone(), generation_id: t.generation_id.clone() }
}

impl RuntimeState {
    /// Everything but the sessions and the session work is as in `old`.
    pub open spec fn keeps_agents(&self, old: RuntimeState) -> bool {
        &&& self.agents@ == old.agents@
        &&& self.agent_leases@ == old.agent_leases@
        &&& self.lease_clock == old.lease_clock
        &&& self.next_poll_id == old.next_poll_id
        &&& self.tabs@ == old.tabs@
        &&& self.events@ == old.events@
        &&& self.pipe_count == old.pipe_count
        &&& self.focused_pane == old.focused_pane
        &&& self.active_tab == old.active_tab
        &&& self.active_tab_position == old.active_tab_position
    }

    /// Drops the summaries, leases and polls of session generations that are gone.
    pub fn drop_removed_session_work(&mut self)
        requires
            old(self).wf(),
        ensures
            final(self).wf(),
            final(self).keeps_agents(*old(self)),
            final(self).zellij_sessions@ == old(self).zellij_sessions@,
            final(self).zellij_session == old(self).zellij_session,
            final(self).next_poll_at == old(self).next_poll_at,
            final(self).session_polling_enabled == old(self).session_polling_enabled,
            final(self).last_error == old(self).last_error,
            final(self).session_summaries@ == keep_flagged(
                old(self).session_summaries@,
                leases_of(old(self).session_summaries@, old(self).zellij_sessions@),
            ),
            final(self).session_summary_leases@ == keep_flagged(
                old(self).session_summary_leases@,
                leases_of(old(self).session_summary_leases@, old(self).zellij_sessions@),
            ),
            final(self).poll_queue@ == keep_flagged(
                old(self).poll_queue@,
                live_targets(old(self).poll_queue@, old(self).zellij_sessions@),
            ),
            final(self).active_poll == match old(self).active_poll {
                Some(p) => if find(old(self).zellij_sessions@, p.target.generation_id@) is Some {
                    Some(p)
                } else {
                    None
                },
                None => None,
            },
    {
        let n = self.session_summaries.len();
        let mut keep: Vec<bool> = Vec::new();
        let mut i: usize = 0;
        while i < n
            invariant
                i <= n,
                n == self.session_summaries@.len(),
                self.zellij_sessions.wf(),
                keep@ == leases_of(self.session_summaries@, self.zellij_sessions@).take(i as int),
            decreases n - i,
        {
            let live = self.zellij_sessions.contains_key(self.session_summaries.key_at(i).as_str());
            keep.push(live);
            assert(keep@ =~= leases_of(self.session_summaries@, self.zellij_sessions@).take(i + 1));
            i = i + 1;
        }
        assert(keep@ =~= leases_of(self.session_summaries@, self.zellij_sessions@));
        self.session_summaries.retain_flagged(&keep);
        let m = self.session_summary_leases.len();
        let mut keep2: Vec<bool> = Vec::new();
        let mut j: usize = 0;
        while j < m
            invariant
                j <= m,
                m == self.session_summary_leases@.len(),
                self.zellij_sessions.wf(),
                keep2@ == leases_of(self.session_summary_leases@, self.zellij_sessions@).take(j as int),
            decreases m - j,
        {
            let live = self.zellij_sessions.contains_key(self.session_summary_leases.key_at(j).as_str());
            keep2.push(live);
            assert(keep2@ =~= leases_of(self.session_summary_leases@, self.zellij_sessions@).take(j + 1));
            j = j + 1;
        }
        assert(keep2@ =~= leases_of(self.session_summary_leases@, self.zellij_sessions@));
        self.session_summary_leases.retain_flagged(&keep2);
        let ghost q = self.poll_queue@;
        let ghost flags = live_targets(q, self.zellij_sessions@);
        let mut kept: VecDeque<PollTarget> = VecDeque::new();
        let mut k: usize = 0;
        let qn = self.poll_queue.len();
        assert(keep_flagged(q.take(0), flags.take(0)) =~= Seq::<PollTarget>::empty());
        while k < qn
            invariant
                k <= qn,
                qn == q.len(),
                q == self.poll_queue@,
                flags == live_targets(q, self.zellij_sessions@),
                self.zellij_sessions.wf(),
                kept@ == keep_flagged(q.take(k as int), flags.take(k as int)),
            decreases qn - k,
        {
            proof {
                crate::text_map::lemma_keep_flagged_snoc(q, flags, k as int);
            }
            let live = self.zellij_sessions.contains_key(self.poll_queue[k].generation_id.as_str());
            if live {
                let t = copy_target(&self.poll_queue[k]);
                kept.push_back(t);
            }
            assert(kept@ =~= keep_flagged(q.take(k + 1), flags.take(k + 1)));
            k = k + 1;
        }
        assert(q.take(qn as int) =~= q);
        assert(flags.take(qn as int) =~= flags);
        self.poll_queue = kept;
        let drop_active = match &self.active_poll {
            Some(p) => !self.zellij_sessions.contains_key(p.target.generation_id.as_str()),
            None => false,
        };
        if drop_active {
            self.active_poll = None;
        }
        proof {
            crate::laws::lemma_filter_keeps_distinct(q, flags, old(self).active_poll, self.active_poll);
        }
    }

    /// Follows a session update: the current session's name and the record of every session
    /// generation. When anything changed, work for generations that are gone is dropped.
    /// Returns whether anything changed.
    pub fn sync_zellij_sessions(&mut self, sessions: &Vec<NativeSession>) -> (changed: bool)
        requires
            old(self).wf(),
            forall|i: int| 0 <= i < sessions@.len() ==> native_ok(#[trigger] sessions@[i]),
        ensures
            final(self).wf(),
            sessions_synced(*old(self), *final(self), sessions@, changed),
    {
        let mut current: Option<String> = None;
        let mut i: usize = 0;
        assert(sessions@.skip(0) =~= sessions@);
        while i < sessions.len() && current.is_none()
            invariant
                i <= sessions@.len(),
                match current {
                    Some(c) => current_name(sessions@) == Some(c@),
                    None => current_name(sessions@) == current_name(sessions@.skip(i as int)),
                },
            decreases sessions@.len() - i,
        {
            assert(sessions@.skip(i as int)[0] == sessions@[i as int]);
            assert(sessions@.skip(i as int).drop_first() =~= sessions@.skip(i + 1));
            if sessions[i].is_current_session {
                current = Some(sessions[i].name.clone());
            }
            i = i + 1;
        }
        if current.is_none() {
            assert(sessions@.skip(i as int) =~= Seq::<NativeSession>::empty());
        }
        let mut next: TextMap<ZellijSession> = TextMap::new();
        assert(session_views(next@) =~= native_entries(sessions@.take(0)));
        let mut k: usize = 0;
        while k < sessions.len()
            invariant
                k <= sessions@.len(),
                next.wf(),
                session_views(next@) == native_entries(sessions@.take(k as int)),
                forall|q: int| 0 <= q < sessions@.len() ==> native_ok(#[trigger] sessions@[q]),
            decreases sessions@.len() - k,
        {
            let ghost t = sessions@.take(k + 1);
            assert(t.drop_last() =~= sessions@.take(k as int));
            assert(t.last() == sessions@[k as int]);
            let (key, z) = native_session(&sessions[k]);
            let ghost before = next@;
            proof {
                lemma_views_insert(before, key@, z);
            }
            next.insert(key, z);
            k = k + 1;
        }
        assert(sessions@.take(k as int) =~= sessions@);
        let same_current = match (&self.zellij_session, &current) {
            (Some(a), Some(b)) => same_text(a.as_str(), b.as_str()),
            (None, None) => true,
            _ => false,
        };
        if same_current && same_sessions(&self.zellij_sessions, &next) {
            return false;
        }
        proof {
            crate::laws::lemma_native_table_keyed(next@, sessions@);
        }
        self.zellij_session = current;
        self.zellij_sessions = next;
        self.drop_removed_session_work();
        true
    }
}

/// What a pane update does: the focused pane is the one the panes show.
pub open spec fn focus_synced(old: RuntimeState, new: RuntimeState, panes: Seq<PaneSnapshot>, changed: bool) -> bool {
    &&& opt_view(new.focused_pane) == focused_pane_key(panes, old.active_tab_position)
    &&& changed == (opt_view(old.focused_pane) != focused_pane_key(panes, old.active_tab_position))
    &&& new.only_focus_changed(old)
}

/// What a tab update does: the tabs, the active tab and the agents' tab names follow it.
pub open spec fn tabs_synced(old: RuntimeState, new: RuntimeState, tabs: Seq<TabSnapshot>, changed: bool) -> bool {
    &&& new.only_tabs_changed(old)
    &&& new.active_tab == match first_active(tabs) {
        Some(i) => Some(tabs[i].tab_id),
        None => None,
    }
    &&& new.active_tab_position == match first_active(tabs) {
        Some(i) => Some(tabs[i].position),
        None => None,
    }
    &&& tab_views(new.tabs@) == tab_names(tabs)
    &&& new.agents@.len() == old.agents@.len()
    &&& forall|i: int| 0 <= i < old.agents@.len() ==> (#[trigger] new.agents@[i]).0
        == old.agents@[i].0 && retabbed(old.agents@[i].1, new.agents@[i].1, tabs)
    &&& changed == (new.active_tab != old.active_tab
        || new.active_tab_position != old.active_tab_position
        || tab_views(old.tabs@) != tab_names(tabs)
        || exists|i: int| 0 <= i < old.agents@.len() && (#[trigger] renamed_tab(old.agents@[i].1, tabs)) is Some)
}

/// What a session update does: the native sessions follow it, and work on gone ones is dropped.
pub open spec fn sessions_synced(old: RuntimeState, new: RuntimeState, sessions: Seq<NativeSession>, changed: bool) -> bool {
    &&& new.keeps_agents(old)
    &&& new.next_poll_at == old.next_poll_at
    &&& new.session_polling_enabled == old.session_polling_enabled
    &&& new.last_error == old.last_error
    &&& changed == !(opt_view(old.zellij_session) == current_name(sessions)
        && session_views(old.zellij_sessions@) == native_entries(sessions))
    &&& !changed ==> {
        &&& new.zellij_sessions@ == old.zellij_sessions@
        &&& new.zellij_session == old.zellij_session
        &&& new.session_summaries@ == old.session_summaries@
        &&& new.session_summary_leases@ == old.session_summary_leases@
        &&& new.poll_queue@ == old.poll_queue@
        &&& new.active_poll == old.active_poll
    }
    &&& changed ==> {
        &&& opt_view(new.zellij_session) == current_name(sessions)
        &&& session_views(new.zellij_sessions@) == native_entries(sessions)
        &&& new.session_summaries@ == keep_flagged(
            old.session_summaries@,
            leases_of(old.session_summaries@, new.zellij_sessions@),
        )
        &&& new.session_summary_leases@ == keep_flagged(
            old.session_summary_leases@,
            leases_of(old.session_summary_leases@, new.zellij_sessions@),
        )
        &&& new.poll_queue@ == keep_flagged(
            old.poll_queue@,
            live_targets(old.poll_queue@, new.zellij_sessions@),
        )
        &&& new.active_poll == match old.active_poll {
            Some(p) => if find(new.zellij_sessions@, p.target.generation_id@) is Some {
                Some(p)
            } else {
                None
            },
            None => None,
        }
    }
}

} // verus!
