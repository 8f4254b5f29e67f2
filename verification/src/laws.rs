//! Properties of the library that span calls or hold of every state.

use vstd::prelude::*;
use crate::runtime::{AgentReport, AgentState, PaneId, MAX_EVENTS, agents_after, agents_alive,
    agents_kept_for_pane, cache_key, changes_render, clock_after, keeps_agent, lease_expired,
    pushed_event, reported_at, same_render_fields};
use crate::sessions::{NativeSession, SessionView, generation_id, native_entries, native_view,
    session_views, sessions_synced, TabSnapshot, renamed_tab, retabbed, zview};
use crate::click::{ClickAction, Hitbox, closing_hits, escape_len, lemma_escape_len, lemma_marker_len,
    marker_at, scan, button_start, button_end};
use crate::layout::{lemma_truncate_exact, zero_width_at, fitted, lemma_truncate_width, lemma_width_append_spaces, truncate_from, width_from, flex_width_list, int_sum, ints, sat_mul, sat_sub as layout_sat_sub};
use crate::model::{SessionLine, insert_session, lowercase, session_before, sort_sessions};
use crate::text::{chars_less, lemma_chars_less_asymmetric, lemma_chars_less_irreflexive,
    lemma_chars_less_transitive};
use crate::text_map::{find, insert_entry, keep_flagged, keys_sorted, lemma_insert_find,
    lemma_remove_sorted};
use crate::pane_size::{PaneSizeService, PaneSizeUpdate, size_pipe_handled};
use crate::plugin_step::{PluginAction, PluginCore, PluginEvent, StepTrace, command_traced,
    pane_closed_traced, pane_update_traced, permission_traced, plugin_stepped, refresh_traced,
    session_update_traced, tab_update_traced, timer_traced};
use crate::polls::{PollCommand, cycle_targets, first_pollable, lemma_first_pollable, poll_cycle_begun, poll_gave_up, poll_issued, poll_result_handled,
    poll_wanted, polling_set, target_views};
use crate::runtime::{ActivePoll, PollTarget, RuntimeState, ZellijSession, keyed_by_generation,
    polls_distinct};
use crate::timer::{DURATION_MAX, RefreshTimer, TIMER_BOUNDARY_PADDING, TimerReason, earliest, merged, scheduled};

verus! {

/// The diagnostic log never holds more than `MAX_EVENTS` events, and the event just pushed
/// is the newest.
pub proof fn law_event_log_bounded(events: Seq<Seq<char>>, e: Seq<char>)
    requires
        events.len() <= MAX_EVENTS,
    ensures
        pushed_event(events, e).len() <= MAX_EVENTS,
        pushed_event(events, e).last() == e,
        events.len() < MAX_EVENTS ==> pushed_event(events, e) == events.push(e),
        events.len() == MAX_EVENTS ==> pushed_event(events, e) == events.drop_first().push(e),
{
}

/// The lease clock never moves back: a report moves it to the report's time at most
/// forward.
pub proof fn law_lease_clock_monotonic(clock: u128, r: AgentReport)
    ensures
        clock_after(clock, r) >= clock,
        clock_after(clock, r) >= reported_at(r),
        clock_after(clock, r) == clock || clock_after(clock, r) == reported_at(r),
{
}

/// A report is read back under its key: a `shutdown` report leaves no agent there, any other
/// report is the agent stored there. Every other key keeps its agent.
pub proof fn law_report_read_back(agents: Seq<(Seq<char>, AgentReport)>, r: AgentReport)
    requires
        keys_sorted(agents),
    ensures
        find(agents_after(agents, r), cache_key(r)) == if r.state == AgentState::Shutdown {
            None
        } else {
            Some(r)
        },
        forall|k: Seq<char>| k != cache_key(r) ==> #[trigger] find(agents_after(agents, r), k) == find(agents, k),
{
    if r.state == AgentState::Shutdown {
        lemma_remove_sorted(agents, cache_key(r));
    } else {
        lemma_insert_find(agents, cache_key(r), r);
    }
}

/// A report repeated changes nothing that is drawn.
pub proof fn law_repeated_report_changes_nothing(agents: Seq<(Seq<char>, AgentReport)>, r: AgentReport)
    requires
        keys_sorted(agents),
    ensures
        !changes_render(agents_after(agents, r), r),
{
    law_report_read_back(agents, r);
    assert(same_render_fields(r, r));
}

/// The entries `keep_flagged` keeps are entries of `s` whose flag is set, and every entry
/// whose flag is set is kept.
pub proof fn lemma_keep_flagged_members<T>(s: Seq<T>, keep: Seq<bool>)
    requires
        keep.len() == s.len(),
    ensures
        forall|j: int| 0 <= j < keep_flagged(s, keep).len() ==> exists|i: int|
            0 <= i < s.len() && keep[i] && #[trigger] keep_flagged(s, keep)[j] == s[i],
        forall|i: int| 0 <= i < s.len() && keep[i] ==> exists|j: int|
            0 <= j < keep_flagged(s, keep).len() && keep_flagged(s, keep)[j] == #[trigger] s[i],
    decreases s.len(),
{
    if s.len() > 0 {
        let t = s.drop_first();
        let kt = keep.drop_first();
        lemma_keep_flagged_members(t, kt);
        let r = keep_flagged(s, keep);
        let rt = keep_flagged(t, kt);
        if keep[0] {
            assert(r =~= seq![s[0]] + rt);
        } else {
            assert(r =~= rt);
        }
        assert forall|j: int| 0 <= j < r.len() implies exists|i: int|
            0 <= i < s.len() && keep[i] && #[trigger] r[j] == s[i] by {
            if keep[0] && j == 0 {
                assert(r[0] == s[0]);
            } else {
                let jj = if keep[0] { j - 1 } else { j };
                assert(r[j] == rt[jj]);
                let i = choose|i: int| 0 <= i < t.len() && kt[i] && #[trigger] rt[jj] == t[i];
                assert(s[i + 1] == t[i] && keep[i + 1] == kt[i]);
                assert(r[j] == s[i + 1]);
            }
        }
        assert forall|i: int| 0 <= i < s.len() && keep[i] implies exists|j: int|
            0 <= j < r.len() && r[j] == #[trigger] s[i] by {
            if i == 0 {
                assert(r[0] == s[0]);
            } else {
                assert(t[i - 1] == s[i] && kt[i - 1] == keep[i]);
                let j = choose|j: int| 0 <= j < rt.len() && rt[j] == #[trigger] t[i - 1];
                if keep[0] {
                    assert(r[j + 1] == rt[j]);
                    assert(r[j + 1] == s[i]);
                } else {
                    assert(r[j] == rt[j]);
                    assert(r[j] == s[i]);
                }
            }
        }
    }
}

/// When a pane closes, exactly the agents in it leave: every agent that stays is outside the
/// pane, and every agent outside it stays.
pub proof fn law_pane_closure_removes_exactly_its_agents(agents: Seq<(Seq<char>, AgentReport)>, pane: PaneId)
    ensures
        ({
            let kept = keep_flagged(agents, agents_kept_for_pane(agents, pane));
            &&& forall|j: int| 0 <= j < kept.len() ==> keeps_agent((#[trigger] kept[j]).1, pane)
            &&& forall|i: int| 0 <= i < agents.len() && keeps_agent(agents[i].1, pane) ==> exists|j: int|
                0 <= j < kept.len() && kept[j] == #[trigger] agents[i]
        }),
{
    let flags = agents_kept_for_pane(agents, pane);
    lemma_keep_flagged_members(agents, flags);
    let kept = keep_flagged(agents, flags);
    assert forall|j: int| 0 <= j < kept.len() implies keeps_agent((#[trigger] kept[j]).1, pane) by {
        let i = choose|i: int| 0 <= i < agents.len() && flags[i] && kept[j] == agents[i];
        assert(flags[i] == keeps_agent(agents[i].1, pane));
    }
    assert forall|i: int| 0 <= i < agents.len() && keeps_agent(agents[i].1, pane) implies exists|j: int|
        0 <= j < kept.len() && kept[j] == #[trigger] agents[i] by {
        assert(flags[i]);
    }
}

/// Lease expiry removes exactly the agents whose lease has run out.
pub proof fn law_expiry_removes_exactly_expired(
    agents: Seq<(Seq<char>, AgentReport)>,
    leases: Seq<(Seq<char>, u128)>,
    clock: u128,
)
    ensures
        ({
            let kept = keep_flagged(agents, agents_alive(agents, leases, clock));
            &&& forall|j: int| 0 <= j < kept.len() ==> !lease_expired(leases, clock, (#[trigger] kept[j]).0)
            &&& forall|i: int| 0 <= i < agents.len() && !lease_expired(leases, clock, agents[i].0) ==> exists|j: int|
                0 <= j < kept.len() && kept[j] == #[trigger] agents[i]
        }),
{
    let flags = agents_alive(agents, leases, clock);
    lemma_keep_flagged_members(agents, flags);
    let kept = keep_flagged(agents, flags);
    assert forall|j: int| 0 <= j < kept.len() implies !lease_expired(leases, clock, (#[trigger] kept[j]).0) by {
        let i = choose|i: int| 0 <= i < agents.len() && flags[i] && kept[j] == agents[i];
        assert(flags[i] == !lease_expired(leases, clock, agents[i].0));
    }
    assert forall|i: int| 0 <= i < agents.len() && !lease_expired(leases, clock, agents[i].0) implies exists|j: int|
        0 <= j < kept.len() && kept[j] == #[trigger] agents[i] by {
        assert(flags[i]);
    }
}

/// After a tab update, no agent's tab name differs from the update's any more: the same
/// update again renames nothing.
pub proof fn law_tab_sync_settles(a: AgentReport, b: AgentReport, tabs: Seq<TabSnapshot>)
    requires
        retabbed(a, b, tabs),
    ensures
        renamed_tab(b, tabs) is None,
{
    assert(b.tab_id == a.tab_id);
}

/// Whether reason set `a` is contained in `b`.
pub open spec fn reasons_within(a: TimerReason, b: TimerReason) -> bool {
    &&& a.render_refresh ==> b.render_refresh
    &&& a.agent_expiry ==> b.agent_expiry
    &&& a.session_poll ==> b.session_poll
    &&& a.snapshot_poll ==> b.snapshot_poll
    &&& a.poll_timeout ==> b.poll_timeout
    &&& a.session_summary_expiry ==> b.session_summary_expiry
}

/// The timer asked for is the earliest candidate, and it carries the reasons of every
/// candidate due at that time.
pub proof fn law_earliest_timer(cs: Seq<(u128, TimerReason)>)
    ensures
        earliest(cs) is None <==> cs.len() == 0,
        earliest(cs) matches Some((d, r)) ==> {
            &&& forall|i: int| 0 <= i < cs.len() ==> d <= (#[trigger] cs[i]).0
            &&& exists|i: int| 0 <= i < cs.len() && (#[trigger] cs[i]).0 == d
            &&& forall|i: int| 0 <= i < cs.len() && (#[trigger] cs[i]).0 == d ==> reasons_within(cs[i].1, r)
        },
    decreases cs.len(),
{
    if cs.len() > 0 {
        let p = cs.drop_last();
        law_earliest_timer(p);
        let l = cs.last();
        assert(l == cs[cs.len() - 1]);
        assert forall|i: int| 0 <= i < p.len() implies p[i] == cs[i] by {}
        match earliest(p) {
            None => {
                assert(p.len() == 0);
                assert(cs.len() == 1);
            },
            Some((d0, r0)) => {
                let w = choose|i: int| 0 <= i < p.len() && (#[trigger] p[i]).0 == d0;
                assert(cs[w] == p[w]);
                if l.0 < d0 {
                    assert forall|i: int| 0 <= i < cs.len() && (#[trigger] cs[i]).0 == l.0 implies reasons_within(cs[i].1, l.1) by {
                        if i < p.len() {
                            assert(cs[i] == p[i]);
                        }
                    }
                } else if l.0 == d0 {
                    let m = merged(r0, l.1);
                    assert forall|i: int| 0 <= i < cs.len() && (#[trigger] cs[i]).0 == d0 implies reasons_within(cs[i].1, m) by {
                        if i < p.len() {
                            assert(cs[i] == p[i]);
                            assert(reasons_within(p[i].1, r0));
                        }
                    }
                } else {
                    assert forall|i: int| 0 <= i < cs.len() && (#[trigger] cs[i]).0 == d0 implies reasons_within(cs[i].1, r0) by {
                        if i < p.len() {
                            assert(cs[i] == p[i]);
                        }
                    }
                }
            },
        }
    }
}


/// After a request, a timer is armed no later than the request asked for, and never later
/// than the timer armed before: the armed timer is always the earliest one asked for.
pub proof fn law_timer_arms_earliest(
    old: RefreshTimer,
    new: RefreshTimer,
    d: u128,
    reason: TimerReason,
    now: u128,
    r: Option<u128>,
)
    requires
        now + d + TIMER_BOUNDARY_PADDING <= DURATION_MAX,
        scheduled(old, new, Some((d, reason)), now, r),
    ensures
        new.active is Some,
        new.active_due_at <= now + d + TIMER_BOUNDARY_PADDING,
        old.active is Some ==> new.active_due_at <= old.active_due_at,
        r is Some <==> new.active_due_at < old.active_due_at || old.active is None,
{
}


proof fn lemma_session_before_asymmetric(a: SessionLine, b: SessionLine)
    ensures
        session_before(a, b) ==> !session_before(b, a),
{
    lemma_chars_less_asymmetric(lowercase(a.name@), lowercase(b.name@));
    lemma_chars_less_asymmetric(a.name@, b.name@);
}

proof fn lemma_session_before_transitive(a: SessionLine, b: SessionLine, c: SessionLine)
    requires
        session_before(a, b),
        session_before(b, c),
    ensures
        session_before(a, c),
{
    let la = lowercase(a.name@);
    let lb = lowercase(b.name@);
    let lc = lowercase(c.name@);
    lemma_chars_less_asymmetric(la, lb);
    lemma_chars_less_asymmetric(lb, lc);
    lemma_chars_less_irreflexive(la);
    if a.current == b.current && b.current == c.current {
        if la != lb && lb != lc {
            lemma_chars_less_transitive(la, lb, lc);
            if la == lc {
                assert(chars_less(la, lb) && chars_less(lb, la));
            }
        } else if la != lb && lb == lc {
            assert(la != lc);
        } else if la == lb && lb != lc {
            assert(la != lc);
        } else {
            lemma_chars_less_transitive(a.name@, b.name@, c.name@);
        }
    }
}

proof fn lemma_insert_session_shape(x: SessionLine, s: Seq<SessionLine>) -> (p: int)
    ensures
        0 <= p <= s.len(),
        insert_session(x, s) == s.insert(p, x),
        forall|j: int| 0 <= j < p ==> !session_before(x, #[trigger] s[j]),
        p < s.len() ==> session_before(x, s[p]),
    decreases s.len(),
{
    if s.len() == 0 {
        assert(insert_session(x, s) =~= s.insert(0, x));
        0
    } else if session_before(x, s[0]) {
        assert(insert_session(x, s) =~= s.insert(0, x));
        0
    } else {
        let q = lemma_insert_session_shape(x, s.drop_first());
        assert forall|j: int| 0 <= j < q + 1 implies !session_before(x, #[trigger] s[j]) by {
            if j > 0 {
                assert(s[j] == s.drop_first()[j - 1]);
            }
        }
        assert(insert_session(x, s) =~= s.insert(q + 1, x));
        q + 1
    }
}

/// Sessions are listed in order: the current session first, then by name ignoring case,
/// then by name; and sorting neither drops nor adds a session.
pub proof fn law_sessions_sorted(s: Seq<SessionLine>)
    ensures
        forall|i: int, j: int| 0 <= i < j < sort_sessions(s).len() ==> !session_before(
            #[trigger] sort_sessions(s)[j],
            #[trigger] sort_sessions(s)[i],
        ),
        sort_sessions(s).to_multiset() == s.to_multiset(),
        sort_sessions(s).len() == s.len(),
    decreases s.len(),
{
    broadcast use vstd::seq_lib::group_to_multiset_ensures;
    if s.len() > 0 {
        let t = sort_sessions(s.drop_last());
        law_sessions_sorted(s.drop_last());
        let x = s.last();
        let p = lemma_insert_session_shape(x, t);
        let r = sort_sessions(s);
        assert(r == t.insert(p, x));
        vstd::seq_lib::to_multiset_insert(t, p, x);
        assert(s.drop_last().push(x) =~= s);
        assert(s.to_multiset() == s.drop_last().to_multiset().insert(x));
        assert forall|i: int, j: int| 0 <= i < j < r.len() implies !session_before(#[trigger] r[j], #[trigger] r[i]) by {
            if j < p {
                assert(r[i] == t[i] && r[j] == t[j]);
            } else if j == p {
                assert(r[i] == t[i]);
                assert(r[j] == x);
            } else if i < p {
                assert(r[i] == t[i] && r[j] == t[j - 1]);
                if session_before(t[j - 1], t[i]) {
                    assert(p < t.len());
                    if i < p {
                        assert(!session_before(x, t[i]));
                    }
                    lemma_session_before_asymmetric(x, t[p]);
                    if j - 1 > p {
                        assert(!session_before(t[j - 1], t[p]));
                    }
                }
            } else if i == p {
                assert(r[i] == x && r[j] == t[j - 1]);
                assert(p < t.len());
                lemma_session_before_asymmetric(x, t[p]);
                if session_before(t[j - 1], x) {
                    if j - 1 > p {
                        lemma_session_before_transitive(t[j - 1], x, t[p]);
                    }
                }
            } else {
                assert(r[i] == t[i - 1] && r[j] == t[j - 1]);
            }
        }
    }
}


/// Whether every hitbox spans at least one column of row `row`.
pub open spec fn hits_on_row(hs: Seq<Hitbox>, row: usize) -> bool {
    forall|k: int| 0 <= k < hs.len() ==> (#[trigger] hs[k]).start_col < hs[k].end_col && hs[k].row == row
}

/// Every hitbox found on a line lies on that line's row and spans at least one column.
pub proof fn law_hitboxes_span_columns(
    line: Seq<char>,
    actions: Seq<ClickAction>,
    row: usize,
    i: int,
    col: int,
    active: Option<(usize, usize)>,
)
    requires
        0 <= i <= line.len(),
        0 <= col,
        col + line.len() - i <= usize::MAX,
    ensures
        hits_on_row(scan(line, actions, row, i, col, active).1, row),
    decreases line.len() - i,
{
    if i >= line.len() {
        let h = closing_hits(actions, row, col, active);
        assert forall|k: int| 0 <= k < h.len() implies (#[trigger] h[k]).start_col < h[k].end_col && h[k].row == row by {}
    } else {
        match marker_at(line, i, button_start()) {
            Some((id, c)) => {
                lemma_marker_len(line, i, button_start());
                law_hitboxes_span_columns(line, actions, row, i + c, col, Some((id, col as usize)));
            },
            None => match marker_at(line, i, button_end()) {
                Some((id, c)) => {
                    lemma_marker_len(line, i, button_end());
                    law_hitboxes_span_columns(line, actions, row, i + c, col, None);
                    let rest = scan(line, actions, row, i + c, col, None);
                    let hit = match active {
                        Some((aid, start)) => if id < actions.len() && aid == id && col > start {
                            seq![Hitbox { row, start_col: start, end_col: col as usize, action: actions[id as int] }]
                        } else {
                            Seq::empty()
                        },
                        None => Seq::empty(),
                    };
                    let all = hit + rest.1;
                    assert forall|k: int| 0 <= k < all.len() implies (#[trigger] all[k]).start_col < all[k].end_col && all[k].row == row by {
                        if k >= hit.len() {
                            assert(all[k] == rest.1[k - hit.len()]);
                        }
                    }
                },
                None => if line[i] == '\u{1b}' {
                    lemma_escape_len(line, i);
                    law_hitboxes_span_columns(line, actions, row, i + escape_len(line, i), col, active);
                } else {
                    law_hitboxes_span_columns(line, actions, row, i + 1, col + 1, active);
                },
            },
        }
    }
}


proof fn lemma_int_sum_update(s: Seq<int>, k: int, v: int)
    requires
        0 <= k < s.len(),
    ensures
        int_sum(s.update(k, v)) == int_sum(s) - s[k] + v,
    decreases s.len(),
{
    if k < s.len() - 1 {
        lemma_int_sum_update(s.drop_last(), k, v);
        assert(s.update(k, v).drop_last() =~= s.drop_last().update(k, v));
    } else {
        assert(s.update(k, v).drop_last() =~= s.drop_last());
    }
}

proof fn lemma_shares_bounded(u: int, w: Seq<int>, t: int, k: int)
    requires
        u >= 0,
        t > 0,
        0 <= k <= w.len(),
        forall|i: int| 0 <= i < w.len() ==> w[i] >= 0,
    ensures
        int_sum(Seq::new(w.len(), |i: int| sat_mul(u, w[i]) / t).take(k)) * t <= u * int_sum(w.take(k)),
    decreases k,
{
    let b = Seq::new(w.len(), |i: int| sat_mul(u, w[i]) / t);
    if k > 0 {
        lemma_shares_bounded(u, w, t, k - 1);
        assert(b.take(k).drop_last() =~= b.take(k - 1));
        assert(w.take(k).drop_last() =~= w.take(k - 1));
        let x = sat_mul(u, w[k - 1]);
        assert(x <= u * w[k - 1]) by (nonlinear_arith)
            requires
                x == sat_mul(u, w[k - 1]),
        ;
        assert(x >= 0) by (nonlinear_arith)
            requires
                x == sat_mul(u, w[k - 1]),
                u >= 0,
                w[k - 1] >= 0,
        ;
        assert((x / t) * t <= x) by (nonlinear_arith)
            requires
                x >= 0,
                t > 0,
        ;
        let sb = int_sum(b.take(k - 1));
        let sw = int_sum(w.take(k - 1));
        assert((sb + x / t) * t <= u * (sw + w[k - 1])) by (nonlinear_arith)
            requires
                sb * t <= u * sw,
                (x / t) * t <= x,
                x <= u * w[k - 1],
        ;
    }
}

/// A growing row flex fills exactly the usable width: the widths it gives the cells add up
/// to the viewport width less the gaps, whenever some weight is positive.
pub proof fn law_flex_widths_fill(width: usize, gap: usize, weights: Seq<usize>)
    requires
        int_sum(ints(weights)) > 0,
    ensures
        int_sum(flex_width_list(width as int, gap as int, ints(weights))) == layout_sat_sub(
            width as int,
            sat_mul(gap as int, layout_sat_sub(weights.len() as int, 1)),
        ),
{
    let w = ints(weights);
    let n = w.len();
    let u = layout_sat_sub(width as int, sat_mul(gap as int, layout_sat_sub(n as int, 1)));
    let t = int_sum(w);
    let base = Seq::new(n, |i: int| sat_mul(u, w[i]) / t);
    assert forall|i: int| 0 <= i < w.len() implies w[i] >= 0 by {}
    if n == 0 {
        assert(int_sum(w) == 0);
    }
    lemma_shares_bounded(u, w, t, n as int);
    assert(base.take(n as int) =~= base);
    assert(w.take(n as int) =~= w);
    assert(int_sum(base) <= u) by (nonlinear_arith)
        requires
            int_sum(base) * t <= u * t,
            t > 0,
    ;
    lemma_int_sum_update(base, n - 1, base[n - 1] + layout_sat_sub(u, int_sum(base)));
}

/// A peer's layout message is acted on at most once: handled a second time, the same
/// message is ignored.
pub proof fn law_size_message_acts_once(
    s0: PaneSizeService,
    s1: PaneSizeService,
    s2: PaneSizeService,
    name: Seq<char>,
    payload: Option<Seq<char>>,
    self_id: Option<u32>,
    first_cols: usize,
    second_cols: usize,
    first: Option<PaneSizeUpdate>,
    second: Option<PaneSizeUpdate>,
)
    requires
        size_pipe_handled(s0, s1, name, payload, self_id, first_cols, first),
        size_pipe_handled(s1, s2, name, payload, self_id, second_cols, second),
    ensures
        first is Some ==> second is None,
{
}

/// A cell fitted to a column is exactly the column's width wide: it is cut to at most that
/// many drawn characters, then padded up to it.
pub proof fn law_fitted_cell_width(cell: Seq<char>, width: int)
    requires
        width >= 0,
    ensures
        width_from(fitted(cell, width), 0) == width,
{
    let t = truncate_from(cell, 0, 0, width);
    lemma_truncate_width(cell, 0, 0, width);
    let n = layout_sat_sub(width, width_from(t, 0) as int) as nat;
    lemma_width_append_spaces(t, n, 0);
}

proof fn lemma_keep_flagged_distinct(s: Seq<(Seq<char>, Seq<char>)>, keep: Seq<bool>)
    requires
        keep.len() == s.len(),
        forall|i: int, j: int| 0 <= i < j < s.len() ==> (#[trigger] s[i]).1 != (#[trigger] s[j]).1,
    ensures
        forall|i: int, j: int| 0 <= i < j < keep_flagged(s, keep).len() ==> (#[trigger] keep_flagged(s, keep)[i]).1
            != (#[trigger] keep_flagged(s, keep)[j]).1,
    decreases s.len(),
{
    if s.len() > 0 {
        let t = s.drop_first();
        let kt = keep.drop_first();
        assert forall|i: int, j: int| 0 <= i < j < t.len() implies (#[trigger] t[i]).1 != (#[trigger] t[j]).1 by {
            assert(t[i] == s[i + 1] && t[j] == s[j + 1]);
        }
        lemma_keep_flagged_distinct(t, kt);
        lemma_keep_flagged_members(t, kt);
        let r = keep_flagged(s, keep);
        let rt = keep_flagged(t, kt);
        if keep[0] {
            assert(r =~= seq![s[0]] + rt);
            assert forall|i: int, j: int| 0 <= i < j < r.len() implies (#[trigger] r[i]).1 != (#[trigger] r[j]).1 by {
                if i == 0 {
                    assert(r[j] == rt[j - 1]);
                    let m = choose|m: int| 0 <= m < t.len() && kt[m] && #[trigger] rt[j - 1] == t[m];
                    assert(t[m] == s[m + 1]);
                } else {
                    assert(r[i] == rt[i - 1] && r[j] == rt[j - 1]);
                }
            }
        } else {
            assert(r =~= rt);
        }
    }
}

proof fn lemma_keep_none<T>(s: Seq<T>, keep: Seq<bool>)
    requires
        forall|i: int| 0 <= i < keep.len() ==> !(#[trigger] keep[i]),
    ensures
        keep_flagged(s, keep).len() == 0,
    decreases s.len(),
{
    if s.len() > 0 && keep.len() > 0 {
        let kt = keep.drop_first();
        assert(!keep[0]);
        assert forall|i: int| 0 <= i < kt.len() implies !(#[trigger] kt[i]) by {
            assert(kt[i] == keep[i + 1]);
        }
        lemma_keep_none(s.drop_first(), kt);
    }
}

/// Whether each entry of a session table is keyed by its own generation id.
spec fn views_self_keyed(s: Seq<(Seq<char>, SessionView)>) -> bool {
    forall|i: int| 0 <= i < s.len() ==> (#[trigger] s[i]).0 == s[i].1.0
}

proof fn lemma_insert_self_keyed(s: Seq<(Seq<char>, SessionView)>, k: Seq<char>, v: SessionView)
    requires
        views_self_keyed(s),
        v.0 == k,
    ensures
        views_self_keyed(insert_entry(s, k, v)),
    decreases s.len(),
{
    if s.len() > 0 && s[0].0 != k && !chars_less(k, s[0].0) {
        let t = insert_entry(s.drop_first(), k, v);
        lemma_insert_self_keyed(s.drop_first(), k, v);
        let r = insert_entry(s, k, v);
        assert forall|i: int| 0 <= i < r.len() implies (#[trigger] r[i]).0 == r[i].1.0 by {
            if i > 0 {
                assert(r[i] == t[i - 1]);
            }
        }
    }
}

proof fn lemma_native_entries_self_keyed(ns: Seq<NativeSession>)
    ensures
        views_self_keyed(native_entries(ns)),
    decreases ns.len(),
{
    if ns.len() > 0 {
        lemma_native_entries_self_keyed(ns.drop_last());
        lemma_insert_self_keyed(
            native_entries(ns.drop_last()),
            generation_id(ns.last().creation_nanos),
            native_view(ns.last()),
        );
    }
}

pub(crate) proof fn lemma_native_table_keyed(n: Seq<(Seq<char>, ZellijSession)>, sessions: Seq<NativeSession>)
    requires
        session_views(n) == native_entries(sessions),
    ensures
        keyed_by_generation(n),
{
    lemma_native_entries_self_keyed(sessions);
    assert forall|i: int| 0 <= i < n.len() implies (#[trigger] n[i]).0 == n[i].1.generation_id@ by {
        assert(session_views(n)[i] == (n[i].0, zview(n[i].1)));
    }
}

/// A session update records each session under its own generation id. The fresh runtime
/// holds no sessions and nothing else changes the table, so this holds in every state.
pub proof fn law_session_sync_keys_by_generation(
    old: RuntimeState,
    new: RuntimeState,
    sessions: Seq<NativeSession>,
    changed: bool,
)
    requires
        keyed_by_generation(old.zellij_sessions@),
        sessions_synced(old, new, sessions, changed),
    ensures
        keyed_by_generation(new.zellij_sessions@),
{
    if changed {
        lemma_native_table_keyed(new.zellij_sessions@, sessions);
    }
}

/// Every step of the plugin keeps each session recorded under its own generation id: only a
/// session update changes the table, and it records each session under its id.
pub proof fn law_plugin_step_keeps_sessions_keyed(
    old: PluginCore,
    event: PluginEvent,
    new: PluginCore,
    redraw: bool,
    actions: Seq<PluginAction>,
)
    requires
        keyed_by_generation(old.runtime.zellij_sessions@),
        plugin_stepped(old, event, new, redraw, actions),
    ensures
        keyed_by_generation(new.runtime.zellij_sessions@),
{
    match event {
        PluginEvent::SessionUpdate(ss) => {
            let tr = choose|tr: StepTrace| #[trigger] session_update_traced(old, ss, new, redraw, actions, tr);
            law_session_sync_keys_by_generation(old.runtime, tr.rt1, ss@, tr.flag1);
        },
        PluginEvent::PaneClosed(pane) => {
            let tr = choose|tr: StepTrace| #[trigger] pane_closed_traced(old, pane, new, redraw, actions, tr);
            assert(new.runtime.zellij_sessions@ == old.runtime.zellij_sessions@);
        },
        PluginEvent::PaneUpdate(panes) => {
            let tr = choose|tr: StepTrace| #[trigger] pane_update_traced(old, panes, new, redraw, actions, tr);
            assert(new.runtime.zellij_sessions@ == old.runtime.zellij_sessions@);
        },
        PluginEvent::TabUpdate(tabs) => {
            let tr = choose|tr: StepTrace| #[trigger] tab_update_traced(old, tabs, new, redraw, actions, tr);
            assert(tr.rt1.zellij_sessions@ == old.runtime.zellij_sessions@);
            assert(new.runtime.zellij_sessions@ == old.runtime.zellij_sessions@);
        },
        PluginEvent::Timer(e) => {
            let tr = choose|tr: StepTrace| #[trigger] timer_traced(old, e, new, redraw, actions, tr);
            if e is Some && tr.fired is Some {
                assert(tr.rt1.zellij_sessions@ == old.runtime.zellij_sessions@);
                assert(tr.rt2.zellij_sessions@ == tr.rt1.zellij_sessions@);
                assert(tr.rt3.zellij_sessions@ == tr.rt2.zellij_sessions@);
                assert(tr.rt5.zellij_sessions@ == tr.rt3.zellij_sessions@);
                assert(tr.rt7.zellij_sessions@ == tr.rt5.zellij_sessions@);
            }
            assert(new.runtime.zellij_sessions@ == old.runtime.zellij_sessions@);
        },
        PluginEvent::CommandResult { exit_code, stdout, stderr, context } => {
            let tr = choose|tr: StepTrace| #[trigger] command_traced(
                old,
                exit_code,
                stdout@,
                stderr@,
                context@,
                new,
                redraw,
                actions,
                tr,
            );
            assert(tr.rt1.zellij_sessions@ == old.runtime.zellij_sessions@);
            assert(new.runtime.zellij_sessions@ == old.runtime.zellij_sessions@);
        },
        PluginEvent::PermissionResult(granted) => {
            let tr = choose|tr: StepTrace| #[trigger] permission_traced(old, granted, new, redraw, actions, tr);
            assert(tr.rt1.zellij_sessions@ == old.runtime.zellij_sessions@);
            assert(new.runtime.zellij_sessions@ == old.runtime.zellij_sessions@);
        },
        PluginEvent::RefreshRequested => {
            let tr = choose|tr: StepTrace| #[trigger] refresh_traced(old, new, redraw, actions, tr);
            assert(new.runtime.zellij_sessions@ == old.runtime.zellij_sessions@);
        },
        _ => {},
    }
}

/// A poll cycle keeps the polls distinct: it queues no generation already queued or being
/// polled, and no generation twice.
pub proof fn law_poll_cycle_keeps_polls_distinct(old: RuntimeState, new: RuntimeState)
    requires
        old.wf(),
        poll_cycle_begun(old, new),
    ensures
        polls_distinct(target_views(new.poll_queue@), new.active_poll),
{
    lemma_cycle_keeps_distinct(old, new);
}

pub(crate) proof fn lemma_cycle_keeps_distinct(old: RuntimeState, new: RuntimeState)
    requires
        old.zellij_sessions.wf(),
        keyed_by_generation(old.zellij_sessions@),
        polls_distinct(target_views(old.poll_queue@), old.active_poll),
        poll_cycle_begun(old, new),
    ensures
        polls_distinct(target_views(new.poll_queue@), new.active_poll),
{
    if old.session_polling_enabled {
        let ss = old.zellij_sessions@;
        let v = target_views(old.poll_queue@);
        let m = ss.map_values(|e: (Seq<char>, ZellijSession)| (e.1.name@, e.1.generation_id@));
        let f = ss.map_values(|e: (Seq<char>, ZellijSession)| poll_wanted(e.1, old.active_poll, old.poll_queue@));
        let c = cycle_targets(ss, old.active_poll, old.poll_queue@);
        assert(c == keep_flagged(m, f));
        assert forall|i: int, j: int| 0 <= i < j < m.len() implies (#[trigger] m[i]).1 != (#[trigger] m[j]).1 by {
            assert(m[i].1 == ss[i].0 && m[j].1 == ss[j].0);
            lemma_chars_less_irreflexive(ss[i].0);
        }
        lemma_keep_flagged_distinct(m, f);
        lemma_keep_flagged_members(m, f);
        let w = target_views(new.poll_queue@);
        assert(w == v + c);
        assert forall|i: int, j: int| 0 <= i < j < w.len() implies (#[trigger] w[i]).1 != (#[trigger] w[j]).1 by {
            if j >= v.len() {
                assert(w[j] == c[j - v.len()]);
                let a = choose|a: int| 0 <= a < m.len() && f[a] && #[trigger] c[j - v.len()] == m[a];
                assert(poll_wanted(ss[a].1, old.active_poll, old.poll_queue@));
                if i < v.len() {
                    assert(w[i] == v[i]);
                    assert(v[i].1 == old.poll_queue@[i].generation_id@);
                } else {
                    assert(w[i] == c[i - v.len()]);
                }
            } else {
                assert(w[i] == v[i] && w[j] == v[j]);
            }
        }
        assert forall|i: int| 0 <= i < w.len() implies match new.active_poll {
            Some(p) => (#[trigger] w[i]).1 != p.target.generation_id@,
            None => true,
        } by {
            if i >= v.len() {
                assert(w[i] == c[i - v.len()]);
                let a = choose|a: int| 0 <= a < m.len() && f[a] && #[trigger] c[i - v.len()] == m[a];
                assert(poll_wanted(ss[a].1, old.active_poll, old.poll_queue@));
            } else {
                assert(w[i] == v[i]);
            }
        }
    }
}

/// A second poll cycle right after a first queues nothing more.
pub proof fn law_second_poll_cycle_queues_nothing(old: RuntimeState, mid: RuntimeState, new: RuntimeState)
    requires
        poll_cycle_begun(old, mid),
        poll_cycle_begun(mid, new),
    ensures
        target_views(new.poll_queue@) == target_views(mid.poll_queue@),
{
    if old.session_polling_enabled {
        let ss = old.zellij_sessions@;
        let m = ss.map_values(|e: (Seq<char>, ZellijSession)| (e.1.name@, e.1.generation_id@));
        let f = ss.map_values(|e: (Seq<char>, ZellijSession)| poll_wanted(e.1, old.active_poll, old.poll_queue@));
        let c = cycle_targets(ss, old.active_poll, old.poll_queue@);
        assert(c == keep_flagged(m, f));
        lemma_keep_flagged_members(m, f);
        let v = target_views(old.poll_queue@);
        let w = target_views(mid.poll_queue@);
        assert(w == v + c);
        let f2 = ss.map_values(|e: (Seq<char>, ZellijSession)| poll_wanted(e.1, mid.active_poll, mid.poll_queue@));
        assert forall|i: int| 0 <= i < f2.len() implies !(#[trigger] f2[i]) by {
            let z = ss[i].1;
            if f[i] {
                let jj = choose|jj: int| 0 <= jj < c.len() && c[jj] == #[trigger] m[i];
                assert(w[v.len() + jj] == c[jj]);
                assert(w[v.len() + jj].1 == mid.poll_queue@[v.len() + jj].generation_id@);
                assert(mid.poll_queue@[v.len() + jj].generation_id@ == z.generation_id@);
            } else if !z.current {
                if old.active_poll is None || old.active_poll->0.target.generation_id@ != z.generation_id@ {
                    let k = choose|k: int| 0 <= k < old.poll_queue@.len() && (#[trigger] old.poll_queue@[k]).generation_id@
                        == z.generation_id@;
                    assert(v[k].1 == old.poll_queue@[k].generation_id@);
                    assert(w[k] == v[k]);
                    assert(w[k].1 == mid.poll_queue@[k].generation_id@);
                }
            }
        }
        lemma_keep_none(m, f2);
        assert(cycle_targets(mid.zellij_sessions@, mid.active_poll, mid.poll_queue@) =~= Seq::<(Seq<char>, Seq<char>)>::empty());
        assert(target_views(new.poll_queue@) =~= target_views(mid.poll_queue@));
    } else {
        assert(target_views(new.poll_queue@) =~= target_views(mid.poll_queue@));
    }
}

/// Cutting text to `max` drawn characters keeps the longest piece from its start that fits:
/// it draws `max` characters, or all of them when there are fewer, and it stops before a
/// drawn character only when `max` are drawn. It never cuts inside an escape sequence or a
/// button marker.
pub proof fn law_truncate_longest_prefix(s: Seq<char>, max: int)
    requires
        max >= 0,
    ensures
        ({
            let t = truncate_from(s, 0, 0, max);
            &&& width_from(t, 0) == if max < width_from(s, 0) {
                max
            } else {
                width_from(s, 0) as int
            }
            &&& t == s.take(t.len() as int)
            &&& t.len() < s.len() ==> zero_width_at(s, t.len() as int) is None && width_from(t, 0) == max
        }),
{
    lemma_truncate_exact(s, 0, 0, max);
    let t = truncate_from(s, 0, 0, max);
    assert(s.subrange(0, t.len() as int) =~= s.take(t.len() as int));
}

proof fn lemma_views_keep_flagged(q: Seq<PollTarget>, keep: Seq<bool>)
    ensures
        target_views(keep_flagged(q, keep)) == keep_flagged(target_views(q), keep),
    decreases q.len(),
{
    if q.len() > 0 && keep.len() > 0 {
        lemma_views_keep_flagged(q.drop_first(), keep.drop_first());
        assert(target_views(q).drop_first() =~= target_views(q.drop_first()));
        if keep[0] {
            assert(target_views(seq![q[0]] + keep_flagged(q.drop_first(), keep.drop_first())) =~= seq![
                target_views(q)[0],
            ] + target_views(keep_flagged(q.drop_first(), keep.drop_first())));
        }
    } else {
        assert(target_views(keep_flagged(q, keep)) =~= keep_flagged(target_views(q), keep));
    }
}

pub(crate) proof fn lemma_issue_keeps_distinct(old: RuntimeState, new: RuntimeState, r: Option<PollCommand>)
    requires
        polls_distinct(target_views(old.poll_queue@), old.active_poll),
        poll_issued(old, new, r),
    ensures
        polls_distinct(target_views(new.poll_queue@), new.active_poll),
{
    if old.session_polling_enabled && old.active_poll is None {
        lemma_first_pollable(old.poll_queue@, old.zellij_sessions@);
        if let Some(j) = first_pollable(old.poll_queue@, old.zellij_sessions@) {
            let v = target_views(old.poll_queue@);
            let w = target_views(new.poll_queue@);
            assert(w =~= v.skip(j + 1));
            assert forall|i: int, k: int| 0 <= i < k < w.len() implies (#[trigger] w[i]).1 != (#[trigger] w[k]).1 by {
                assert(w[i] == v[i + j + 1] && w[k] == v[k + j + 1]);
            }
            assert forall|i: int| 0 <= i < w.len() implies (#[trigger] w[i]).1 != new.active_poll->0.target.generation_id@ by {
                assert(w[i] == v[i + j + 1]);
                assert(v[j].1 == old.poll_queue@[j].generation_id@);
            }
        } else {
            assert(target_views(new.poll_queue@) =~= Seq::<(Seq<char>, Seq<char>)>::empty());
        }
    }
}

pub(crate) proof fn lemma_filter_keeps_distinct(
    q: Seq<PollTarget>,
    keep: Seq<bool>,
    active: Option<ActivePoll>,
    kept_active: Option<ActivePoll>,
)
    requires
        keep.len() == q.len(),
        polls_distinct(target_views(q), active),
        kept_active is None || kept_active == active,
    ensures
        polls_distinct(target_views(keep_flagged(q, keep)), kept_active),
{
    let v = target_views(q);
    lemma_views_keep_flagged(q, keep);
    lemma_keep_flagged_distinct(v, keep);
    lemma_keep_flagged_members(v, keep);
    let w = target_views(keep_flagged(q, keep));
    assert(w == keep_flagged(v, keep));
    if let Some(p) = kept_active {
        assert forall|i: int| 0 <= i < w.len() implies (#[trigger] w[i]).1 != p.target.generation_id@ by {
            let a = choose|a: int| 0 <= a < v.len() && keep[a] && #[trigger] keep_flagged(v, keep)[i] == v[a];
        }
    }
}

proof fn lemma_sync_keeps_distinct(old: RuntimeState, new: RuntimeState, sessions: Seq<NativeSession>, changed: bool)
    requires
        polls_distinct(target_views(old.poll_queue@), old.active_poll),
        sessions_synced(old, new, sessions, changed),
    ensures
        polls_distinct(target_views(new.poll_queue@), new.active_poll),
{
    if changed {
        let q = old.poll_queue@;
        lemma_filter_keeps_distinct(q, crate::sessions::live_targets(q, new.zellij_sessions@), old.active_poll, new.active_poll);
    }
}

/// Every step of the plugin keeps the polls distinct: no two queued polls, and no queued
/// poll and the running one, are of one generation.
pub proof fn law_plugin_step_keeps_polls_distinct(
    old: PluginCore,
    event: PluginEvent,
    new: PluginCore,
    redraw: bool,
    actions: Seq<PluginAction>,
)
    requires
        old.wf(),
        plugin_stepped(old, event, new, redraw, actions),
    ensures
        polls_distinct(target_views(new.runtime.poll_queue@), new.runtime.active_poll),
{
    let o = old.runtime;
    match event {
        PluginEvent::SessionUpdate(ss) => {
            let tr = choose|tr: StepTrace| #[trigger] session_update_traced(old, ss, new, redraw, actions, tr);
            lemma_sync_keeps_distinct(o, tr.rt1, ss@, tr.flag1);
        },
        PluginEvent::PaneClosed(pane) => {
            let tr = choose|tr: StepTrace| #[trigger] pane_closed_traced(old, pane, new, redraw, actions, tr);
            assert(target_views(new.runtime.poll_queue@) == target_views(o.poll_queue@));
        },
        PluginEvent::PaneUpdate(panes) => {
            let tr = choose|tr: StepTrace| #[trigger] pane_update_traced(old, panes, new, redraw, actions, tr);
            assert(target_views(new.runtime.poll_queue@) == target_views(o.poll_queue@));
        },
        PluginEvent::TabUpdate(tabs) => {
            let tr = choose|tr: StepTrace| #[trigger] tab_update_traced(old, tabs, new, redraw, actions, tr);
            assert(target_views(tr.rt1.poll_queue@) == target_views(o.poll_queue@));
            assert(target_views(new.runtime.poll_queue@) == target_views(o.poll_queue@));
        },
        PluginEvent::Timer(e) => {
            let tr = choose|tr: StepTrace| #[trigger] timer_traced(old, e, new, redraw, actions, tr);
            if e is Some && tr.fired is Some {
                let reason = tr.fired->0.reason;
                assert(target_views(tr.rt1.poll_queue@) == target_views(o.poll_queue@));
                assert(target_views(tr.rt2.poll_queue@) == target_views(tr.rt1.poll_queue@));
                assert(target_views(tr.rt3.poll_queue@) == target_views(tr.rt2.poll_queue@));
                assert(polls_distinct(target_views(tr.rt3.poll_queue@), tr.rt3.active_poll));
                if reason.poll_timeout {
                    assert(target_views(tr.rt4.poll_queue@) == target_views(tr.rt3.poll_queue@));
                    assert(polls_distinct(target_views(tr.rt4.poll_queue@), tr.rt4.active_poll));
                    if tr.flag1 {
                        lemma_issue_keeps_distinct(tr.rt4, tr.rt5, tr.poll1);
                    }
                }
                assert(polls_distinct(target_views(tr.rt5.poll_queue@), tr.rt5.active_poll));
                if reason.session_poll {
                    assert(tr.rt5.zellij_sessions@ == o.zellij_sessions@);
                    lemma_cycle_keeps_distinct(tr.rt5, tr.rt6);
                    lemma_issue_keeps_distinct(tr.rt6, tr.rt7, tr.poll2);
                }
            }
        },
        PluginEvent::CommandResult { exit_code, stdout, stderr, context } => {
            let tr = choose|tr: StepTrace| #[trigger] command_traced(
                old,
                exit_code,
                stdout@,
                stderr@,
                context@,
                new,
                redraw,
                actions,
                tr,
            );
            assert(target_views(tr.rt1.poll_queue@) == target_views(o.poll_queue@));
            assert(polls_distinct(target_views(tr.rt1.poll_queue@), tr.rt1.active_poll));
            if tr.flag1 {
                lemma_issue_keeps_distinct(tr.rt1, tr.rt2, tr.poll1);
            }
        },
        PluginEvent::PermissionResult(granted) => {
            let tr = choose|tr: StepTrace| #[trigger] permission_traced(old, granted, new, redraw, actions, tr);
            if granted {
                assert(target_views(tr.rt1.poll_queue@) == target_views(o.poll_queue@));
                assert(tr.rt1.zellij_sessions@ == o.zellij_sessions@);
                lemma_cycle_keeps_distinct(tr.rt1, tr.rt2);
                lemma_issue_keeps_distinct(tr.rt2, tr.rt3, tr.poll1);
            } else {
                assert(target_views(tr.rt1.poll_queue@) =~= Seq::<(Seq<char>, Seq<char>)>::empty());
            }
        },
        PluginEvent::RefreshRequested => {
            let tr = choose|tr: StepTrace| #[trigger] refresh_traced(old, new, redraw, actions, tr);
            lemma_cycle_keeps_distinct(o, tr.rt1);
            lemma_issue_keeps_distinct(tr.rt1, tr.rt2, tr.poll1);
        },
        _ => {},
    }
}

/// A session update keeps only the work of live generations: after a change, every queued
/// poll, the running poll and every summary and summary lease is of a session generation
/// the update reported; without a change nothing is touched.
pub proof fn law_session_sync_keeps_only_live_work(old: RuntimeState, new: RuntimeState, sessions: Seq<NativeSession>, changed: bool)
    requires
        sessions_synced(old, new, sessions, changed),
    ensures
        changed ==> {
            &&& forall|i: int| 0 <= i < new.poll_queue@.len() ==> find(new.zellij_sessions@, (#[trigger] new.poll_queue@[i]).generation_id@) is Some
            &&& (new.active_poll matches Some(p) ==> find(new.zellij_sessions@, p.target.generation_id@) is Some)
            &&& forall|i: int| 0 <= i < new.session_summaries@.len() ==> find(new.zellij_sessions@, (#[trigger] new.session_summaries@[i]).0) is Some
            &&& forall|i: int| 0 <= i < new.session_summary_leases@.len() ==> find(new.zellij_sessions@, (#[trigger] new.session_summary_leases@[i]).0) is Some
        },
        !changed ==> {
            &&& new.zellij_sessions@ == old.zellij_sessions@
            &&& new.poll_queue@ == old.poll_queue@
            &&& new.active_poll == old.active_poll
            &&& new.session_summaries@ == old.session_summaries@
            &&& new.session_summary_leases@ == old.session_summary_leases@
        },
{
    if changed {
        let live = new.zellij_sessions@;
        let q = old.poll_queue@;
        let fq = crate::sessions::live_targets(q, live);
        lemma_keep_flagged_members(q, fq);
        assert forall|i: int| 0 <= i < new.poll_queue@.len() implies find(live, (#[trigger] new.poll_queue@[i]).generation_id@) is Some by {
            let a = choose|a: int| 0 <= a < q.len() && fq[a] && #[trigger] keep_flagged(q, fq)[i] == q[a];
        }
        let sm = old.session_summaries@;
        let fs = crate::runtime::leases_of(sm, live);
        lemma_keep_flagged_members(sm, fs);
        assert forall|i: int| 0 <= i < new.session_summaries@.len() implies find(live, (#[trigger] new.session_summaries@[i]).0) is Some by {
            let a = choose|a: int| 0 <= a < sm.len() && fs[a] && #[trigger] keep_flagged(sm, fs)[i] == sm[a];
        }
        let sl = old.session_summary_leases@;
        let fl = crate::runtime::leases_of(sl, live);
        lemma_keep_flagged_members(sl, fl);
        assert forall|i: int| 0 <= i < new.session_summary_leases@.len() implies find(live, (#[trigger] new.session_summary_leases@[i]).0) is Some by {
            let a = choose|a: int| 0 <= a < sl.len() && fl[a] && #[trigger] keep_flagged(sl, fl)[i] == sl[a];
        }
    }
}

} // verus!
