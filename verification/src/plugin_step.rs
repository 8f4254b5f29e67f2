//! The plugin's decisions on Zellij events: a step from the plugin's state and an event to
//! its next state, whether to redraw, and the host actions to perform.
//!
//! The host runs the loop: it turns each Zellij event into a [`PluginEvent`], calls
//! [`plugin_update`], performs the returned [`PluginAction`]s and redraws when asked.

use vstd::prelude::*;
use std::collections::VecDeque;
use crate::click::{ClickAction, copy_action};
use crate::plugin::{PendingTemplate, PermissionRequestKind, action_in_grid, clicked_action,
    finish_pending_permission, pane_id_of, parse_pane_id};
use crate::polls::{PollCommand, has_remote, min_left, poll_cycle_begun, poll_gave_up, poll_issued,
    poll_result_handled, polling_set, summaries_expired};
use crate::runtime::{AGENT_LEASE, PaneId, RuntimeState, SESSION_POLL_INTERVAL, SESSION_POLL_TIMEOUT,
    SESSION_SUMMARY_LEASE, clock_advanced, expired_silent, keys_of_agents, min_lease_left,
    removed_for_pane, sat_sub};
use crate::sessions::{NativeSession, PaneSnapshot, TabSnapshot, focus_synced, native_ok,
    sessions_synced, tabs_synced};
use crate::text_map::TextMap;
use crate::timer::{DURATION_MAX, ExpiredTimer, RefreshTimer, TIMER_BOUNDARY_PADDING, TimerReason,
    earliest, next_timer, no_reason, poll_timeout_cancelled, scheduled, timer_fired};
use crate::laws::law_earliest_timer;

verus! {

/// Room the lease clock keeps below the largest duration: one minute, more than any timer
/// the plugin arms for its own work.
pub const HEADROOM: u128 = 60_000_000_000;

/// The plugin's state that its decisions read and change.
pub struct PluginCore {
    pub runtime: RuntimeState,
    pub timer: RefreshTimer,
    /// The click action under each cell of the frame last drawn.
    pub hitboxes: Vec<Vec<Option<ClickAction>>>,
    pub pending_template: Option<PendingTemplate>,
    pub pending_permissions: VecDeque<PermissionRequestKind>,
    /// The panes of the last pane update.
    pub last_panes: Option<Vec<PaneSnapshot>>,
}

/// A Zellij event, as the decisions read it.
pub enum PluginEvent {
    /// A left click at a row and column of the plugin pane.
    Click { row: isize, col: usize },
    PaneClosed(PaneId),
    PaneUpdate(Vec<PaneSnapshot>),
    TabUpdate(Vec<TabSnapshot>),
    SessionUpdate(Vec<NativeSession>),
    /// A timer fired after the given nanoseconds, or after a time that is no duration.
    Timer(Option<u128>),
    /// A command the plugin ran finished.
    CommandResult { exit_code: Option<i32>, stdout: Vec<u8>, stderr: Vec<u8>, context: TextMap<String> },
    /// The user answered the permission request: granted or denied.
    PermissionResult(bool),
    HostFolderChanged,
    HostFolderFailed(Option<String>),
    /// The user asked on the refresh pipe for the remote sessions to be polled now.
    RefreshRequested,
}

/// Something the host must do.
pub enum PluginAction {
    SwitchTab(u32),
    SwitchSession(String),
    FocusPane(PaneId),
    /// Runs the command that polls a remote session.
    RunPoll(PollCommand),
    /// Sets Zellij's timeout, in nanoseconds.
    SetTimeout(u128),
    ChangeHostFolder(String),
    /// (Re)builds the template renderer from this configuration.
    InitializeRenderer(TextMap<String>),
    /// The template cannot be used; shows this error.
    TemplateError(String),
    SetSelectable(bool),
}

impl PluginCore {
    /// The runtime and timer are well formed, and the next session poll stays within
    /// the largest duration with room to spare.
    pub open spec fn wf(&self) -> bool {
        &&& self.runtime.wf()
        &&& self.timer.wf()
        &&& (self.runtime.next_poll_at matches Some(t) ==> t + HEADROOM <= DURATION_MAX)
    }

    /// A plugin that knows nothing yet.
    pub fn new() -> (r: Self)
        ensures
            r.wf(),
            r.runtime.fresh(),
            r.timer.active is None,
            r.timer.active_due_at == 0,
            r.timer.active_reason == no_reason(),
            r.timer.active_started_at == 0,
            r.timer.superseded@.len() == 0,
            r.hitboxes@.len() == 0,
            r.pending_template is None,
            r.pending_permissions@.len() == 0,
            r.last_panes is None,
    {
        PluginCore {
            runtime: RuntimeState::new(),
            timer: RefreshTimer::new(),
            hitboxes: Vec::new(),
            pending_template: None,
            pending_permissions: VecDeque::new(),
            last_panes: None,
        }
    }
}

/// A candidate timer when there is a delay.
pub open spec fn opt_candidate(d: Option<u128>, reason: TimerReason) -> Seq<(u128, TimerReason)> {
    match d {
        Some(x) => seq![(x, reason)],
        None => Seq::empty(),
    }
}

/// How long until the next session poll is due, when polling is on and there is a remote
/// session.
pub open spec fn session_poll_delay(rt: RuntimeState) -> Option<u128> {
    if !rt.session_polling_enabled || !has_remote(rt.zellij_sessions@) {
        None
    } else {
        match rt.next_poll_at {
            Some(due) => Some(sat_sub(due, rt.lease_clock)),
            None => None,
        }
    }
}

/// How long the running poll has left before it times out.
pub open spec fn poll_timeout_delay(rt: RuntimeState) -> Option<u128> {
    match rt.active_poll {
        Some(p) => Some(sat_sub(SESSION_POLL_TIMEOUT, sat_sub(rt.lease_clock, p.started_at))),
        None => None,
    }
}

/// The timers the plugin wants: a redraw, agent expiry, the next poll cycle, the poll
/// timeout and summary expiry, each when it is due.
pub open spec fn timer_candidates(rt: RuntimeState, render_refresh: Option<u128>) -> Seq<(u128, TimerReason)> {
    opt_candidate(render_refresh, TimerReason { render_refresh: true, ..no_reason() })
        + opt_candidate(
        min_lease_left(keys_of_agents(rt.agents@), rt.agent_leases@, rt.lease_clock, AGENT_LEASE),
        TimerReason { agent_expiry: true, ..no_reason() },
    ) + opt_candidate(session_poll_delay(rt), TimerReason { session_poll: true, ..no_reason() })
        + opt_candidate(poll_timeout_delay(rt), TimerReason { poll_timeout: true, ..no_reason() })
        + opt_candidate(
        min_left(rt.session_summary_leases@, rt.lease_clock, SESSION_SUMMARY_LEASE),
        TimerReason { session_summary_expiry: true, ..no_reason() },
    )
}

/// The timer asks for the earliest of the candidates of `rt`, at `rt`'s lease time.
pub open spec fn rearmed(
    old: RefreshTimer,
    new: RefreshTimer,
    rt: RuntimeState,
    render_refresh: Option<u128>,
    r: Option<u128>,
) -> bool {
    scheduled(old, new, earliest(timer_candidates(rt, render_refresh)), rt.lease_clock, r)
}

proof fn lemma_min_lease_left_bound(keys: Seq<Seq<char>>, leases: Seq<(Seq<char>, u128)>, clock: u128, lease: u128)
    ensures
        min_lease_left(keys, leases, clock, lease) matches Some(d) ==> d <= lease,
    decreases keys.len(),
{
    if keys.len() > 0 {
        lemma_min_lease_left_bound(keys.drop_last(), leases, clock, lease);
    }
}

proof fn lemma_min_left_bound(leases: Seq<(Seq<char>, u128)>, clock: u128, lease: u128)
    ensures
        min_left(leases, clock, lease) matches Some(d) ==> d <= lease,
    decreases leases.len(),
{
    if leases.len() > 0 {
        lemma_min_left_bound(leases.drop_last(), clock, lease);
    }
}

fn push_candidate(cs: &mut Vec<(u128, TimerReason)>, d: Option<u128>, reason: TimerReason)
    ensures
        final(cs)@ == old(cs)@ + opt_candidate(d, reason),
{
    match d {
        Some(x) => {
            cs.push((x, reason));
            assert(final(cs)@ =~= old(cs)@ + opt_candidate(d, reason));
        },
        None => {
            assert(final(cs)@ =~= old(cs)@ + opt_candidate(d, reason));
        },
    }
}

/// Arms the timer for the earliest thing the plugin waits for.
fn arm_timer(timer: &mut RefreshTimer, rt: &RuntimeState, render_refresh: Option<u128>) -> (r: Option<u128>)
    requires
        old(timer).wf(),
        rt.wf(),
        rt.lease_clock + HEADROOM <= DURATION_MAX,
        rt.next_poll_at matches Some(t) ==> t + HEADROOM <= DURATION_MAX,
        render_refresh matches Some(d) ==> rt.lease_clock + d + TIMER_BOUNDARY_PADDING <= DURATION_MAX,
    ensures
        final(timer).wf(),
        rearmed(*old(timer), *final(timer), *rt, render_refresh, r),
{
    let mut cs: Vec<(u128, TimerReason)> = Vec::new();
    push_candidate(&mut cs, render_refresh, TimerReason::render_refresh());
    push_candidate(&mut cs, rt.next_agent_expiry(), TimerReason::agent_expiry());
    push_candidate(&mut cs, rt.next_session_poll(), TimerReason::session_poll());
    push_candidate(&mut cs, rt.next_poll_timeout(), TimerReason::poll_timeout());
    push_candidate(&mut cs, rt.next_session_summary_expiry(), TimerReason::session_summary_expiry());
    assert(cs@ =~= timer_candidates(*rt, render_refresh));
    let next = next_timer(&cs);
    let now = rt.lease_clock;
    proof {
        law_earliest_timer(cs@);
        lemma_min_lease_left_bound(keys_of_agents(rt.agents@), rt.agent_leases@, rt.lease_clock, AGENT_LEASE);
        lemma_min_left_bound(rt.session_summary_leases@, rt.lease_clock, SESSION_SUMMARY_LEASE);
        if let Some((d, _)) = next {
            let i = choose|i: int| 0 <= i < cs@.len() && (#[trigger] cs@[i]).0 == d;
            let c = cs@[i];
            assert(now + c.0 + TIMER_BOUNDARY_PADDING <= DURATION_MAX);
        }
    }
    timer.schedule(next, now)
}

/// Re-arms the plugin's timer after a redraw that asked for another in `render_refresh`
/// nanoseconds, if any.
pub fn plugin_schedule(core: &mut PluginCore, render_refresh: Option<u128>) -> (r: Option<u128>)
    requires
        old(core).wf(),
        old(core).runtime.lease_clock + HEADROOM <= DURATION_MAX,
        render_refresh matches Some(d) ==> old(core).runtime.lease_clock + d + TIMER_BOUNDARY_PADDING
            <= DURATION_MAX,
    ensures
        final(core).wf(),
        *final(core) == (PluginCore { timer: final(core).timer, ..*old(core) }),
        rearmed(old(core).timer, final(core).timer, old(core).runtime, render_refresh, r),
{
    arm_timer(&mut core.timer, &core.runtime, render_refresh)
}

/// The intermediate states and results of one step: what each operation of the step found
/// and left behind. Only the parts an event uses mean anything.
pub struct StepTrace {
    pub rt1: RuntimeState,
    pub rt2: RuntimeState,
    pub rt3: RuntimeState,
    pub rt4: RuntimeState,
    pub rt5: RuntimeState,
    pub rt6: RuntimeState,
    pub rt7: RuntimeState,
    pub timer1: RefreshTimer,
    pub timer2: RefreshTimer,
    pub fired: Option<ExpiredTimer>,
    pub count1: usize,
    pub count2: usize,
    pub flag1: bool,
    pub flag2: bool,
    pub poll1: Option<PollCommand>,
    pub poll2: Option<PollCommand>,
    pub delay1: Option<u128>,
    pub delay2: Option<u128>,
}

/// The action that runs a poll, when there is one.
pub open spec fn poll_actions(c: Option<PollCommand>) -> Seq<PluginAction> {
    match c {
        Some(x) => seq![PluginAction::RunPoll(x)],
        None => Seq::empty(),
    }
}

/// The action that sets a timeout, when there is one.
pub open spec fn timeout_actions(d: Option<u128>) -> Seq<PluginAction> {
    match d {
        Some(x) => seq![PluginAction::SetTimeout(x)],
        None => Seq::empty(),
    }
}

/// What the operations may assume of the state and event: the lease clock, the poll ids and
/// the times the event brings stay within range.
pub open spec fn step_bounds(core: PluginCore, event: PluginEvent) -> bool {
    &&& core.runtime.lease_clock + 2 * HEADROOM <= DURATION_MAX
    &&& core.runtime.next_poll_id + 2 <= u64::MAX
    &&& match event {
        PluginEvent::Timer(Some(e)) => core.timer.active is Some ==> core.timer.active_started_at + e + 2
            * HEADROOM <= DURATION_MAX,
        PluginEvent::SessionUpdate(ss) => forall|i: int| 0 <= i < ss@.len() ==> native_ok(#[trigger] ss@[i]),
        _ => true,
    }
}

/// A click: the action under it is passed on; switching a tab or a session asks for a redraw.
pub open spec fn click_step(old: PluginCore, row: isize, col: usize, new: PluginCore, redraw: bool, actions: Seq<PluginAction>) -> bool {
    &&& new == old
    &&& match action_in_grid(old.hitboxes@, row as int, col as int) {
        Some(ClickAction::SwitchTab { tab }) => redraw && actions == seq![PluginAction::SwitchTab(tab)],
        Some(ClickAction::SwitchToSession { session }) => redraw && actions == seq![PluginAction::SwitchSession(session)],
        Some(ClickAction::FocusPane { pane }) => !redraw && actions == match pane_id_of(pane@) {
            Some(p) => seq![PluginAction::FocusPane(p)],
            None => Seq::empty(),
        },
        None => !redraw && actions == Seq::<PluginAction>::empty(),
    }
}

/// A closed pane: its agents leave, and the plugin redraws.
pub open spec fn pane_closed_traced(old: PluginCore, pane: PaneId, new: PluginCore, redraw: bool, actions: Seq<PluginAction>, tr: StepTrace) -> bool {
    &&& removed_for_pane(old.runtime, tr.rt1, pane, tr.count1)
    &&& new == (PluginCore { runtime: tr.rt1, ..old })
    &&& redraw
    &&& actions == Seq::<PluginAction>::empty()
}

/// A pane update: the panes are kept and the focused pane follows them; a change of focus
/// asks for a redraw.
pub open spec fn pane_update_traced(old: PluginCore, panes: Vec<PaneSnapshot>, new: PluginCore, redraw: bool, actions: Seq<PluginAction>, tr: StepTrace) -> bool {
    &&& focus_synced(old.runtime, tr.rt1, panes@, tr.flag1)
    &&& new == (PluginCore { runtime: tr.rt1, last_panes: Some(panes), ..old })
    &&& redraw == tr.flag1
    &&& actions == Seq::<PluginAction>::empty()
}

/// A tab update: the tabs follow it, then the focus follows the last panes in the new
/// active tab; any change asks for a redraw.
pub open spec fn tab_update_traced(old: PluginCore, tabs: Vec<TabSnapshot>, new: PluginCore, redraw: bool, actions: Seq<PluginAction>, tr: StepTrace) -> bool {
    &&& tabs_synced(old.runtime, tr.rt1, tabs@, tr.flag1)
    &&& match old.last_panes {
        Some(ps) => focus_synced(tr.rt1, tr.rt2, ps@, tr.flag2),
        None => tr.rt2 == tr.rt1 && !tr.flag2,
    }
    &&& new == (PluginCore { runtime: tr.rt2, ..old })
    &&& redraw == (tr.flag1 || tr.flag2)
    &&& actions == Seq::<PluginAction>::empty()
}

/// A session update: the native sessions follow it and the timer is re-armed; a change asks
/// for a redraw.
pub open spec fn session_update_traced(old: PluginCore, sessions: Vec<NativeSession>, new: PluginCore, redraw: bool, actions: Seq<PluginAction>, tr: StepTrace) -> bool {
    &&& sessions_synced(old.runtime, tr.rt1, sessions@, tr.flag1)
    &&& rearmed(old.timer, tr.timer1, tr.rt1, None, tr.delay1)
    &&& new == (PluginCore { runtime: tr.rt1, timer: tr.timer1, ..old })
    &&& redraw == tr.flag1
    &&& actions == timeout_actions(tr.delay1)
}

/// A timer firing. One that matches no armed timer changes nothing else. One that fires the
/// armed timer moves the lease clock to its time and does what its reasons ask, in order:
/// expires silent agents, expires summaries, gives up a timed-out poll (issuing the next),
/// and starts a poll cycle (issuing a poll); then the timer is re-armed. It asks for a redraw
/// when a redraw was due or anything was removed or given up.
pub open spec fn timer_traced(old: PluginCore, elapsed: Option<u128>, new: PluginCore, redraw: bool, actions: Seq<PluginAction>, tr: StepTrace) -> bool {
    match elapsed {
        None => new == old && !redraw && actions == Seq::<PluginAction>::empty(),
        Some(el) => {
            &&& timer_fired(old.timer, tr.timer1, el, tr.fired)
            &&& match tr.fired {
                None => new == (PluginCore { timer: tr.timer1, ..old }) && !redraw && actions
                    == Seq::<PluginAction>::empty(),
                Some(f) => {
                    let reason = f.reason;
                    &&& clock_advanced(old.runtime, tr.rt1, f.fired_at)
                    &&& if reason.agent_expiry {
                        expired_silent(tr.rt1, tr.rt2, tr.count1)
                    } else {
                        tr.rt2 == tr.rt1 && tr.count1 == 0
                    }
                    &&& if reason.session_summary_expiry {
                        summaries_expired(tr.rt2, tr.rt3, tr.count2)
                    } else {
                        tr.rt3 == tr.rt2 && tr.count2 == 0
                    }
                    &&& if reason.poll_timeout {
                        &&& poll_gave_up(tr.rt3, tr.rt4, tr.flag1)
                        &&& if tr.flag1 {
                            poll_issued(tr.rt4, tr.rt5, tr.poll1)
                        } else {
                            tr.rt5 == tr.rt4 && tr.poll1 is None
                        }
                    } else {
                        tr.rt5 == tr.rt3 && !tr.flag1 && tr.poll1 is None
                    }
                    &&& if reason.session_poll {
                        poll_cycle_begun(tr.rt5, tr.rt6) && poll_issued(tr.rt6, tr.rt7, tr.poll2)
                    } else {
                        tr.rt7 == tr.rt5 && tr.poll2 is None
                    }
                    &&& rearmed(tr.timer1, tr.timer2, tr.rt7, None, tr.delay1)
                    &&& new == (PluginCore { runtime: tr.rt7, timer: tr.timer2, ..old })
                    &&& redraw == (reason.render_refresh || tr.count1 > 0 || tr.count2 > 0 || tr.flag1)
                    &&& actions == poll_actions(tr.poll1) + poll_actions(tr.poll2) + timeout_actions(tr.delay1)
                },
            }
        },
    }
}

/// A finished command: an answer to the running poll ends it, cancels its timeout and
/// issues the next poll; the timer is then re-armed. Only an answer asks for a redraw.
pub open spec fn command_traced(
    old: PluginCore,
    exit_code: Option<i32>,
    stdout: Seq<u8>,
    stderr: Seq<u8>,
    context: Seq<(Seq<char>, String)>,
    new: PluginCore,
    redraw: bool,
    actions: Seq<PluginAction>,
    tr: StepTrace,
) -> bool {
    &&& poll_result_handled(old.runtime, tr.rt1, exit_code, stdout, stderr, context, tr.flag1)
    &&& if tr.flag1 {
        poll_timeout_cancelled(old.timer, tr.timer1, tr.rt1.lease_clock, tr.delay1) && poll_issued(tr.rt1, tr.rt2, tr.poll1)
    } else {
        tr.timer1 == old.timer && tr.delay1 is None && tr.rt2 == tr.rt1 && tr.poll1 is None
    }
    &&& rearmed(tr.timer1, tr.timer2, tr.rt2, None, tr.delay2)
    &&& new == (PluginCore { runtime: tr.rt2, timer: tr.timer2, ..old })
    &&& redraw == tr.flag1
    &&& actions == timeout_actions(tr.delay1) + poll_actions(tr.poll1) + timeout_actions(tr.delay2)
}

/// The message a denied permission leaves for a pending external template.
pub open spec fn permission_denied_text() -> Seq<char> {
    "template_file requires FullHdAccess permission"@
}

/// A permission answer: the oldest pending request is done. A pending external template is
/// mounted when granted and fails when denied. Session polling follows the answer; when
/// granted a poll cycle starts and the timer is re-armed. With no request left pending the
/// pane stops being selectable. The plugin redraws.
pub open spec fn permission_traced(old: PluginCore, granted: bool, new: PluginCore, redraw: bool, actions: Seq<PluginAction>, tr: StepTrace) -> bool {
    let pp = old.pending_permissions@;
    let rest = poll_actions(tr.poll1) + timeout_actions(tr.delay1) + if new.pending_permissions@.len() == 0 {
        seq![PluginAction::SetSelectable(false)]
    } else {
        Seq::empty()
    };
    &&& polling_set(old.runtime, tr.rt1, granted, tr.flag1)
    &&& if granted {
        &&& poll_cycle_begun(tr.rt1, tr.rt2)
        &&& poll_issued(tr.rt2, tr.rt3, tr.poll1)
        &&& rearmed(old.timer, tr.timer1, tr.rt3, None, tr.delay1)
    } else {
        tr.rt3 == tr.rt1 && tr.poll1 is None && tr.timer1 == old.timer && tr.delay1 is None
    }
    &&& new.runtime == tr.rt3
    &&& new.timer == tr.timer1
    &&& new.hitboxes == old.hitboxes
    &&& new.last_panes == old.last_panes
    &&& new.pending_permissions@ == if pp.len() == 0 {
        pp
    } else {
        pp.drop_first()
    }
    &&& redraw
    &&& match old.pending_template {
        Some(p) => {
            &&& actions.len() >= 1
            &&& actions.skip(1) == rest
            &&& if granted {
                &&& new.pending_template == old.pending_template
                &&& actions[0] matches PluginAction::ChangeHostFolder(f) && f@ == p.host_folder@
            } else {
                &&& new.pending_template is None
                &&& actions[0] matches PluginAction::TemplateError(m) && m@ == permission_denied_text()
            }
        },
        None => new.pending_template is None && actions == rest,
    }
}

/// The folder of a pending external template was mounted: the renderer is built from its
/// configuration.
pub open spec fn host_folder_step(old: PluginCore, new: PluginCore, redraw: bool, actions: Seq<PluginAction>) -> bool {
    match old.pending_template {
        Some(p) => new == (PluginCore { pending_template: None, ..old }) && redraw && actions == seq![
            PluginAction::InitializeRenderer(p.configuration),
        ],
        None => new == old && !redraw && actions == Seq::<PluginAction>::empty(),
    }
}

/// Mounting the folder of a pending external template failed: the template fails with the
/// host's message.
pub open spec fn host_folder_failed_step(old: PluginCore, err: Option<String>, new: PluginCore, redraw: bool, actions: Seq<PluginAction>) -> bool {
    match old.pending_template {
        Some(_) => {
            &&& new == (PluginCore { pending_template: None, ..old })
            &&& redraw
            &&& actions.len() == 1
            &&& actions[0] matches PluginAction::TemplateError(m) && m@ == match err {
                Some(e) => e@,
                None => "failed to mount host filesystem"@,
            }
        },
        None => new == old && !redraw && actions == Seq::<PluginAction>::empty(),
    }
}

/// A refresh request: a poll cycle starts now, a poll is issued and the timer re-armed.
pub open spec fn refresh_traced(old: PluginCore, new: PluginCore, redraw: bool, actions: Seq<PluginAction>, tr: StepTrace) -> bool {
    &&& poll_cycle_begun(old.runtime, tr.rt1)
    &&& poll_issued(tr.rt1, tr.rt2, tr.poll1)
    &&& rearmed(old.timer, tr.timer1, tr.rt2, None, tr.delay1)
    &&& new == (PluginCore { runtime: tr.rt2, timer: tr.timer1, ..old })
    &&& !redraw
    &&& actions == poll_actions(tr.poll1) + timeout_actions(tr.delay1)
}

/// What one event does to the plugin: its next state, whether it redraws, and the actions.
pub open spec fn plugin_stepped(old: PluginCore, event: PluginEvent, new: PluginCore, redraw: bool, actions: Seq<PluginAction>) -> bool {
    match event {
        PluginEvent::Click { row, col } => click_step(old, row, col, new, redraw, actions),
        PluginEvent::PaneClosed(pane) => exists|tr: StepTrace| #[trigger] pane_closed_traced(old, pane, new, redraw, actions, tr),
        PluginEvent::PaneUpdate(panes) => exists|tr: StepTrace| #[trigger] pane_update_traced(old, panes, new, redraw, actions, tr),
        PluginEvent::TabUpdate(tabs) => exists|tr: StepTrace| #[trigger] tab_update_traced(old, tabs, new, redraw, actions, tr),
        PluginEvent::SessionUpdate(ss) => exists|tr: StepTrace| #[trigger] session_update_traced(old, ss, new, redraw, actions, tr),
        PluginEvent::Timer(e) => exists|tr: StepTrace| #[trigger] timer_traced(old, e, new, redraw, actions, tr),
        PluginEvent::CommandResult { exit_code, stdout, stderr, context } => exists|tr: StepTrace| #[trigger] command_traced(
            old,
            exit_code,
            stdout@,
            stderr@,
            context@,
            new,
            redraw,
            actions,
            tr,
        ),
        PluginEvent::PermissionResult(granted) => exists|tr: StepTrace| #[trigger] permission_traced(old, granted, new, redraw, actions, tr),
        PluginEvent::HostFolderChanged => host_folder_step(old, new, redraw, actions),
        PluginEvent::HostFolderFailed(err) => host_folder_failed_step(old, err, new, redraw, actions),
        PluginEvent::RefreshRequested => exists|tr: StepTrace| #[trigger] refresh_traced(old, new, redraw, actions, tr),
    }
}

/// A trace with every part standing for nothing done.
pub open spec fn blank_trace(rt: RuntimeState, t: RefreshTimer) -> StepTrace {
    StepTrace {
        rt1: rt,
        rt2: rt,
        rt3: rt,
        rt4: rt,
        rt5: rt,
        rt6: rt,
        rt7: rt,
        timer1: t,
        timer2: t,
        fired: None,
        count1: 0,
        count2: 0,
        flag1: false,
        flag2: false,
        poll1: None,
        poll2: None,
        delay1: None,
        delay2: None,
    }
}

fn push_poll(actions: &mut Vec<PluginAction>, c: Option<PollCommand>)
    ensures
        final(actions)@ == old(actions)@ + poll_actions(c),
{
    let ghost g = c;
    match c {
        Some(x) => actions.push(PluginAction::RunPoll(x)),
        None => {},
    }
    assert(final(actions)@ =~= old(actions)@ + poll_actions(g));
}

fn push_timeout(actions: &mut Vec<PluginAction>, d: Option<u128>)
    ensures
        final(actions)@ == old(actions)@ + timeout_actions(d),
{
    match d {
        Some(x) => actions.push(PluginAction::SetTimeout(x)),
        None => {},
    }
    assert(final(actions)@ =~= old(actions)@ + timeout_actions(d));
}

fn step_click(core: &PluginCore, row: isize, col: usize) -> (r: (bool, Vec<PluginAction>))
    ensures
        click_step(*core, row, col, *core, r.0, r.1@),
{
    let mut actions: Vec<PluginAction> = Vec::new();
    let redraw = match clicked_action(&core.hitboxes, row, col) {
        Some(ClickAction::SwitchTab { tab }) => {
            actions.push(PluginAction::SwitchTab(tab));
            true
        },
        Some(ClickAction::SwitchToSession { session }) => {
            actions.push(PluginAction::SwitchSession(session));
            true
        },
        Some(ClickAction::FocusPane { pane }) => {
            if let Some(p) = parse_pane_id(pane.as_str()) {
                actions.push(PluginAction::FocusPane(p));
            }
            false
        },
        None => false,
    };
    proof {
        match action_in_grid(core.hitboxes@, row as int, col as int) {
            Some(ClickAction::SwitchTab { tab }) => assert(actions@ =~= seq![PluginAction::SwitchTab(tab)]),
            Some(ClickAction::SwitchToSession { session }) => assert(actions@ =~= seq![PluginAction::SwitchSession(session)]),
            Some(ClickAction::FocusPane { pane }) => {
                match pane_id_of(pane@) {
                    Some(p) => assert(actions@ =~= seq![PluginAction::FocusPane(p)]),
                    None => assert(actions@ =~= Seq::<PluginAction>::empty()),
                }
            },
            None => assert(actions@ =~= Seq::<PluginAction>::empty()),
        }
    }
    (redraw, actions)
}

fn step_pane_closed(core: &mut PluginCore, pane: PaneId) -> (r: (bool, Vec<PluginAction>))
    requires
        old(core).wf(),
    ensures
        final(core).wf(),
        exists|tr: StepTrace| #[trigger] pane_closed_traced(*old(core), pane, *final(core), r.0, r.1@, tr),
{
    let n = core.runtime.remove_agents_for_pane(pane);
    let actions: Vec<PluginAction> = Vec::new();
    let ghost tr = StepTrace { rt1: core.runtime, count1: n, ..blank_trace(core.runtime, core.timer) };
    let r = (true, actions);
    proof {
        assert(r.1@ =~= Seq::<PluginAction>::empty());
        assert(pane_closed_traced(*old(core), pane, *core, r.0, r.1@, tr));
    }
    r
}

fn step_pane_update(core: &mut PluginCore, panes: Vec<PaneSnapshot>) -> (r: (bool, Vec<PluginAction>))
    requires
        old(core).wf(),
    ensures
        final(core).wf(),
        exists|tr: StepTrace| #[trigger] pane_update_traced(*old(core), panes, *final(core), r.0, r.1@, tr),
{
    let changed = core.runtime.sync_pane_focus(&panes);
    let ghost rt1 = core.runtime;
    let ghost ps = panes;
    core.last_panes = Some(panes);
    let actions: Vec<PluginAction> = Vec::new();
    let ghost tr = StepTrace { rt1, flag1: changed, ..blank_trace(rt1, core.timer) };
    let r = (changed, actions);
    proof {
        assert(r.1@ =~= Seq::<PluginAction>::empty());
        assert(pane_update_traced(*old(core), ps, *core, r.0, r.1@, tr));
    }
    r
}

fn step_tab_update(core: &mut PluginCore, tabs: Vec<TabSnapshot>) -> (r: (bool, Vec<PluginAction>))
    requires
        old(core).wf(),
    ensures
        final(core).wf(),
        exists|tr: StepTrace| #[trigger] tab_update_traced(*old(core), tabs, *final(core), r.0, r.1@, tr),
{
    let c1 = core.runtime.sync_tabs(&tabs);
    let ghost rt1 = core.runtime;
    let c2 = match &core.last_panes {
        Some(ps) => core.runtime.sync_pane_focus(ps),
        None => false,
    };
    let actions: Vec<PluginAction> = Vec::new();
    let ghost tr = StepTrace { rt1, rt2: core.runtime, flag1: c1, flag2: c2, ..blank_trace(rt1, core.timer) };
    let r = (c1 || c2, actions);
    proof {
        assert(r.1@ =~= Seq::<PluginAction>::empty());
        assert(tab_update_traced(*old(core), tabs, *core, r.0, r.1@, tr));
    }
    r
}

fn step_session_update(core: &mut PluginCore, sessions: Vec<NativeSession>) -> (r: (bool, Vec<PluginAction>))
    requires
        old(core).wf(),
        old(core).runtime.lease_clock + HEADROOM <= DURATION_MAX,
        forall|i: int| 0 <= i < sessions@.len() ==> native_ok(#[trigger] sessions@[i]),
    ensures
        final(core).wf(),
        exists|tr: StepTrace| #[trigger] session_update_traced(*old(core), sessions, *final(core), r.0, r.1@, tr),
{
    let changed = core.runtime.sync_zellij_sessions(&sessions);
    let ghost rt1 = core.runtime;
    let d = arm_timer(&mut core.timer, &core.runtime, None);
    let mut actions: Vec<PluginAction> = Vec::new();
    push_timeout(&mut actions, d);
    let ghost tr = StepTrace { rt1, timer1: core.timer, flag1: changed, delay1: d, ..blank_trace(rt1, core.timer) };
    let r = (changed, actions);
    proof {
        assert(r.1@ =~= timeout_actions(d));
        assert(session_update_traced(*old(core), sessions, *core, r.0, r.1@, tr));
    }
    r
}

fn step_timer(core: &mut PluginCore, elapsed: Option<u128>) -> (r: (bool, Vec<PluginAction>))
    requires
        old(core).wf(),
        old(core).runtime.lease_clock + 2 * HEADROOM <= DURATION_MAX,
        old(core).runtime.next_poll_id + 2 <= u64::MAX,
        elapsed matches Some(e) ==> (old(core).timer.active is Some ==> old(core).timer.active_started_at + e
            + 2 * HEADROOM <= DURATION_MAX),
    ensures
        final(core).wf(),
        exists|tr: StepTrace| #[trigger] timer_traced(*old(core), elapsed, *final(core), r.0, r.1@, tr),
{
    let el = match elapsed {
        Some(el) => el,
        None => {
            let actions: Vec<PluginAction> = Vec::new();
            let ghost tr = blank_trace(core.runtime, core.timer);
            let r = (false, actions);
            proof {
                assert(r.1@ =~= Seq::<PluginAction>::empty());
                assert(timer_traced(*old(core), elapsed, *core, r.0, r.1@, tr));
            }
            return r;
        },
    };
    let fired = core.timer.expired(el);
    let ghost t1 = core.timer;
    let f = match fired {
        Some(f) => f,
        None => {
            let actions: Vec<PluginAction> = Vec::new();
            let ghost tr = StepTrace { timer1: t1, fired, ..blank_trace(core.runtime, core.timer) };
            let r = (false, actions);
            proof {
                assert(r.1@ =~= Seq::<PluginAction>::empty());
                assert(timer_traced(*old(core), elapsed, *core, r.0, r.1@, tr));
            }
            return r;
        },
    };
    core.runtime.advance_lease_clock_to(f.fired_at);
    let ghost rt1 = core.runtime;
    let mut count1: usize = 0;
    if f.reason.agent_expiry {
        count1 = core.runtime.expire_silent_agents();
    }
    let ghost rt2 = core.runtime;
    let mut count2: usize = 0;
    if f.reason.session_summary_expiry {
        count2 = core.runtime.expire_session_summaries();
    }
    let ghost rt3 = core.runtime;
    let mut gave_up = false;
    let mut poll1: Option<PollCommand> = None;
    let ghost mut rt4 = rt3;
    if f.reason.poll_timeout {
        gave_up = core.runtime.poll_timed_out();
        proof {
            rt4 = core.runtime;
        }
        if gave_up {
            poll1 = core.runtime.next_poll_command();
        }
    }
    let ghost rt5 = core.runtime;
    let mut poll2: Option<PollCommand> = None;
    let ghost mut rt6 = rt5;
    if f.reason.session_poll {
        core.runtime.begin_session_poll_cycle();
        proof {
            rt6 = core.runtime;
        }
        poll2 = core.runtime.next_poll_command();
    }
    let ghost rt7 = core.runtime;
    let ghost g1 = poll1;
    let ghost g2 = poll2;
    let d = arm_timer(&mut core.timer, &core.runtime, None);
    let mut actions: Vec<PluginAction> = Vec::new();
    push_poll(&mut actions, poll1);
    push_poll(&mut actions, poll2);
    push_timeout(&mut actions, d);
    let redraw = f.reason.render_refresh || count1 > 0 || count2 > 0 || gave_up;
    let ghost tr = StepTrace {
        rt1,
        rt2,
        rt3,
        rt4,
        rt5,
        rt6,
        rt7,
        timer1: t1,
        timer2: core.timer,
        fired,
        count1,
        count2,
        flag1: gave_up,
        flag2: false,
        poll1: g1,
        poll2: g2,
        delay1: d,
        delay2: None,
    };
    let r = (redraw, actions);
    proof {
        assert(r.1@ =~= poll_actions(g1) + poll_actions(g2) + timeout_actions(d));
        assert(timer_traced(*old(core), elapsed, *core, r.0, r.1@, tr));
    }
    r
}

fn step_command(
    core: &mut PluginCore,
    exit_code: Option<i32>,
    stdout: Vec<u8>,
    stderr: Vec<u8>,
    context: TextMap<String>,
) -> (r: (bool, Vec<PluginAction>))
    requires
        old(core).wf(),
        old(core).runtime.lease_clock + 2 * HEADROOM <= DURATION_MAX,
        old(core).runtime.next_poll_id + 2 <= u64::MAX,
        context.wf(),
    ensures
        final(core).wf(),
        exists|tr: StepTrace| #[trigger] command_traced(
            *old(core),
            exit_code,
            stdout@,
            stderr@,
            context@,
            *final(core),
            r.0,
            r.1@,
            tr,
        ),
{
    let answered = core.runtime.handle_poll_result(exit_code, stdout.as_slice(), stderr.as_slice(), &context);
    let ghost rt1 = core.runtime;
    let mut d1: Option<u128> = None;
    let mut poll1: Option<PollCommand> = None;
    if answered {
        let now = core.runtime.lease_clock;
        d1 = core.timer.cancel_poll_timeout(now);
        poll1 = core.runtime.next_poll_command();
    }
    let ghost t1 = core.timer;
    let ghost rt2 = core.runtime;
    let ghost g1 = poll1;
    let d2 = arm_timer(&mut core.timer, &core.runtime, None);
    let mut actions: Vec<PluginAction> = Vec::new();
    push_timeout(&mut actions, d1);
    push_poll(&mut actions, poll1);
    push_timeout(&mut actions, d2);
    let ghost tr = StepTrace {
        rt1,
        rt2,
        timer1: t1,
        timer2: core.timer,
        flag1: answered,
        poll1: g1,
        delay1: d1,
        delay2: d2,
        ..blank_trace(rt1, t1)
    };
    let r = (answered, actions);
    proof {
        assert(r.1@ =~= timeout_actions(d1) + poll_actions(g1) + timeout_actions(d2));
        assert(command_traced(*old(core), exit_code, stdout@, stderr@, context@, *core, r.0, r.1@, tr));
    }
    r
}

fn step_permission(core: &mut PluginCore, granted: bool) -> (r: (bool, Vec<PluginAction>))
    requires
        old(core).wf(),
        old(core).runtime.lease_clock + 2 * HEADROOM <= DURATION_MAX,
        old(core).runtime.next_poll_id + 2 <= u64::MAX,
    ensures
        final(core).wf(),
        exists|tr: StepTrace| #[trigger] permission_traced(*old(core), granted, *final(core), r.0, r.1@, tr),
{
    let _request = finish_pending_permission(&mut core.pending_permissions);
    let mut actions: Vec<PluginAction> = Vec::new();
    if core.pending_template.is_some() {
        if granted {
            match &core.pending_template {
                Some(p) => actions.push(PluginAction::ChangeHostFolder(p.host_folder.clone())),
                None => {},
            }
        } else {
            core.pending_template = None;
            actions.push(PluginAction::TemplateError("template_file requires FullHdAccess permission".to_owned()));
        }
    }
    let ghost head = actions@;
    let enabled = core.runtime.set_session_polling_enabled(granted);
    let ghost rt1 = core.runtime;
    let ghost mut rt2 = rt1;
    let mut poll1: Option<PollCommand> = None;
    let mut d1: Option<u128> = None;
    if granted {
        core.runtime.begin_session_poll_cycle();
        proof {
            rt2 = core.runtime;
        }
        poll1 = core.runtime.next_poll_command();
    }
    let ghost rt3 = core.runtime;
    let ghost g1 = poll1;
    if granted {
        d1 = arm_timer(&mut core.timer, &core.runtime, None);
    }
    push_poll(&mut actions, poll1);
    push_timeout(&mut actions, d1);
    if core.pending_permissions.len() == 0 {
        actions.push(PluginAction::SetSelectable(false));
    }
    let ghost tr = StepTrace {
        rt1,
        rt2,
        rt3,
        timer1: core.timer,
        flag1: enabled,
        poll1: g1,
        delay1: d1,
        ..blank_trace(rt1, core.timer)
    };
    let r = (true, actions);
    proof {
        reveal_strlit("template_file requires FullHdAccess permission");
        if old(core).pending_permissions@.len() == 0 {
            assert(core.pending_permissions@ =~= old(core).pending_permissions@);
        }
        let rest = poll_actions(g1) + timeout_actions(d1) + if core.pending_permissions@.len() == 0 {
            seq![PluginAction::SetSelectable(false)]
        } else {
            Seq::empty()
        };
        assert(r.1@ =~= head + rest);
        if old(core).pending_template is Some {
            assert(r.1@.skip(1) =~= rest);
        } else {
            assert(head =~= Seq::<PluginAction>::empty());
        }
        assert(permission_traced(*old(core), granted, *core, r.0, r.1@, tr));
    }
    r
}

fn step_host_folder(core: &mut PluginCore) -> (r: (bool, Vec<PluginAction>))
    ensures
        host_folder_step(*old(core), *final(core), r.0, r.1@),
{
    let mut actions: Vec<PluginAction> = Vec::new();
    match core.pending_template.take() {
        Some(p) => {
            let ghost c = p.configuration;
            actions.push(PluginAction::InitializeRenderer(p.configuration));
            assert(actions@ =~= seq![PluginAction::InitializeRenderer(c)]);
            (true, actions)
        },
        None => {
            assert(actions@ =~= Seq::<PluginAction>::empty());
            (false, actions)
        },
    }
}

fn step_host_folder_failed(core: &mut PluginCore, err: Option<String>) -> (r: (bool, Vec<PluginAction>))
    ensures
        host_folder_failed_step(*old(core), err, *final(core), r.0, r.1@),
{
    let mut actions: Vec<PluginAction> = Vec::new();
    if core.pending_template.is_some() {
        core.pending_template = None;
        let message = match err {
            Some(e) => e,
            None => "failed to mount host filesystem".to_owned(),
        };
        actions.push(PluginAction::TemplateError(message));
        (true, actions)
    } else {
        assert(actions@ =~= Seq::<PluginAction>::empty());
        (false, actions)
    }
}

fn step_refresh(core: &mut PluginCore) -> (r: (bool, Vec<PluginAction>))
    requires
        old(core).wf(),
        old(core).runtime.lease_clock + 2 * HEADROOM <= DURATION_MAX,
        old(core).runtime.next_poll_id + 2 <= u64::MAX,
    ensures
        final(core).wf(),
        exists|tr: StepTrace| #[trigger] refresh_traced(*old(core), *final(core), r.0, r.1@, tr),
{
    core.runtime.begin_session_poll_cycle();
    let ghost rt1 = core.runtime;
    let poll1 = core.runtime.next_poll_command();
    let ghost rt2 = core.runtime;
    let ghost g1 = poll1;
    let d1 = arm_timer(&mut core.timer, &core.runtime, None);
    let mut actions: Vec<PluginAction> = Vec::new();
    push_poll(&mut actions, poll1);
    push_timeout(&mut actions, d1);
    let ghost tr = StepTrace { rt1, rt2, timer1: core.timer, poll1: g1, delay1: d1, ..blank_trace(rt1, core.timer) };
    let r = (false, actions);
    proof {
        assert(r.1@ =~= poll_actions(g1) + timeout_actions(d1));
        assert(refresh_traced(*old(core), *core, r.0, r.1@, tr));
    }
    r
}

/// Decides what an event does: updates the plugin's state and returns whether to redraw
/// and the actions for the host, in order.
pub fn plugin_update(core: &mut PluginCore, event: PluginEvent) -> (r: (bool, Vec<PluginAction>))
    requires
        old(core).wf(),
        step_bounds(*old(core), event),
        event matches PluginEvent::CommandResult { context, .. } ==> context.wf(),
    ensures
        final(core).wf(),
        plugin_stepped(*old(core), event, *final(core), r.0, r.1@),
{
    match event {
        PluginEvent::Click { row, col } => step_click(core, row, col),
        PluginEvent::PaneClosed(pane) => step_pane_closed(core, pane),
        PluginEvent::PaneUpdate(panes) => step_pane_update(core, panes),
        PluginEvent::TabUpdate(tabs) => step_tab_update(core, tabs),
        PluginEvent::SessionUpdate(sessions) => step_session_update(core, sessions),
        PluginEvent::Timer(elapsed) => step_timer(core, elapsed),
        PluginEvent::CommandResult { exit_code, stdout, stderr, context } => step_command(
            core,
            exit_code,
            stdout,
            stderr,
            context,
        ),
        PluginEvent::PermissionResult(granted) => step_permission(core, granted),
        PluginEvent::HostFolderChanged => step_host_folder(core),
        PluginEvent::HostFolderFailed(err) => step_host_folder_failed(core, err),
        PluginEvent::RefreshRequested => step_refresh(core),
    }
}

fn natives_ok(ss: &Vec<NativeSession>) -> (r: bool)
    ensures
        r == forall|i: int| 0 <= i < ss@.len() ==> native_ok(#[trigger] ss@[i]),
{
    let mut i: usize = 0;
    while i < ss.len()
        invariant
            i <= ss@.len(),
            forall|j: int| 0 <= j < i ==> native_ok(#[trigger] ss@[j]),
        decreases ss@.len() - i,
    {
        let n = &ss[i];
        if n.connected_clients > usize::MAX - n.web_client_count || n.creation_nanos > DURATION_MAX {
            assert(!native_ok(ss@[i as int]));
            return false;
        }
        i = i + 1;
    }
    true
}

/// Whether an event's times and counts stay within the ranges the step works in.
pub fn step_in_range(core: &PluginCore, event: &PluginEvent) -> (r: bool)
    ensures
        r == step_bounds(*core, *event),
{
    if core.runtime.lease_clock > DURATION_MAX - 2 * HEADROOM {
        return false;
    }
    if core.runtime.next_poll_id > u64::MAX - 2 {
        return false;
    }
    match event {
        PluginEvent::Timer(Some(e)) => {
            if core.timer.active.is_some() {
                let start = core.timer.active_started_at;
                start <= DURATION_MAX - 2 * HEADROOM && *e <= DURATION_MAX - 2 * HEADROOM - start
            } else {
                true
            }
        },
        PluginEvent::SessionUpdate(ss) => natives_ok(ss),
        _ => true,
    }
}

} // verus!
