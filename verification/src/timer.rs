//! The plugin's single refresh timer.
//!
//! Zellij timers carry no id and cannot be cancelled: a timer that fires reports only how
//! long it ran. The plugin keeps one armed timer, remembers the ones it superseded, and
//! matches each firing against them by duration. Times are nanosecond counts.

use vstd::prelude::*;

verus! {

/// Padding added to every requested delay so the timer fires just past the boundary it
/// waits for (ten milliseconds).
pub const TIMER_BOUNDARY_PADDING: u128 = 10_000_000;

/// The longest duration, in nanoseconds: `u64::MAX` seconds and 999,999,999 nanoseconds.
pub const DURATION_MAX: u128 = 18_446_744_073_709_551_615_999_999_999;

/// Why the timer is armed; several reasons can share one firing.
#[derive(Clone, Copy, Debug, PartialEq, Eq, Structural)]
pub struct TimerReason {
    pub render_refresh: bool,
    pub agent_expiry: bool,
    pub session_poll: bool,
    pub snapshot_poll: bool,
    pub poll_timeout: bool,
    pub session_summary_expiry: bool,
}

/// The reasons of `a` and `b` together.
pub open spec fn merged(a: TimerReason, b: TimerReason) -> TimerReason {
    TimerReason {
        render_refresh: a.render_refresh || b.render_refresh,
        agent_expiry: a.agent_expiry || b.agent_expiry,
        session_poll: a.session_poll || b.session_poll,
        snapshot_poll: a.snapshot_poll || b.snapshot_poll,
        poll_timeout: a.poll_timeout || b.poll_timeout,
        session_summary_expiry: a.session_summary_expiry || b.session_summary_expiry,
    }
}

/// Whether any reason is set.
pub open spec fn any_reason(r: TimerReason) -> bool {
    r.render_refresh || r.agent_expiry || r.session_poll || r.snapshot_poll || r.poll_timeout
        || r.session_summary_expiry
}

/// No reason set.
pub open spec fn no_reason() -> TimerReason {
    TimerReason {
        render_refresh: false,
        agent_expiry: false,
        session_poll: false,
        snapshot_poll: false,
        poll_timeout: false,
        session_summary_expiry: false,
    }
}

impl TimerReason {
    /// No reason set.
    pub fn none() -> (r: Self)
        ensures
            r == no_reason(),
    {
        TimerReason {
            render_refresh: false,
            agent_expiry: false,
            session_poll: false,
            snapshot_poll: false,
            poll_timeout: false,
            session_summary_expiry: false,
        }
    }

    /// A redraw is due.
    pub fn render_refresh() -> (r: Self)
        ensures
            r == (TimerReason { render_refresh: true, ..no_reason() }),
    {
        TimerReason { render_refresh: true, ..TimerReason::none() }
    }

    /// An agent lease runs out.
    pub fn agent_expiry() -> (r: Self)
        ensures
            r == (TimerReason { agent_expiry: true, ..no_reason() }),
    {
        TimerReason { agent_expiry: true, ..TimerReason::none() }
    }

    /// A remote-session poll is due.
    pub fn session_poll() -> (r: Self)
        ensures
            r == (TimerReason { session_poll: true, ..no_reason() }),
    {
        TimerReason { session_poll: true, ..TimerReason::none() }
    }

    /// An agent snapshot poll is due.
    pub fn snapshot_poll() -> (r: Self)
        ensures
            r == (TimerReason { snapshot_poll: true, ..no_reason() }),
    {
        TimerReason { snapshot_poll: true, ..TimerReason::none() }
    }

    /// A running poll times out.
    pub fn poll_timeout() -> (r: Self)
        ensures
            r == (TimerReason { poll_timeout: true, ..no_reason() }),
    {
        TimerReason { poll_timeout: true, ..TimerReason::none() }
    }

    /// A remote session summary goes stale.
    pub fn session_summary_expiry() -> (r: Self)
        ensures
            r == (TimerReason { session_summary_expiry: true, ..no_reason() }),
    {
        TimerReason { session_summary_expiry: true, ..TimerReason::none() }
    }

    /// Adds the reasons of `other`.
    pub fn merge(&mut self, other: Self)
        ensures
            *final(self) == merged(*old(self), other),
    {
        self.render_refresh = self.render_refresh || other.render_refresh;
        self.agent_expiry = self.agent_expiry || other.agent_expiry;
        self.session_poll = self.session_poll || other.session_poll;
        self.snapshot_poll = self.snapshot_poll || other.snapshot_poll;
        self.poll_timeout = self.poll_timeout || other.poll_timeout;
        self.session_summary_expiry = self.session_summary_expiry || other.session_summary_expiry;
    }

    /// Whether any reason is set.
    pub fn any(self) -> (r: bool)
        ensures
            r == any_reason(self),
    {
        self.render_refresh || self.agent_expiry || self.session_poll || self.snapshot_poll
            || self.poll_timeout || self.session_summary_expiry
    }
}

/// A firing of the armed timer: its reasons and the lease time it fired at.
#[derive(Clone, Copy, Debug, PartialEq, Eq, Structural)]
pub struct ExpiredTimer {
    pub reason: TimerReason,
    pub fired_at: u128,
}

/// The one timer the plugin keeps armed, and the timers it superseded but cannot cancel.
pub struct RefreshTimer {
    /// The delay the armed timer was set with.
    pub active: Option<u128>,
    pub active_due_at: u128,
    pub active_reason: TimerReason,
    pub active_started_at: u128,
    /// Delays of superseded timers that have not fired yet.
    pub superseded: Vec<u128>,
}

/// `|a - b|`.
pub open spec fn abs_diff(a: int, b: int) -> int {
    if a >= b {
        a - b
    } else {
        b - a
    }
}

/// The index of the first delay in `s` nearest to `e`.
pub open spec fn nearest(s: Seq<u128>, e: u128) -> Option<int>
    decreases s.len(),
{
    if s.len() == 0 {
        None
    } else {
        match nearest(s.drop_last(), e) {
            None => Some(s.len() - 1),
            Some(i) => if abs_diff(s.last() as int, e as int) < abs_diff(s[i] as int, e as int) {
                Some(s.len() - 1)
            } else {
                Some(i)
            },
        }
    }
}

proof fn lemma_nearest(s: Seq<u128>, e: u128)
    ensures
        s.len() == 0 <==> nearest(s, e) is None,
        nearest(s, e) matches Some(i) ==> 0 <= i < s.len(),
    decreases s.len(),
{
    if s.len() > 0 {
        lemma_nearest(s.drop_last(), e);
    }
}

/// `s` with entry `i` replaced by the last entry and the last entry dropped, as
/// `Vec::swap_remove` leaves it.
pub open spec fn swap_removed(s: Seq<u128>, i: int) -> Seq<u128> {
    s.update(i, s.last()).drop_last()
}

fn diff(a: u128, b: u128) -> (r: u128)
    ensures
        r == abs_diff(a as int, b as int),
{
    if a >= b {
        a - b
    } else {
        b - a
    }
}

fn nearest_index(s: &Vec<u128>, e: u128) -> (r: Option<usize>)
    ensures
        match r {
            Some(i) => nearest(s@, e) == Some(i as int),
            None => nearest(s@, e) is None,
        },
{
    let mut best: Option<usize> = None;
    let mut i: usize = 0;
    while i < s.len()
        invariant
            i <= s@.len(),
            match best {
                Some(b) => b < i && nearest(s@.take(i as int), e) == Some(b as int),
                None => i == 0,
            },
        decreases s@.len() - i,
    {
        let ghost t = s@.take(i + 1);
        assert(t.drop_last() =~= s@.take(i as int));
        best = match best {
            None => Some(i),
            Some(b) => {
                if diff(s[i], e) < diff(s[b], e) {
                    Some(i)
                } else {
                    Some(b)
                }
            },
        };
        i = i + 1;
    }
    assert(s@.take(i as int) =~= s@);
    best
}

/// What `schedule` does: a request due sooner than the armed timer (or with none armed) arms
/// the timer and supersedes the old one; one due at the same time only adds its reasons; a
/// later one is dropped.
pub open spec fn scheduled(
    old: RefreshTimer,
    new: RefreshTimer,
    requested: Option<(u128, TimerReason)>,
    now: u128,
    r: Option<u128>,
) -> bool {
    match requested {
        None => r is None && new == old,
        Some((d, reason)) => {
            let delay = (d + TIMER_BOUNDARY_PADDING) as u128;
            let due = (now + delay) as u128;
            if old.active is None || due < old.active_due_at {
                &&& r == Some(delay)
                &&& new.active == Some(delay)
                &&& new.active_due_at == due
                &&& new.active_reason == reason
                &&& new.active_started_at == now
                &&& new.superseded@ == match old.active {
                    Some(a) => old.superseded@.push(a),
                    None => old.superseded@,
                }
            } else {
                &&& r is None
                &&& new.active == old.active
                &&& new.active_due_at == old.active_due_at
                &&& new.active_started_at == old.active_started_at
                &&& new.superseded@ == old.superseded@
                &&& new.active_reason == if due == old.active_due_at {
                    merged(old.active_reason, reason)
                } else {
                    old.active_reason
                }
            }
        },
    }
}

impl RefreshTimer {
    /// Every time the timer holds is a duration.
    pub open spec fn wf(&self) -> bool {
        &&& self.active_due_at <= DURATION_MAX
        &&& self.active_started_at <= DURATION_MAX
        &&& (self.active matches Some(a) ==> a <= DURATION_MAX)
    }

    /// No timer armed.
    pub fn new() -> (r: Self)
        ensures
            r.wf(),
            r.active is None,
            r.active_due_at == 0,
            r.active_reason == no_reason(),
            r.active_started_at == 0,
            r.superseded@.len() == 0,
    {
        RefreshTimer {
            active: None,
            active_due_at: 0,
            active_reason: TimerReason::none(),
            active_started_at: 0,
            superseded: Vec::new(),
        }
    }

    /// Asks for a firing `requested.0` from `now` for `requested.1`.
    ///
    /// Arms the timer when none is armed or when the request is due sooner (the armed one is
    /// then superseded) and returns the delay to set; a request due at the same time only adds
    /// its reasons, and a later one is dropped.
    pub fn schedule(&mut self, requested: Option<(u128, TimerReason)>, now: u128) -> (r: Option<u128>)
        requires
            old(self).wf(),
            requested matches Some((d, _)) ==> now + d + TIMER_BOUNDARY_PADDING <= DURATION_MAX,
        ensures
            final(self).wf(),
            scheduled(*old(self), *final(self), requested, now, r),
    {
        let (requested, reason) = match requested {
            Some(x) => x,
            None => {
                return None;
            },
        };
        let requested = requested + TIMER_BOUNDARY_PADDING;
        let requested_due_at = now + requested;
        match self.active {
            None => {
                self.active = Some(requested);
                self.active_due_at = requested_due_at;
                self.active_reason = reason;
                self.active_started_at = now;
                Some(requested)
            },
            Some(active) => {
                if requested_due_at < self.active_due_at {
                    self.superseded.push(active);
                    self.active = Some(requested);
                    self.active_due_at = requested_due_at;
                    self.active_reason = reason;
                    self.active_started_at = now;
                    Some(requested)
                } else {
                    if requested_due_at == self.active_due_at {
                        self.active_reason.merge(reason);
                    }
                    None
                }
            },
        }
    }

    /// Handles a timer firing after `elapsed`.
    ///
    /// The firing is matched by duration: the superseded timer nearest to `elapsed` is
    /// dropped instead when it is at least as near as the armed one (or when none is armed);
    /// otherwise the armed timer has fired, is disarmed, and its reasons are returned with the
    /// lease time it fired at.
    pub fn expired(&mut self, elapsed: u128) -> (r: Option<ExpiredTimer>)
        requires
            old(self).wf(),
            old(self).active is Some ==> old(self).active_started_at + elapsed <= DURATION_MAX,
        ensures
            final(self).wf(),
            timer_fired(*old(self), *final(self), elapsed, r),
    {
        proof {
            lemma_nearest(self.superseded@, elapsed);
        }
        let active = match self.active {
            None => {
                if let Some(index) = nearest_index(&self.superseded, elapsed) {
                    self.superseded.swap_remove(index);
                }
                return None;
            },
            Some(a) => a,
        };
        let active_distance = diff(active, elapsed);
        if let Some(index) = nearest_index(&self.superseded, elapsed) {
            if diff(self.superseded[index], elapsed) <= active_distance {
                self.superseded.swap_remove(index);
                return None;
            }
        }
        let expired = ExpiredTimer { reason: self.active_reason, fired_at: self.active_started_at + elapsed };
        self.active = None;
        Some(expired)
    }

    /// Drops the poll timeout from the armed timer's reasons.
    ///
    /// When no other reason is left the armed timer is superseded and `None` returned;
    /// otherwise it is superseded by a new timer for the time still left, whose delay is
    /// returned.
    pub fn cancel_poll_timeout(&mut self, now: u128) -> (r: Option<u128>)
        requires
            old(self).wf(),
            now <= DURATION_MAX,
        ensures
            final(self).wf(),
            poll_timeout_cancelled(*old(self), *final(self), now, r),
    {
        if !self.active_reason.poll_timeout {
            return None;
        }
        self.active_reason.poll_timeout = false;
        let remaining_reason = self.active_reason;
        if let Some(active) = self.active {
            self.superseded.push(active);
        }
        self.active = None;
        if !remaining_reason.any() {
            return None;
        }
        let remaining = self.active_due_at.saturating_sub(now);
        self.active = Some(remaining);
        self.active_due_at = now + remaining;
        self.active_started_at = now;
        self.active_reason = remaining_reason;
        Some(remaining)
    }
}

impl Default for RefreshTimer {
    fn default() -> (r: Self)
        ensures
            r.wf(),
            r.active is None,
            r.superseded@.len() == 0,
            r.active_reason == no_reason(),
    {
        RefreshTimer::new()
    }
}

/// The earliest of the candidate timers, the reasons of all candidates due then merged.
pub open spec fn earliest(cs: Seq<(u128, TimerReason)>) -> Option<(u128, TimerReason)>
    decreases cs.len(),
{
    if cs.len() == 0 {
        None
    } else {
        match earliest(cs.drop_last()) {
            None => Some(cs.last()),
            Some((d, r)) => if cs.last().0 < d {
                Some(cs.last())
            } else if cs.last().0 == d {
                Some((d, merged(r, cs.last().1)))
            } else {
                Some((d, r))
            },
        }
    }
}

/// Picks the timer to ask for among the candidates: the earliest, with the reasons of every
/// candidate due at the same time.
pub fn next_timer(candidates: &Vec<(u128, TimerReason)>) -> (r: Option<(u128, TimerReason)>)
    ensures
        r == earliest(candidates@),
{
    let mut next: Option<(u128, TimerReason)> = None;
    let mut i: usize = 0;
    while i < candidates.len()
        invariant
            i <= candidates@.len(),
            next == earliest(candidates@.take(i as int)),
        decreases candidates@.len() - i,
    {
        let ghost t = candidates@.take(i + 1);
        assert(t.drop_last() =~= candidates@.take(i as int));
        let (delay, reason) = candidates[i];
        next = match next {
            None => Some((delay, reason)),
            Some((d, r)) => {
                if delay < d {
                    Some((delay, reason))
                } else if delay == d {
                    let mut m = r;
                    m.merge(reason);
                    Some((d, m))
                } else {
                    Some((d, r))
                }
            },
        };
        i = i + 1;
    }
    assert(candidates@.take(i as int) =~= candidates@);
    next
}

/// What cancelling the poll timeout does: the armed timer loses that reason, re-armed for the rest.
pub open spec fn poll_timeout_cancelled(old: RefreshTimer, new: RefreshTimer, now: u128, r: Option<u128>) -> bool {
    &&& !old.active_reason.poll_timeout ==> r is None && new == old
    &&& old.active_reason.poll_timeout ==> {
        let rest = TimerReason { poll_timeout: false, ..old.active_reason };
        let pushed = match old.active {
            Some(a) => old.superseded@.push(a),
            None => old.superseded@,
        };
        let remaining = if old.active_due_at > now {
            (old.active_due_at - now) as u128
        } else {
            0
        };
        &&& new.superseded@ == pushed
        &&& new.active_reason == rest
        &&& if !any_reason(rest) {
            &&& r is None
            &&& new.active is None
            &&& new.active_due_at == old.active_due_at
            &&& new.active_started_at == old.active_started_at
        } else {
            &&& r == Some(remaining)
            &&& new.active == Some(remaining)
            &&& new.active_due_at == now + remaining
            &&& new.active_started_at == now
        }
    }
}

/// What a firing of `elapsed` does: it is matched to the armed timer or to a superseded one.
pub open spec fn timer_fired(old: RefreshTimer, new: RefreshTimer, elapsed: u128, r: Option<ExpiredTimer>) -> bool {
    &&& new.active_due_at == old.active_due_at
    &&& new.active_started_at == old.active_started_at
    &&& new.active_reason == old.active_reason
    &&& ({
        let s = old.superseded@;
        match old.active {
            None => {
                &&& r is None
                &&& new.active is None
                &&& new.superseded@ == match nearest(s, elapsed) {
                    Some(i) => swap_removed(s, i),
                    None => s,
                }
            },
            Some(a) => match nearest(s, elapsed) {
                Some(i) if abs_diff(s[i] as int, elapsed as int) <= abs_diff(a as int, elapsed as int) => {
                    &&& r is None
                    &&& new.active == old.active
                    &&& new.superseded@ == swap_removed(s, i)
                },
                _ => {
                    &&& r == Some(ExpiredTimer {
                        reason: old.active_reason,
                        fired_at: (old.active_started_at + elapsed) as u128,
                    })
                    &&& new.active is None
                    &&& new.superseded@ == s
                },
            },
        }
    })
}

} // verus!
