//! Polling the sidebars of other Zellij sessions for their agent counts.
//!
//! Remote sessions are polled one at a time: a cycle queues every remote generation not yet
//! queued, a command is issued for the next one still live, and its reply is checked against
//! the poll it answers before the counts are kept under a lease. This sidebar answers the
//! same request for its own session.

use vstd::prelude::*;
use crate::json::{JsonDoc, JsonScalar, get_record_field, json_document, json_string, parse_json,
    push_json_string, record_field};
use crate::runtime::{ActivePoll, AgentReport, AgentState, PollTarget, RuntimeState, SessionSummary,
    ZellijSession, opt_view, sat_sub, SESSION_POLL_INTERVAL, SESSION_POLL_TIMEOUT,
    SESSION_SUMMARY_LEASE};
use crate::sessions::copy_target;
use crate::text::{chars_of, decimal, parse_decimal, parse_unsigned, push_decimal, push_text,
    same_text, string_of, trim, trim_str};
use crate::text_map::{TextMap, find, insert_entry, keep_flagged, lemma_insert_find,
    lemma_insert_keys, lemma_insert_sorted, lemma_keep_flagged_len, lemma_map_insert, map_entries};
use crate::timer::DURATION_MAX;
use std::collections::VecDeque;
use vstd::utf8::{decode_utf8, valid_utf8};

verus! {

/// The message recorded while polling is not permitted.
pub open spec fn unavailable_text() -> Seq<char> {
    "session synchronization unavailable"@
}

/// Whether any recorded session is not the current one.
pub open spec fn has_remote(sessions: Seq<(Seq<char>, ZellijSession)>) -> bool {
    exists|i: int| 0 <= i < sessions.len() && !(#[trigger] sessions[i]).1.current
}

/// The views of queued poll targets: session name and generation id.
pub open spec fn target_views(q: Seq<PollTarget>) -> Seq<(Seq<char>, Seq<char>)> {
    q.map_values(|t: PollTarget| (t.session_name@, t.generation_id@))
}

/// Whether a cycle queues a poll of session `z`: it is remote, not being polled and not
/// queued.
pub open spec fn poll_wanted(z: ZellijSession, active: Option<ActivePoll>, queued: Seq<PollTarget>) -> bool {
    &&& !z.current
    &&& match active {
        Some(p) => p.target.generation_id@ != z.generation_id@,
        None => true,
    }
    &&& !exists|i: int| 0 <= i < queued.len() && (#[trigger] queued[i]).generation_id@ == z.generation_id@
}

/// The polls a cycle queues, in generation id order.
pub open spec fn cycle_targets(
    sessions: Seq<(Seq<char>, ZellijSession)>,
    active: Option<ActivePoll>,
    queued: Seq<PollTarget>,
) -> Seq<(Seq<char>, Seq<char>)> {
    keep_flagged(
        sessions.map_values(|e: (Seq<char>, ZellijSession)| (e.1.name@, e.1.generation_id@)),
        sessions.map_values(|e: (Seq<char>, ZellijSession)| poll_wanted(e.1, active, queued)),
    )
}

/// Whether a queued target can be polled: its generation is recorded, remote, and still
/// has the target's name.
pub open spec fn pollable(t: PollTarget, sessions: Seq<(Seq<char>, ZellijSession)>) -> bool {
    match find(sessions, t.generation_id@) {
        Some(z) => !z.current && z.name@ == t.session_name@,
        None => false,
    }
}

/// The index of the first pollable target.
pub open spec fn first_pollable(q: Seq<PollTarget>, sessions: Seq<(Seq<char>, ZellijSession)>) -> Option<int>
    decreases q.len(),
{
    if q.len() == 0 {
        None
    } else if pollable(q[0], sessions) {
        Some(0)
    } else {
        match first_pollable(q.drop_first(), sessions) {
            Some(i) => Some(i + 1),
            None => None,
        }
    }
}

pub(crate) proof fn lemma_first_pollable(q: Seq<PollTarget>, sessions: Seq<(Seq<char>, ZellijSession)>)
    ensures
        first_pollable(q, sessions) matches Some(i) ==> 0 <= i < q.len() && pollable(q[i], sessions),
    decreases q.len(),
{
    if q.len() > 0 {
        lemma_first_pollable(q.drop_first(), sessions);
    }
}

/// The summary request sent to the sidebar of generation `generation_id`.
pub open spec fn request_json(generation_id: Seq<char>) -> Seq<char> {
    "{\"version\":1,\"generation_id\":"@ + json_string(generation_id) + "}"@
}

/// One summary poll to run.
#[derive(Clone, Debug, PartialEq, Eq)]
pub struct PollCommand {
    pub id: u64,
    pub session_name: String,
    pub generation_id: String,
    pub payload: String,
}

/// The text views of a map of text.
pub open spec fn text_entries(m: Seq<(Seq<char>, String)>) -> Seq<(Seq<char>, Seq<char>)> {
    m.map_values(|e: (Seq<char>, String)| (e.0, e.1@))
}

/// The value of key `k` of a map of text.
pub open spec fn text_at(m: Seq<(Seq<char>, String)>, k: Seq<char>) -> Option<Seq<char>> {
    match find(m, k) {
        Some(v) => Some(v@),
        None => None,
    }
}

/// The operation name a poll's command context carries.
pub open spec fn poll_operation() -> Seq<char> {
    "agenthreads:summary-poll"@
}

impl PollCommand {
    /// The context a poll's command runs with, which comes back with its result: the
    /// operation, the poll id, the session name and the generation id.
    pub fn context(&self) -> (r: TextMap<String>)
        ensures
            r.wf(),
            text_at(r@, "operation"@) == Some(poll_operation()),
            text_at(r@, "poll_id"@) == Some(decimal(self.id as nat)),
            text_at(r@, "session"@) == Some(self.session_name@),
            text_at(r@, "generation_id"@) == Some(self.generation_id@),
            forall|i: int| 0 <= i < r@.len() ==> {
                let k = (#[trigger] r@[i]).0;
                k == "operation"@ || k == "poll_id"@ || k == "session"@ || k == "generation_id"@
            },
    {
        proof {
            reveal_strlit("operation");
            reveal_strlit("poll_id");
            reveal_strlit("session");
            reveal_strlit("generation_id");
        }
        let mut m: TextMap<String> = TextMap::new();
        let ghost m0 = m@;
        let op = "agenthreads:summary-poll".to_owned();
        proof {
            lemma_insert_find(m0, "operation"@, op);
            lemma_insert_keys(m0, "operation"@, op);
        }
        m.insert("operation".to_owned(), op);
        let mut id: Vec<char> = Vec::new();
        push_decimal(&mut id, self.id as u128);
        let ids = string_of(&id);
        let ghost m1 = m@;
        proof {
            lemma_insert_find(m1, "poll_id"@, ids);
            lemma_insert_keys(m1, "poll_id"@, ids);
        }
        m.insert("poll_id".to_owned(), ids);
        let ghost m2 = m@;
        let s1 = self.session_name.clone();
        proof {
            lemma_insert_find(m2, "session"@, s1);
            lemma_insert_keys(m2, "session"@, s1);
        }
        m.insert("session".to_owned(), s1);
        let ghost m3 = m@;
        let g1 = self.generation_id.clone();
        proof {
            lemma_insert_find(m3, "generation_id"@, g1);
            lemma_insert_keys(m3, "generation_id"@, g1);
        }
        m.insert("generation_id".to_owned(), g1);
        m
    }
}


impl RuntimeState {
    /// Everything but the poll state and the last error is as in `old`.
    pub open spec fn keeps_all_but_polls(&self, old: RuntimeState) -> bool {
        &&& self.agents@ == old.agents@
        &&& self.agent_leases@ == old.agent_leases@
        &&& self.session_summaries@ == old.session_summaries@
        &&& self.session_summary_leases@ == old.session_summary_leases@
        &&& self.lease_clock == old.lease_clock
        &&& self.zellij_sessions@ == old.zellij_sessions@
        &&& self.tabs@ == old.tabs@
        &&& self.events@ == old.events@
        &&& self.pipe_count == old.pipe_count
        &&& self.focused_pane == old.focused_pane
        &&& self.active_tab == old.active_tab
        &&& self.active_tab_position == old.active_tab_position
        &&& self.zellij_session == old.zellij_session
    }

    /// Turns remote-session polling on (the first cycle one interval away) or off (all poll
    /// work dropped and polling reported unavailable). Always asks for a redraw.
    pub fn set_session_polling_enabled(&mut self, enabled: bool) -> (r: bool)
        requires
            old(self).wf(),
            enabled ==> old(self).lease_clock + SESSION_POLL_INTERVAL <= DURATION_MAX,
        ensures
            final(self).wf(),
            polling_set(*old(self), *final(self), enabled, r),
    {
        self.session_polling_enabled = enabled;
        if enabled {
            self.next_poll_at = Some(self.lease_clock + SESSION_POLL_INTERVAL);
            let clear = match &self.last_error {
                Some(e) => same_text(e.as_str(), "session synchronization unavailable"),
                None => false,
            };
            if clear {
                self.last_error = None;
            }
        } else {
            self.poll_queue = VecDeque::new();
            self.active_poll = None;
            self.next_poll_at = None;
            self.last_error = Some("session synchronization unavailable".to_owned());
        }
        true
    }

    /// Whether any recorded session is remote.
    pub fn has_remote_sessions(&self) -> (r: bool)
        ensures
            r == has_remote(self.zellij_sessions@),
    {
        let mut i: usize = 0;
        while i < self.zellij_sessions.len()
            invariant
                i <= self.zellij_sessions@.len(),
                forall|k: int| 0 <= k < i ==> (#[trigger] self.zellij_sessions@[k]).1.current,
            decreases self.zellij_sessions@.len() - i,
        {
            if !self.zellij_sessions.value_at(i).current {
                assert(!self.zellij_sessions@[i as int].1.current);
                return true;
            }
            i = i + 1;
        }
        false
    }

    /// The time until the next poll cycle, while polling is on and a remote session exists.
    pub fn next_session_poll(&self) -> (r: Option<u128>)
        ensures
            r == if !self.session_polling_enabled || !has_remote(self.zellij_sessions@) {
                None
            } else {
                match self.next_poll_at {
                    Some(due) => Some(sat_sub(due, self.lease_clock)),
                    None => None,
                }
            },
    {
        if !self.session_polling_enabled || !self.has_remote_sessions() {
            return None;
        }
        match self.next_poll_at {
            Some(due) => Some(due.saturating_sub(self.lease_clock)),
            None => None,
        }
    }

    /// Starts a poll cycle while polling is on: the next cycle is set one interval away, and a
    /// poll of every remote generation not being polled or queued joins the queue.
    pub fn begin_session_poll_cycle(&mut self)
        requires
            old(self).wf(),
            old(self).session_polling_enabled ==> old(self).lease_clock + SESSION_POLL_INTERVAL <= DURATION_MAX,
        ensures
            final(self).wf(),
            poll_cycle_begun(*old(self), *final(self)),
    {
        if !self.session_polling_enabled {
            return;
        }
        self.next_poll_at = Some(self.lease_clock + SESSION_POLL_INTERVAL);
        let ghost q = self.poll_queue@;
        let ghost sess = self.zellij_sessions@;
        let ghost names = sess.map_values(|e: (Seq<char>, ZellijSession)| (e.1.name@, e.1.generation_id@));
        let ghost flags = sess.map_values(|e: (Seq<char>, ZellijSession)| poll_wanted(e.1, self.active_poll, q));
        let mut adds: Vec<PollTarget> = Vec::new();
        let n = self.zellij_sessions.len();
        let mut i: usize = 0;
        assert(keep_flagged(names.take(0), flags.take(0)) =~= Seq::<(Seq<char>, Seq<char>)>::empty());
        while i < n
            invariant
                i <= n,
                n == sess.len(),
                sess == self.zellij_sessions@,
                q == self.poll_queue@,
                names == sess.map_values(|e: (Seq<char>, ZellijSession)| (e.1.name@, e.1.generation_id@)),
                flags == sess.map_values(|e: (Seq<char>, ZellijSession)| poll_wanted(e.1, self.active_poll, q)),
                target_views(adds@) == keep_flagged(names.take(i as int), flags.take(i as int)),
            decreases n - i,
        {
            proof {
                crate::text_map::lemma_keep_flagged_snoc(names, flags, i as int);
            }
            let z = self.zellij_sessions.value_at(i);
            let wanted = !z.current && match &self.active_poll {
                Some(p) => !same_text(p.target.generation_id.as_str(), z.generation_id.as_str()),
                None => true,
            } && !self.is_queued(z.generation_id.as_str());
            assert(wanted == flags[i as int]);
            if wanted {
                let ghost before = target_views(adds@);
                adds.push(PollTarget { session_name: z.name.clone(), generation_id: z.generation_id.clone() });
                assert(target_views(adds@) =~= before.push(names[i as int]));
            }
            assert(target_views(adds@) =~= keep_flagged(names.take(i + 1), flags.take(i + 1)));
            i = i + 1;
        }
        assert(names.take(n as int) =~= names);
        assert(flags.take(n as int) =~= flags);
        let m = adds.len();
        let mut k: usize = 0;
        while k < m
            invariant
                k <= m,
                m == adds@.len(),
                target_views(self.poll_queue@) == target_views(q) + target_views(adds@).take(k as int),
                self.maps_wf(),
                self.keeps_all_but_polls(*old(self)),
                self.next_poll_id == old(self).next_poll_id,
                self.session_polling_enabled == old(self).session_polling_enabled,
                self.active_poll == old(self).active_poll,
                self.last_error == old(self).last_error,
                self.next_poll_at == Some((old(self).lease_clock + SESSION_POLL_INTERVAL) as u128),
            decreases m - k,
        {
            let t = copy_target(&adds[k]);
            let ghost before = target_views(self.poll_queue@);
            self.poll_queue.push_back(t);
            assert(target_views(self.poll_queue@) =~= before.push(target_views(adds@)[k as int]));
            assert(target_views(adds@).take(k + 1) =~= target_views(adds@).take(k as int).push(target_views(adds@)[k as int]));
            k = k + 1;
        }
        assert(target_views(adds@).take(m as int) =~= target_views(adds@));
        proof {
            assert(poll_cycle_begun(*old(self), *self));
            crate::laws::lemma_cycle_keeps_distinct(*old(self), *self);
        }
    }

    fn is_queued(&self, generation_id: &str) -> (r: bool)
        ensures
            r == exists|i: int| 0 <= i < self.poll_queue@.len() && (#[trigger] self.poll_queue@[i]).generation_id@ == generation_id@,
    {
        let mut i: usize = 0;
        while i < self.poll_queue.len()
            invariant
                i <= self.poll_queue@.len(),
                forall|k: int| 0 <= k < i ==> (#[trigger] self.poll_queue@[k]).generation_id@ != generation_id@,
            decreases self.poll_queue@.len() - i,
        {
            if same_text(self.poll_queue[i].generation_id.as_str(), generation_id) {
                assert(self.poll_queue@[i as int].generation_id@ == generation_id@);
                return true;
            }
            i = i + 1;
        }
        false
    }

    /// Issues the next poll, when polling is on and no poll runs: queued targets are taken in
    /// order until one is still pollable, which becomes the running poll with a fresh id.
    pub fn next_poll_command(&mut self) -> (r: Option<PollCommand>)
        requires
            old(self).wf(),
            old(self).next_poll_id < u64::MAX,
        ensures
            final(self).wf(),
            poll_issued(*old(self), *final(self), r),
    {
        if !self.session_polling_enabled || self.active_poll.is_some() {
            return None;
        }
        let ghost q = self.poll_queue@;
        let ghost sess = self.zellij_sessions@;
        let mut taken: usize = 0;
        let qlen = self.poll_queue.len();
        assert(q.skip(0) =~= q);
        while self.poll_queue.len() > 0
            invariant
                taken <= q.len(),
                q.len() == qlen,
                old(self).session_polling_enabled,
                old(self).active_poll is None,
                self.poll_queue@ == q.skip(taken as int),
                sess == self.zellij_sessions@,
                self.zellij_sessions.wf(),
                first_pollable(q, sess) == match first_pollable(q.skip(taken as int), sess) {
                    Some(i) => Some(i + taken),
                    None => None,
                },
                self.maps_wf(),
                old(self).wf(),
                self.keeps_all_but_polls(*old(self)),
                self.session_polling_enabled == old(self).session_polling_enabled,
                self.next_poll_at == old(self).next_poll_at,
                self.last_error == old(self).last_error,
                self.active_poll is None,
                self.next_poll_id == old(self).next_poll_id,
                old(self).next_poll_id < u64::MAX,
                old(self).poll_queue@ == q,
            decreases self.poll_queue@.len(),
        {
            let ghost rest = q.skip(taken as int);
            let target = match self.poll_queue.pop_front() {
                Some(t) => t,
                None => {
                    return None;
                },
            };
            assert(rest[0] == target);
            assert(rest.drop_first() =~= q.skip(taken + 1));
            let ok = match self.zellij_sessions.get(target.generation_id.as_str()) {
                Some(z) => !z.current && same_text(z.name.as_str(), target.session_name.as_str()),
                None => false,
            };
            assert(ok == pollable(target, sess));
            if ok {
                self.next_poll_id = self.next_poll_id + 1;
                let mut payload: Vec<char> = Vec::new();
                push_text(&mut payload, "{\"version\":1,\"generation_id\":");
                push_json_string(&mut payload, target.generation_id.as_str());
                push_text(&mut payload, "}");
                assert(payload@ =~= request_json(target.generation_id@));
                let command = PollCommand {
                    id: self.next_poll_id,
                    session_name: target.session_name.clone(),
                    generation_id: target.generation_id.clone(),
                    payload: string_of(&payload),
                };
                self.active_poll = Some(ActivePoll { id: self.next_poll_id, target, started_at: self.lease_clock });
                let r = Some(command);
                proof {
                    assert(poll_issued(*old(self), *self, r));
                    crate::laws::lemma_issue_keeps_distinct(*old(self), *self, r);
                }
                return r;
            }
            taken = taken + 1;
        }
        assert(q.skip(taken as int) =~= Seq::<PollTarget>::empty());
        assert(target_views(self.poll_queue@) =~= Seq::<(Seq<char>, Seq<char>)>::empty());
        None
    }

    /// The time until the running poll times out.
    pub fn next_poll_timeout(&self) -> (r: Option<u128>)
        ensures
            r == match self.active_poll {
                Some(p) => Some(sat_sub(SESSION_POLL_TIMEOUT, sat_sub(self.lease_clock, p.started_at))),
                None => None,
            },
    {
        match &self.active_poll {
            Some(p) => Some(SESSION_POLL_TIMEOUT.saturating_sub(self.lease_clock.saturating_sub(p.started_at))),
            None => None,
        }
    }

    /// Gives up the running poll once it has run for the timeout, recording why.
    pub fn poll_timed_out(&mut self) -> (r: bool)
        requires
            old(self).wf(),
        ensures
            final(self).wf(),
            poll_gave_up(*old(self), *final(self), r),
    {
        let name = match &self.active_poll {
            None => {
                return false;
            },
            Some(active) => {
                if self.lease_clock.saturating_sub(active.started_at) < SESSION_POLL_TIMEOUT {
                    return false;
                }
                active.target.session_name.clone()
            },
        };
        self.active_poll = None;
        let mut e: Vec<char> = Vec::new();
        push_text(&mut e, "session synchronization timed out for ");
        push_text(&mut e, name.as_str());
        self.last_error = Some(string_of(&e));
        true
    }
}


/// The characters `String::from_utf8_lossy` reads from `bytes`: invalid sequences replaced.
pub uninterp spec fn lossy_text(bytes: Seq<u8>) -> Seq<char>;

/// `std::str::from_utf8`: the text `bytes` encode, when they are valid UTF-8.
#[verifier::external_body]
fn utf8_text(bytes: &[u8]) -> (r: Option<String>)
    ensures
        match r {
            Some(s) => valid_utf8(bytes@) && s@ == decode_utf8(bytes@),
            None => !valid_utf8(bytes@),
        },
{
    std::str::from_utf8(bytes).ok().map(|s| s.to_owned())
}

/// `String::from_utf8_lossy`: the text of `bytes` with invalid sequences replaced by
/// U+FFFD. Named `lossy_text(bytes@)`; of it only the documented fact is claimed that valid
/// UTF-8 comes back unchanged.
#[verifier::external_body]
fn lossy_utf8(bytes: &[u8]) -> (r: String)
    ensures
        r@ == lossy_text(bytes@),
        valid_utf8(bytes@) ==> r@ == decode_utf8(bytes@),
{
    String::from_utf8_lossy(bytes).into_owned()
}

/// The member names a summary reply may carry.
pub open spec fn reply_key(k: Seq<char>) -> bool {
    k == "version"@ || k == "generation_id"@ || k == "agent_count"@ || k == "running_agent_count"@
        || k == "fresh_at_millis"@
}

/// Whether a document has the shape of a reply: an object whose members all have names a
/// reply may carry, or an array of its five fields.
pub open spec fn reply_shaped(doc: JsonDoc) -> bool {
    match doc {
        JsonDoc::Object(o) => forall|i: int| 0 <= i < o@.len() ==> reply_key(#[trigger] o@[i].0@),
        JsonDoc::Array(a) => a@.len() == 5,
        JsonDoc::Other => false,
    }
}

/// Whether a document has the shape of a request: an object whose members all have names a
/// request may carry, or an array of its two fields.
pub open spec fn request_shaped(doc: JsonDoc) -> bool {
    match doc {
        JsonDoc::Object(o) => forall|i: int| 0 <= i < o@.len() ==> request_key(#[trigger] o@[i].0@),
        JsonDoc::Array(a) => a@.len() == 2,
        JsonDoc::Other => false,
    }
}

/// An unsigned field no larger than `max`.
pub open spec fn unsigned_entry(doc: JsonDoc, key: Seq<char>, pos: int, max: int) -> Option<u64> {
    match record_field(doc, key, pos) {
        Some(JsonScalar::Number(Some(n))) => if n <= max {
            Some(n)
        } else {
            None
        },
        _ => None,
    }
}

/// A string field.
pub open spec fn text_entry(doc: JsonDoc, key: Seq<char>, pos: int) -> Option<Seq<char>> {
    match record_field(doc, key, pos) {
        Some(JsonScalar::Text(t)) => Some(t@),
        _ => None,
    }
}

/// A summary reply's version, generation id, agent count, running agent count and
/// freshness, when the document is one: an object with no other members, or an array of
/// these five fields in this order, each well typed.
pub open spec fn reply_of(doc: JsonDoc) -> Option<(u64, Seq<char>, u64, u64, u64)> {
    if !reply_shaped(doc) {
        None
    } else {
        match (
            unsigned_entry(doc, "version"@, 0, 255),
            text_entry(doc, "generation_id"@, 1),
            unsigned_entry(doc, "agent_count"@, 2, usize::MAX as int),
            unsigned_entry(doc, "running_agent_count"@, 3, usize::MAX as int),
            unsigned_entry(doc, "fresh_at_millis"@, 4, u64::MAX as int),
        ) {
            (Some(v), Some(g), Some(a), Some(r), Some(f)) => Some((v, g, a, r, f)),
            _ => None,
        }
    }
}

/// The member names a summary request may carry.
pub open spec fn request_key(k: Seq<char>) -> bool {
    k == "version"@ || k == "generation_id"@
}

/// A summary request's version and generation id, when the document is one: an object with
/// no other members, or an array of these two fields in this order, each well typed.
pub open spec fn request_of(doc: JsonDoc) -> Option<(u64, Seq<char>)> {
    if !request_shaped(doc) {
        None
    } else {
        match (unsigned_entry(doc, "version"@, 0, 255), text_entry(doc, "generation_id"@, 1)) {
            (Some(v), Some(g)) => Some((v, g)),
            _ => None,
        }
    }
}

fn unsigned_at(doc: &JsonDoc, key: &str, pos: usize, max: u64) -> (r: Option<u64>)
    ensures
        r == unsigned_entry(*doc, key@, pos as int, max as int),
{
    match get_record_field(doc, key, pos) {
        Some(JsonScalar::Number(Some(n))) => if *n <= max {
            Some(*n)
        } else {
            None
        },
        _ => None,
    }
}

fn text_at_field(doc: &JsonDoc, key: &str, pos: usize) -> (r: Option<String>)
    ensures
        match r {
            Some(t) => text_entry(*doc, key@, pos as int) == Some(t@),
            None => text_entry(*doc, key@, pos as int) is None,
        },
{
    match get_record_field(doc, key, pos) {
        Some(JsonScalar::Text(t)) => Some(t.clone()),
        _ => None,
    }
}

fn keys_known(obj: &Vec<(String, JsonScalar)>, reply: bool) -> (r: bool)
    ensures
        r == if reply {
            reply_shaped(JsonDoc::Object(*obj))
        } else {
            request_shaped(JsonDoc::Object(*obj))
        },
{
    let mut i: usize = 0;
    while i < obj.len()
        invariant
            i <= obj@.len(),
            forall|j: int| 0 <= j < i ==> if reply {
                reply_key(#[trigger] obj@[j].0@)
            } else {
                request_key(obj@[j].0@)
            },
        decreases obj@.len() - i,
    {
        let k = obj[i].0.as_str();
        let ok = if reply {
            same_text(k, "version") || same_text(k, "generation_id") || same_text(k, "agent_count")
                || same_text(k, "running_agent_count") || same_text(k, "fresh_at_millis")
        } else {
            same_text(k, "version") || same_text(k, "generation_id")
        };
        if !ok {
            proof {
                let d = JsonDoc::Object(*obj);
                assert(d matches JsonDoc::Object(o) && o@ == obj@);
                if reply {
                    assert(!reply_key(obj@[i as int].0@));
                    assert(!reply_shaped(d));
                } else {
                    assert(!request_key(obj@[i as int].0@));
                    assert(!request_shaped(d));
                }
            }
            return false;
        }
        i = i + 1;
    }
    true
}

/// Whether a document has the shape of a reply (`reply`) or of a request.
fn shape_known(doc: &JsonDoc, reply: bool) -> (r: bool)
    ensures
        r == if reply {
            reply_shaped(*doc)
        } else {
            request_shaped(*doc)
        },
{
    match doc {
        JsonDoc::Object(o) => keys_known(o, reply),
        JsonDoc::Array(a) => if reply {
            a.len() == 5
        } else {
            a.len() == 2
        },
        JsonDoc::Other => false,
    }
}

/// Reads a summary reply from a parsed document.
pub fn decode_reply(doc: &JsonDoc) -> (r: Option<(u8, String, usize, usize, u64)>)
    ensures
        match r {
            Some((v, g, a, n, f)) => reply_of(*doc) == Some((v as u64, g@, a as u64, n as u64, f)),
            None => reply_of(*doc) is None,
        },
{
    if !shape_known(doc, true) {
        return None;
    }
    let v = match unsigned_at(doc, "version", 0, 255) {
        Some(v) => v,
        None => {
            return None;
        },
    };
    let g = match text_at_field(doc, "generation_id", 1) {
        Some(g) => g,
        None => {
            return None;
        },
    };
    let a = match unsigned_at(doc, "agent_count", 2, usize::MAX as u64) {
        Some(a) => a,
        None => {
            return None;
        },
    };
    let n = match unsigned_at(doc, "running_agent_count", 3, usize::MAX as u64) {
        Some(n) => n,
        None => {
            return None;
        },
    };
    let f = match unsigned_at(doc, "fresh_at_millis", 4, u64::MAX) {
        Some(f) => f,
        None => {
            return None;
        },
    };
    Some((v as u8, g, a as usize, n as usize, f))
}

/// Reads a summary request from a parsed document.
pub fn decode_request(doc: &JsonDoc) -> (r: Option<(u8, String)>)
    ensures
        match r {
            Some((v, g)) => request_of(*doc) == Some((v as u64, g@)),
            None => request_of(*doc) is None,
        },
{
    if !shape_known(doc, false) {
        return None;
    }
    let v = match unsigned_at(doc, "version", 0, 255) {
        Some(v) => v,
        None => {
            return None;
        },
    };
    let g = match text_at_field(doc, "generation_id", 1) {
        Some(g) => g,
        None => {
            return None;
        },
    };
    Some((v as u8, g))
}

/// The view of a kept summary: generation id, agent count, running agent count, freshness.
pub open spec fn summary_view(s: SessionSummary) -> (Seq<char>, int, int, int) {
    (s.generation_id@, s.agent_count as int, s.running_agent_count as int, s.fresh_at_millis as int)
}

/// Whether a command result answers the running poll: it carries the poll operation and the
/// running poll's id.
pub open spec fn answers_poll(st: RuntimeState, context: Seq<(Seq<char>, String)>) -> bool {
    &&& text_at(context, "operation"@) == Some(poll_operation())
    &&& st.active_poll matches Some(p)
    &&& match text_at(context, "poll_id"@) {
        Some(t) => parse_unsigned(t, u64::MAX as nat) == Some(p.id as nat),
        None => false,
    }
}

/// The text of a command's error output: its decoding when it is valid UTF-8, else what
/// `String::from_utf8_lossy` reads from it.
pub open spec fn stderr_text(stderr: Seq<u8>) -> Seq<char> {
    if valid_utf8(stderr) {
        decode_utf8(stderr)
    } else {
        lossy_text(stderr)
    }
}

/// What went wrong with an answer to poll `p`, or `None` when it carries a fresh summary.
pub open spec fn poll_error(
    p: ActivePoll,
    exit_code: Option<i32>,
    stdout: Seq<u8>,
    stderr: Seq<u8>,
    context: Seq<(Seq<char>, String)>,
) -> Option<Seq<char>> {
    let name = p.target.session_name@;
    let gen = p.target.generation_id@;
    if text_at(context, "generation_id"@) != Some(gen) {
        Some("session synchronization correlation mismatch"@)
    } else if exit_code != Some(0i32) {
        let e = trim(stderr_text(stderr));
        if e.len() == 0 {
            Some("session synchronization failed for "@ + name)
        } else {
            Some("session synchronization failed for "@ + name + ": "@ + e)
        }
    } else if !valid_utf8(stdout) {
        Some("session synchronization returned invalid utf8 for "@ + name)
    } else {
        match json_document(trim(decode_utf8(stdout))) {
            None => Some("session synchronization returned malformed output for "@ + name),
            Some(d) => match reply_of(d) {
                None => Some("session synchronization returned malformed output for "@ + name),
                Some(rep) => if rep.0 != 1 || rep.1 != gen {
                    Some("session synchronization rejected stale reply for "@ + name)
                } else {
                    None
                },
            },
        }
    }
}

/// The summary a successful answer carries.
pub open spec fn poll_summary(stdout: Seq<u8>) -> (Seq<char>, int, int, int) {
    let rep = reply_of(json_document(trim(decode_utf8(stdout)))->0)->0;
    (rep.1, rep.2 as int, rep.3 as int, rep.4 as int)
}

fn error_for(prefix: &str, name: &str) -> (r: Option<String>)
    ensures
        r matches Some(e) && e@ == prefix@ + name@,
{
    let mut e: Vec<char> = Vec::new();
    push_text(&mut e, prefix);
    push_text(&mut e, name);
    Some(string_of(&e))
}

impl RuntimeState {
    /// Handles the result of a command the plugin ran.
    ///
    /// A result that does not answer the running poll changes nothing and returns `false`.
    /// An answer ends the poll and returns `true`: its error is recorded, or the summary it
    /// carries is kept under a fresh lease and the error cleared.
    pub fn handle_poll_result(
        &mut self,
        exit_code: Option<i32>,
        stdout: &[u8],
        stderr: &[u8],
        context: &TextMap<String>,
    ) -> (r: bool)
        requires
            old(self).wf(),
            context.wf(),
        ensures
            final(self).wf(),
            poll_result_handled(*old(self), *final(self), exit_code, stdout@, stderr@, context@, r),
    {
        match context.get("operation") {
            Some(op) => {
                if !same_text(op.as_str(), "agenthreads:summary-poll") {
                    return false;
                }
            },
            None => {
                return false;
            },
        }
        let (id, gen, name) = match &self.active_poll {
            Some(a) => (a.id, a.target.generation_id.clone(), a.target.session_name.clone()),
            None => {
                return false;
            },
        };
        let id_ok = match context.get("poll_id") {
            Some(t) => {
                let v = chars_of(t.as_str());
                match parse_decimal(&v, u64::MAX) {
                    Some(n) => n == id,
                    None => false,
                }
            },
            None => false,
        };
        if !id_ok {
            return false;
        }
        let gen_ok = match context.get("generation_id") {
            Some(g) => same_text(g.as_str(), gen.as_str()),
            None => false,
        };
        if !gen_ok {
            self.active_poll = None;
            self.last_error = Some("session synchronization correlation mismatch".to_owned());
            return true;
        }
        self.active_poll = None;
        if exit_code != Some(0i32) {
            let raw = lossy_utf8(stderr);
            let err = trim_str(raw.as_str());
            let mut e: Vec<char> = Vec::new();
            push_text(&mut e, "session synchronization failed for ");
            push_text(&mut e, name.as_str());
            let ev = chars_of(err.as_str());
            if ev.len() > 0 {
                push_text(&mut e, ": ");
                push_text(&mut e, err.as_str());
            }
            proof {
                if err@.len() == 0 {
                    assert(e@ =~= "session synchronization failed for "@ + name@);
                } else {
                    assert(e@ =~= "session synchronization failed for "@ + name@ + ": "@ + err@);
                }
            }
            self.last_error = Some(string_of(&e));
            return true;
        }
        let output = match utf8_text(stdout) {
            Some(o) => o,
            None => {
                self.last_error = error_for("session synchronization returned invalid utf8 for ", name.as_str());
                return true;
            },
        };
        let trimmed = trim_str(output.as_str());
        let reply = match parse_json(trimmed.as_str()) {
            Some(d) => decode_reply(&d),
            None => None,
        };
        let (version, reply_gen, agent_count, running_agent_count, fresh_at_millis) = match reply {
            Some(x) => x,
            None => {
                self.last_error = error_for("session synchronization returned malformed output for ", name.as_str());
                return true;
            },
        };
        if version != 1 || !same_text(reply_gen.as_str(), gen.as_str()) {
            self.last_error = error_for("session synchronization rejected stale reply for ", name.as_str());
            return true;
        }
        let summary = SessionSummary {
            generation_id: reply_gen,
            agent_count,
            running_agent_count,
            fresh_at_millis,
        };
        proof {
            lemma_map_insert(self.session_summaries@, gen@, summary, |s: SessionSummary| summary_view(s));
            lemma_insert_sorted(self.session_summaries@, gen@, summary);
            lemma_insert_sorted(self.session_summary_leases@, gen@, self.lease_clock);
        }
        self.session_summaries.insert(gen.clone(), summary);
        let now = self.lease_clock;
        self.session_summary_leases.insert(gen, now);
        self.last_error = None;
        true
    }

    /// Everything but the poll state, the summaries and the last error is as in `old`.
    pub open spec fn keeps_all_but_polls_and_summaries(&self, old: RuntimeState) -> bool {
        &&& self.agents@ == old.agents@
        &&& self.agent_leases@ == old.agent_leases@
        &&& self.lease_clock == old.lease_clock
        &&& self.zellij_sessions@ == old.zellij_sessions@
        &&& self.tabs@ == old.tabs@
        &&& self.events@ == old.events@
        &&& self.pipe_count == old.pipe_count
        &&& self.focused_pane == old.focused_pane
        &&& self.active_tab == old.active_tab
        &&& self.active_tab_position == old.active_tab_position
        &&& self.zellij_session == old.zellij_session
    }
}


/// How many agents are running.
pub open spec fn running_count(agents: Seq<(Seq<char>, AgentReport)>) -> nat
    decreases agents.len(),
{
    if agents.len() == 0 {
        0
    } else {
        running_count(agents.drop_last()) + if agents.last().1.state == AgentState::Running {
            1nat
        } else {
            0nat
        }
    }
}

/// The generation id of the first current session, in generation id order.
pub open spec fn current_generation(sessions: Seq<(Seq<char>, ZellijSession)>) -> Option<Seq<char>>
    decreases sessions.len(),
{
    if sessions.len() == 0 {
        None
    } else if sessions[0].1.current {
        Some(sessions[0].1.generation_id@)
    } else {
        current_generation(sessions.drop_first())
    }
}

/// The summary reply this sidebar sends.
pub open spec fn reply_json(generation_id: Seq<char>, agents: nat, running: nat, millis: nat) -> Seq<char> {
    "{\"version\":1,\"generation_id\":"@ + json_string(generation_id) + ",\"agent_count\":"@ + decimal(agents)
        + ",\"running_agent_count\":"@ + decimal(running) + ",\"fresh_at_millis\":"@ + decimal(millis) + "}"@
}

/// The time left on a lease first seen at `seen`, at `clock`.
pub open spec fn lease_left(seen: u128, clock: u128, lease: u128) -> u128 {
    sat_sub(lease, sat_sub(clock, seen))
}

/// The least time left on any of the leases.
pub open spec fn min_left(leases: Seq<(Seq<char>, u128)>, clock: u128, lease: u128) -> Option<u128>
    decreases leases.len(),
{
    if leases.len() == 0 {
        None
    } else {
        let d = lease_left(leases.last().1, clock, lease);
        match min_left(leases.drop_last(), clock, lease) {
            None => Some(d),
            Some(m) => Some(if d < m { d } else { m }),
        }
    }
}

/// The least time left is no more than the time left on each lease, is the time left on one
/// of them, and is there exactly when there is a lease.
pub proof fn lemma_min_left(leases: Seq<(Seq<char>, u128)>, clock: u128, lease: u128)
    ensures
        forall|j: int| 0 <= j < leases.len() ==> (min_left(leases, clock, lease) matches Some(d) && d <= sat_sub(
            lease,
            sat_sub(clock, (#[trigger] leases[j]).1),
        )),
        min_left(leases, clock, lease) matches Some(d) ==> exists|j: int|
            0 <= j < leases.len() && d == sat_sub(lease, sat_sub(clock, (#[trigger] leases[j]).1)),
        min_left(leases, clock, lease) is None <==> leases.len() == 0,
    decreases leases.len(),
{
    if leases.len() > 0 {
        let init = leases.drop_last();
        lemma_min_left(init, clock, lease);
        assert forall|j: int| 0 <= j < leases.len() - 1 implies #[trigger] leases[j] == init[j] by {}
        assert(leases[leases.len() - 1] == leases.last());
        if let Some(m) = min_left(init, clock, lease) {
            let j0 = choose|j: int| 0 <= j < init.len() && m == sat_sub(lease, sat_sub(clock, (#[trigger] init[j]).1));
            assert(leases[j0] == init[j0]);
        }
    }
}

/// Whether a summary lease first seen at `seen` has run out at `clock`.
pub open spec fn summary_expired(seen: u128, clock: u128) -> bool {
    sat_sub(clock, seen) >= SESSION_SUMMARY_LEASE
}

/// The flags that keep the summary leases that have not run out.
pub open spec fn live_summary_leases(leases: Seq<(Seq<char>, u128)>, clock: u128) -> Seq<bool> {
    leases.map_values(|e: (Seq<char>, u128)| !summary_expired(e.1, clock))
}

/// The flags that keep the summaries whose lease has not run out.
pub open spec fn live_summaries(
    summaries: Seq<(Seq<char>, SessionSummary)>,
    leases: Seq<(Seq<char>, u128)>,
    clock: u128,
) -> Seq<bool> {
    summaries.map_values(
        |e: (Seq<char>, SessionSummary)| !(find(leases, e.0) matches Some(seen) && summary_expired(seen, clock)),
    )
}

impl RuntimeState {
    /// Answers another sidebar's summary request with this session's agent counts: `None`
    /// unless the request is a version-one request and a current session is known.
    pub fn session_summary_output(&self, payload: Option<&str>) -> (r: Option<String>)
        ensures
            opt_view(r) == match payload {
                None => None,
                Some(p) => match json_document(p@) {
                    None => None,
                    Some(d) => match request_of(d) {
                        None => None,
                        Some(req) => if req.0 != 1 {
                            None
                        } else {
                            match current_generation(self.zellij_sessions@) {
                                None => None,
                                Some(g) => Some(reply_json(
                                    g,
                                    self.agents@.len(),
                                    running_count(self.agents@),
                                    ((self.lease_clock / 1_000_000) as u64) as nat,
                                )),
                            }
                        },
                    },
                },
            },
    {
        let p = match payload {
            Some(p) => p,
            None => {
                return None;
            },
        };
        let request = match parse_json(p) {
            Some(d) => decode_request(&d),
            None => None,
        };
        let (version, _generation) = match request {
            Some(x) => x,
            None => {
                return None;
            },
        };
        if version != 1 {
            return None;
        }
        let mut current: Option<usize> = None;
        let mut i: usize = 0;
        let ghost sess = self.zellij_sessions@;
        assert(sess.skip(0) =~= sess);
        while i < self.zellij_sessions.len() && current.is_none()
            invariant
                i <= sess.len(),
                sess == self.zellij_sessions@,
                match current {
                    Some(c) => c < sess.len() && current_generation(sess) == Some(sess[c as int].1.generation_id@),
                    None => current_generation(sess) == current_generation(sess.skip(i as int)),
                },
            decreases sess.len() - i,
        {
            assert(sess.skip(i as int)[0] == sess[i as int]);
            assert(sess.skip(i as int).drop_first() =~= sess.skip(i + 1));
            if self.zellij_sessions.value_at(i).current {
                current = Some(i);
            }
            i = i + 1;
        }
        let c = match current {
            Some(c) => c,
            None => {
                assert(sess.skip(i as int) =~= Seq::<(Seq<char>, ZellijSession)>::empty());
                return None;
            },
        };
        let n = self.agents.len();
        let mut running: usize = 0;
        let mut k: usize = 0;
        while k < n
            invariant
                k <= n,
                n == self.agents@.len(),
                running == running_count(self.agents@.take(k as int)),
                running <= k,
            decreases n - k,
        {
            assert(self.agents@.take(k + 1).drop_last() =~= self.agents@.take(k as int));
            if self.agents.value_at(k).state == AgentState::Running {
                running = running + 1;
            }
            k = k + 1;
        }
        assert(self.agents@.take(n as int) =~= self.agents@);
        let millis = (self.lease_clock / 1_000_000) as u64;
        let mut out: Vec<char> = Vec::new();
        push_text(&mut out, "{\"version\":1,\"generation_id\":");
        push_json_string(&mut out, self.zellij_sessions.value_at(c).generation_id.as_str());
        push_text(&mut out, ",\"agent_count\":");
        push_decimal(&mut out, n as u128);
        push_text(&mut out, ",\"running_agent_count\":");
        push_decimal(&mut out, running as u128);
        push_text(&mut out, ",\"fresh_at_millis\":");
        push_decimal(&mut out, millis as u128);
        push_text(&mut out, "}");
        assert(out@ =~= reply_json(sess[c as int].1.generation_id@, n as nat, running as nat, millis as nat));
        Some(string_of(&out))
    }

    /// The time until the first summary lease runs out.
    pub fn next_session_summary_expiry(&self) -> (r: Option<u128>)
        ensures
            r == min_left(self.session_summary_leases@, self.lease_clock, SESSION_SUMMARY_LEASE),
            forall|j: int| 0 <= j < self.session_summary_leases@.len() ==> (r matches Some(d) && d <= sat_sub(
                SESSION_SUMMARY_LEASE,
                sat_sub(self.lease_clock, (#[trigger] self.session_summary_leases@[j]).1),
            )),
            r matches Some(d) ==> exists|j: int|
                0 <= j < self.session_summary_leases@.len() && d == sat_sub(
                    SESSION_SUMMARY_LEASE,
                    sat_sub(self.lease_clock, (#[trigger] self.session_summary_leases@[j]).1),
                ),
            r is None <==> self.session_summary_leases@.len() == 0,
    {
        proof {
            lemma_min_left(self.session_summary_leases@, self.lease_clock, SESSION_SUMMARY_LEASE);
        }
        let n = self.session_summary_leases.len();
        let mut best: Option<u128> = None;
        let mut i: usize = 0;
        while i < n
            invariant
                i <= n,
                n == self.session_summary_leases@.len(),
                best == min_left(self.session_summary_leases@.take(i as int), self.lease_clock, SESSION_SUMMARY_LEASE),
            decreases n - i,
        {
            let ghost t = self.session_summary_leases@.take(i + 1);
            assert(t.drop_last() =~= self.session_summary_leases@.take(i as int));
            let seen = *self.session_summary_leases.value_at(i);
            let d = SESSION_SUMMARY_LEASE.saturating_sub(self.lease_clock.saturating_sub(seen));
            best = match best {
                None => Some(d),
                Some(m) => Some(if d < m { d } else { m }),
            };
            i = i + 1;
        }
        assert(self.session_summary_leases@.take(n as int) =~= self.session_summary_leases@);
        best
    }

    /// Drops the summaries whose lease has run out, with their leases, and returns how many
    /// leases ran out.
    pub fn expire_session_summaries(&mut self) -> (expired: usize)
        requires
            old(self).wf(),
        ensures
            final(self).wf(),
            summaries_expired(*old(self), *final(self), expired),
    {
        let clock = self.lease_clock;
        let n = self.session_summaries.len();
        let mut keep: Vec<bool> = Vec::new();
        let mut i: usize = 0;
        while i < n
            invariant
                i <= n,
                n == self.session_summaries@.len(),
                self.session_summary_leases.wf(),
                clock == self.lease_clock,
                keep@ == live_summaries(self.session_summaries@, self.session_summary_leases@, clock).take(i as int),
            decreases n - i,
        {
            let stale = match self.session_summary_leases.get(self.session_summaries.key_at(i).as_str()) {
                Some(seen) => clock.saturating_sub(*seen) >= SESSION_SUMMARY_LEASE,
                None => false,
            };
            keep.push(!stale);
            assert(keep@ =~= live_summaries(self.session_summaries@, self.session_summary_leases@, clock).take(i + 1));
            i = i + 1;
        }
        assert(keep@ =~= live_summaries(self.session_summaries@, self.session_summary_leases@, clock));
        let m = self.session_summary_leases.len();
        let mut keep2: Vec<bool> = Vec::new();
        let mut j: usize = 0;
        while j < m
            invariant
                j <= m,
                m == self.session_summary_leases@.len(),
                clock == self.lease_clock,
                keep2@ == live_summary_leases(self.session_summary_leases@, clock).take(j as int),
            decreases m - j,
        {
            let seen = *self.session_summary_leases.value_at(j);
            keep2.push(!(clock.saturating_sub(seen) >= SESSION_SUMMARY_LEASE));
            assert(keep2@ =~= live_summary_leases(self.session_summary_leases@, clock).take(j + 1));
            j = j + 1;
        }
        assert(keep2@ =~= live_summary_leases(self.session_summary_leases@, clock));
        proof {
            lemma_keep_flagged_len(self.session_summary_leases@, keep2@);
        }
        self.session_summaries.retain_flagged(&keep);
        self.session_summary_leases.retain_flagged(&keep2);
        m - self.session_summary_leases.len()
    }
}

/// What summary expiry does: summaries whose lease ran out leave.
pub open spec fn summaries_expired(old: RuntimeState, new: RuntimeState, expired: usize) -> bool {
    &&& new.session_summary_leases@ == keep_flagged(
        old.session_summary_leases@,
        live_summary_leases(old.session_summary_leases@, old.lease_clock),
    )
    &&& new.session_summaries@ == keep_flagged(
        old.session_summaries@,
        live_summaries(old.session_summaries@, old.session_summary_leases@, old.lease_clock),
    )
    &&& expired == old.session_summary_leases@.len() - new.session_summary_leases@.len()
    &&& new.keeps_all_but_polls_and_summaries(old)
    &&& new.poll_queue@ == old.poll_queue@
    &&& new.active_poll == old.active_poll
    &&& new.next_poll_id == old.next_poll_id
    &&& new.next_poll_at == old.next_poll_at
    &&& new.session_polling_enabled == old.session_polling_enabled
    &&& new.last_error == old.last_error
}

/// What the poll timeout does: a poll that ran for the timeout is given up, recorded.
pub open spec fn poll_gave_up(old: RuntimeState, new: RuntimeState, r: bool) -> bool {
    &&& new.keeps_all_but_polls(old)
    &&& new.poll_queue@ == old.poll_queue@
    &&& new.next_poll_id == old.next_poll_id
    &&& new.next_poll_at == old.next_poll_at
    &&& new.session_polling_enabled == old.session_polling_enabled
    &&& r == (old.active_poll matches Some(p) && sat_sub(old.lease_clock, p.started_at)
        >= SESSION_POLL_TIMEOUT)
    &&& !r ==> new.active_poll == old.active_poll && new.last_error == old.last_error
    &&& r ==> new.active_poll is None && opt_view(new.last_error) == Some(
        "session synchronization timed out for "@ + old.active_poll->0.target.session_name@,
    )
}

/// What starting a poll cycle does: the remote sessions not yet queued or polled are queued.
pub open spec fn poll_cycle_begun(old: RuntimeState, new: RuntimeState) -> bool {
    &&& new.keeps_all_but_polls(old)
    &&& new.next_poll_id == old.next_poll_id
    &&& new.session_polling_enabled == old.session_polling_enabled
    &&& new.active_poll == old.active_poll
    &&& new.last_error == old.last_error
    &&& !old.session_polling_enabled ==> {
        &&& new.next_poll_at == old.next_poll_at
        &&& new.poll_queue@ == old.poll_queue@
    }
    &&& old.session_polling_enabled ==> {
        &&& new.next_poll_at == Some((old.lease_clock + SESSION_POLL_INTERVAL) as u128)
        &&& target_views(new.poll_queue@) == target_views(old.poll_queue@) + cycle_targets(
            old.zellij_sessions@,
            old.active_poll,
            old.poll_queue@,
        )
    }
}

/// What issuing the next poll does: the first pollable queued target becomes the running poll.
pub open spec fn poll_issued(old: RuntimeState, new: RuntimeState, r: Option<PollCommand>) -> bool {
    &&& new.keeps_all_but_polls(old)
    &&& new.session_polling_enabled == old.session_polling_enabled
    &&& new.next_poll_at == old.next_poll_at
    &&& new.last_error == old.last_error
    &&& !old.session_polling_enabled || old.active_poll is Some ==> {
        &&& r is None
        &&& new.poll_queue@ == old.poll_queue@
        &&& new.active_poll == old.active_poll
        &&& new.next_poll_id == old.next_poll_id
    }
    &&& old.session_polling_enabled && old.active_poll is None ==> match first_pollable(
        old.poll_queue@,
        old.zellij_sessions@,
    ) {
        None => {
            &&& r is None
            &&& new.poll_queue@.len() == 0
            &&& new.active_poll is None
            &&& new.next_poll_id == old.next_poll_id
        },
        Some(j) => {
            let t = old.poll_queue@[j];
            let id = (old.next_poll_id + 1) as u64;
            &&& new.poll_queue@ == old.poll_queue@.skip(j + 1)
            &&& new.next_poll_id == id
            &&& new.active_poll == Some(ActivePoll { id, target: t, started_at: old.lease_clock })
            &&& r matches Some(c) && c.id == id && c.session_name@ == t.session_name@
                && c.generation_id@ == t.generation_id@ && c.payload@ == request_json(t.generation_id@)
        },
    }
}

/// What turning session polling on or off does.
pub open spec fn polling_set(old: RuntimeState, new: RuntimeState, enabled: bool, r: bool) -> bool {
    &&& r
    &&& new.keeps_all_but_polls(old)
    &&& new.next_poll_id == old.next_poll_id
    &&& new.session_polling_enabled == enabled
    &&& enabled ==> {
        &&& new.next_poll_at == Some((old.lease_clock + SESSION_POLL_INTERVAL) as u128)
        &&& new.poll_queue@ == old.poll_queue@
        &&& new.active_poll == old.active_poll
        &&& new.last_error == if opt_view(old.last_error) == Some(unavailable_text()) {
            None
        } else {
            old.last_error
        }
    }
    &&& !enabled ==> {
        &&& new.next_poll_at is None
        &&& new.poll_queue@.len() == 0
        &&& new.active_poll is None
        &&& opt_view(new.last_error) == Some(unavailable_text())
    }
}

/// What handling a command's result does: an answer to the running poll ends it, recording
/// its error or keeping the summary it carries; any other result changes nothing.
pub open spec fn poll_result_handled(
    old: RuntimeState,
    new: RuntimeState,
    exit_code: Option<i32>,
    stdout: Seq<u8>,
    stderr: Seq<u8>,
    context: Seq<(Seq<char>, String)>,
    r: bool,
) -> bool {
    &&& r == answers_poll(old, context)
    &&& !r ==> new == old
    &&& r ==> {
        let p = old.active_poll->0;
        let gen = p.target.generation_id@;
        &&& new.keeps_all_but_polls_and_summaries(old)
        &&& new.active_poll is None
        &&& new.poll_queue@ == old.poll_queue@
        &&& new.next_poll_id == old.next_poll_id
        &&& new.next_poll_at == old.next_poll_at
        &&& new.session_polling_enabled == old.session_polling_enabled
        &&& match poll_error(p, exit_code, stdout, stderr, context) {
            Some(e) => {
                &&& opt_view(new.last_error) == Some(e)
                &&& new.session_summaries@ == old.session_summaries@
                &&& new.session_summary_leases@ == old.session_summary_leases@
            },
            None => {
                &&& new.last_error is None
                &&& map_entries(new.session_summaries@, |s: SessionSummary| summary_view(s))
                    == insert_entry(
                    map_entries(old.session_summaries@, |s: SessionSummary| summary_view(s)),
                    gen,
                    poll_summary(stdout),
                )
                &&& new.session_summary_leases@ == insert_entry(
                    old.session_summary_leases@,
                    gen,
                    old.lease_clock,
                )
            },
        }
    }
}

} // verus!
