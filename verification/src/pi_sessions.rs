//! The first sidebar plugin: it lists the sessions that Pi agents report on the
//! `pi-agent-session` pipe, one line each, under a status line and above recent events.

use vstd::prelude::*;
use crate::json::{JsonDoc, JsonScalar, get_record_field, has_record_shape, json_document, parse_json,
    record_field, record_shaped};
use crate::runtime::{AgentState, PaneId, decode_opt_text, decode_state, decode_text, opt_text_field,
    opt_text_ok, opt_view, pane_matches, pane_id_matches, pipe_event, pushed_event, state_field,
    state_ok, text_field, texts, MAX_EVENTS};
use crate::text::{basename, basename_of, decimal, push_decimal, push_text, same_text, string_of};
use crate::text_map::{TextMap, insert_entry, keep_flagged, lemma_keep_flagged_len, remove_entry};
use std::collections::VecDeque;

verus! {

/// Name of the pipe Pi agents report sessions on.
pub const PI_PIPE_NAME: &'static str = "pi-agent-session";

/// A session report from a Pi agent.
#[derive(Clone, Debug, PartialEq, Eq)]
pub struct PiSession {
    pub version: u8,
    pub session: String,
    pub cwd: String,
    pub pane_id: Option<String>,
    pub state: AgentState,
    pub model: Option<String>,
    pub updated_at: u64,
}

/// Whether a document decodes as a session report: an object with the report's members
/// (others are ignored), or an array of its seven fields in declaration order, each well
/// typed.
pub open spec fn session_decodes(doc: JsonDoc) -> bool {
    &&& record_shaped(doc, 7)
    &&& record_field(doc, "version"@, 0) matches Some(JsonScalar::Number(Some(n))) && n <= 255
    &&& record_field(doc, "session"@, 1) matches Some(JsonScalar::Text(_))
    &&& record_field(doc, "cwd"@, 2) matches Some(JsonScalar::Text(_))
    &&& opt_text_ok(record_field(doc, "pane_id"@, 3))
    &&& state_ok(record_field(doc, "state"@, 4))
    &&& opt_text_ok(record_field(doc, "model"@, 5))
    &&& record_field(doc, "updated_at"@, 6) matches Some(JsonScalar::Number(Some(_)))
}

/// Whether `s` is the report a document decodes as.
pub open spec fn session_decoded_as(doc: JsonDoc, s: PiSession) -> bool {
    &&& session_decodes(doc)
    &&& record_field(doc, "version"@, 0) == Some(JsonScalar::Number(Some(s.version as u64)))
    &&& text_field(record_field(doc, "session"@, 1), s.session)
    &&& text_field(record_field(doc, "cwd"@, 2), s.cwd)
    &&& opt_text_field(record_field(doc, "pane_id"@, 3), s.pane_id)
    &&& state_field(record_field(doc, "state"@, 4), s.state)
    &&& opt_text_field(record_field(doc, "model"@, 5), s.model)
    &&& record_field(doc, "updated_at"@, 6) == Some(JsonScalar::Number(Some(s.updated_at)))
}

/// Decodes a session report from a parsed document.
pub fn decode_session(doc: &JsonDoc) -> (r: Option<PiSession>)
    ensures
        match r {
            Some(s) => session_decoded_as(*doc, s),
            None => !session_decodes(*doc),
        },
{
    if !has_record_shape(doc, 7) {
        return None;
    }
    let version = match get_record_field(doc, "version", 0) {
        Some(JsonScalar::Number(Some(n))) => {
            if *n > 255 {
                return None;
            }
            *n as u8
        },
        _ => {
            return None;
        },
    };
    let session = match decode_text(get_record_field(doc, "session", 1)) {
        Some(v) => v,
        None => {
            return None;
        },
    };
    let cwd = match decode_text(get_record_field(doc, "cwd", 2)) {
        Some(v) => v,
        None => {
            return None;
        },
    };
    let pane_id = match decode_opt_text(get_record_field(doc, "pane_id", 3)) {
        Ok(v) => v,
        Err(_) => {
            return None;
        },
    };
    let state = match decode_state(get_record_field(doc, "state", 4)) {
        Some(st) => st,
        None => {
            return None;
        },
    };
    let model = match decode_opt_text(get_record_field(doc, "model", 5)) {
        Ok(v) => v,
        Err(_) => {
            return None;
        },
    };
    let updated_at = match get_record_field(doc, "updated_at", 6) {
        Some(JsonScalar::Number(Some(n))) => *n,
        _ => {
            return None;
        },
    };
    Some(PiSession { version, session, cwd, pane_id, state, model, updated_at })
}

/// The state label this plugin draws: padded to seven columns.
pub open spec fn padded_state(state: AgentState) -> Seq<char> {
    match state {
        AgentState::Idle => "idle   "@,
        AgentState::Running => "running"@,
        AgentState::Shutdown => "closed "@,
    }
}

/// The padded state label.
pub fn state_label(state: AgentState) -> (r: &'static str)
    ensures
        r@ == padded_state(state),
{
    match state {
        AgentState::Idle => "idle   ",
        AgentState::Running => "running",
        AgentState::Shutdown => "closed ",
    }
}

/// The state label without its padding.
pub open spec fn state_word(state: AgentState) -> Seq<char> {
    match state {
        AgentState::Idle => "idle"@,
        AgentState::Running => "running"@,
        AgentState::Shutdown => "closed"@,
    }
}

/// The sessions after a report: `shutdown` removes the session, any other state stores it.
pub open spec fn sessions_after(s: Seq<(Seq<char>, PiSession)>, r: PiSession) -> Seq<(Seq<char>, PiSession)> {
    if r.state == AgentState::Shutdown {
        remove_entry(s, r.session@)
    } else {
        insert_entry(s, r.session@, r)
    }
}

/// Stores the latest report of a session; `shutdown` removes it.
pub fn apply_session_update(sessions: &mut TextMap<PiSession>, session: PiSession)
    requires
        old(sessions).wf(),
    ensures
        final(sessions).wf(),
        final(sessions)@ == sessions_after(old(sessions)@, session),
{
    if session.state == AgentState::Shutdown {
        sessions.remove(session.session.as_str());
    } else {
        let key = session.session.clone();
        sessions.insert(key, session);
    }
}

/// Whether a session stays when `pane` closes: it reports no pane, or another one.
pub open spec fn keeps_session(s: PiSession, pane: PaneId) -> bool {
    match s.pane_id {
        None => true,
        Some(p) => !pane_matches(p@, pane),
    }
}

/// The flags that keep the sessions that stay when `pane` closes.
pub open spec fn sessions_kept(s: Seq<(Seq<char>, PiSession)>, pane: PaneId) -> Seq<bool> {
    s.map_values(|e: (Seq<char>, PiSession)| keeps_session(e.1, pane))
}

/// Removes the sessions owned by a closed pane and returns how many left.
pub fn remove_sessions_for_pane(sessions: &mut TextMap<PiSession>, pane: PaneId) -> (removed: usize)
    requires
        old(sessions).wf(),
    ensures
        final(sessions).wf(),
        final(sessions)@ == keep_flagged(old(sessions)@, sessions_kept(old(sessions)@, pane)),
        removed == old(sessions)@.len() - final(sessions)@.len(),
{
    let n = sessions.len();
    let mut keep: Vec<bool> = Vec::new();
    let mut i: usize = 0;
    while i < n
        invariant
            i <= n,
            n == sessions@.len(),
            keep@ == sessions_kept(sessions@, pane).take(i as int),
        decreases n - i,
    {
        let k = match &sessions.value_at(i).pane_id {
            None => true,
            Some(p) => !pane_id_matches(p.as_str(), pane),
        };
        keep.push(k);
        assert(keep@ =~= sessions_kept(sessions@, pane).take(i + 1));
        i = i + 1;
    }
    assert(keep@ =~= sessions_kept(sessions@, pane));
    proof {
        lemma_keep_flagged_len(sessions@, keep@);
    }
    sessions.retain_flagged(&keep);
    n - sessions.len()
}

/// Appends an event; the log keeps the last six.
pub fn push_event(events: &mut VecDeque<String>, event: String)
    ensures
        texts(final(events)@) == pushed_event(texts(old(events)@), event@),
{
    let ghost before = texts(events@);
    if events.len() == MAX_EVENTS {
        events.pop_front();
        assert(texts(events@) =~= before.drop_first());
    }
    events.push_back(event);
    assert(texts(events@) =~= pushed_event(before, event@));
}

/// The state of one running instance of the first plugin.
pub struct PiSessionsState {
    pub sessions: TextMap<PiSession>,
    pub events: VecDeque<String>,
    pub pipe_count: u64,
    pub last_error: Option<String>,
}

impl PiSessionsState {
    /// No session, no event.
    pub fn new() -> (r: Self)
        ensures
            r.sessions.wf(),
            r.sessions@.len() == 0,
            r.events@.len() == 0,
            r.pipe_count == 0,
            r.last_error is None,
    {
        PiSessionsState { sessions: TextMap::new(), events: VecDeque::new(), pipe_count: 0, last_error: None }
    }

    /// Records plugin startup.
    pub fn load(&mut self)
        ensures
            texts(final(self).events@) == pushed_event(texts(old(self).events@), "plugin loaded"@),
            final(self).sessions == old(self).sessions,
            final(self).pipe_count == old(self).pipe_count,
            final(self).last_error == old(self).last_error,
    {
        push_event(&mut self.events, "plugin loaded".to_owned());
    }

    /// Handles a message on a pipe. Every message on the session pipe is counted and asks for
    /// a redraw: a missing or undecodable payload is recorded as an error, a decoded report
    /// is logged and stored.
    pub fn pipe(&mut self, name: &str, payload: Option<String>) -> (r: bool)
        requires
            old(self).sessions.wf(),
            name@ == PI_PIPE_NAME@ ==> old(self).pipe_count < u64::MAX,
        ensures
            final(self).sessions.wf(),
            name@ != PI_PIPE_NAME@ ==> !r && final(self).sessions == old(self).sessions
                && final(self).events == old(self).events && final(self).pipe_count == old(self).pipe_count
                && final(self).last_error == old(self).last_error,
            name@ == PI_PIPE_NAME@ ==> {
                let n = (old(self).pipe_count + 1) as u64;
                let ev = texts(old(self).events@);
                &&& r
                &&& final(self).pipe_count == n
                &&& match payload {
                    None => {
                        &&& opt_view(final(self).last_error) == Some("empty payload"@)
                        &&& texts(final(self).events@) == pushed_event(ev, pipe_event(n, " empty payload"@))
                        &&& final(self).sessions@ == old(self).sessions@
                    },
                    Some(p) => {
                        let ev1 = pushed_event(ev, pipe_event(n, " bytes="@ + decimal((vstd::utf8::encode_utf8(p@).len() as usize) as nat)));
                        let doc = json_document(p@);
                        if doc is None || !session_decodes(doc->0) {
                            &&& opt_view(final(self).last_error) == Some("invalid json"@)
                            &&& texts(final(self).events@) == pushed_event(ev1, pipe_event(n, " invalid json"@))
                            &&& final(self).sessions@ == old(self).sessions@
                        } else {
                            exists|s: PiSession| #[trigger] session_decoded_as(doc->0, s)
                                && final(self).last_error is None
                                && texts(final(self).events@) == pushed_event(ev1, state_word(s.state) + " "@ + basename_of(s.cwd@))
                                && final(self).sessions@ == sessions_after(old(self).sessions@, s)
                        }
                    },
                }
            },
    {
        if !same_text(name, PI_PIPE_NAME) {
            return false;
        }
        self.pipe_count = self.pipe_count + 1;
        let p = match payload {
            Some(p) => p,
            None => {
                self.last_error = Some("empty payload".to_owned());
                let e = event_text(self.pipe_count, " empty payload");
                push_event(&mut self.events, e);
                return true;
            },
        };
        let bytes = p.as_str().len();
        let mut tail: Vec<char> = Vec::new();
        push_text(&mut tail, " bytes=");
        push_decimal(&mut tail, bytes as u128);
        let tail_s = string_of(&tail);
        let e1 = event_text(self.pipe_count, tail_s.as_str());
        push_event(&mut self.events, e1);
        let session = match parse_json(p.as_str()) {
            Some(d) => decode_session(&d),
            None => None,
        };
        let session = match session {
            Some(s) => s,
            None => {
                self.last_error = Some("invalid json".to_owned());
                let e = event_text(self.pipe_count, " invalid json");
                push_event(&mut self.events, e);
                return true;
            },
        };
        let mut e2: Vec<char> = Vec::new();
        push_text(&mut e2, crate::runtime::state_label(session.state));
        e2.push(' ');
        let base = basename(session.cwd.as_str());
        push_text(&mut e2, base.as_str());
        proof {
            reveal_strlit(" ");
        }
        assert(crate::runtime::state_text(session.state) == state_word(session.state));
        assert(e2@ =~= state_word(session.state) + " "@ + basename_of(session.cwd@));
        push_event(&mut self.events, string_of(&e2));
        self.last_error = None;
        let ghost s = session;
        apply_session_update(&mut self.sessions, session);
        assert(session_decoded_as(json_document(p@)->0, s));
        true
    }

    /// Handles a closed pane: its sessions are removed, and logged when there were any.
    pub fn pane_closed(&mut self, pane: PaneId) -> (removed: usize)
        requires
            old(self).sessions.wf(),
        ensures
            final(self).sessions.wf(),
            final(self).sessions@ == keep_flagged(old(self).sessions@, sessions_kept(old(self).sessions@, pane)),
            removed == old(self).sessions@.len() - final(self).sessions@.len(),
            removed > 0 ==> texts(final(self).events@) == pushed_event(
                texts(old(self).events@),
                "pane "@ + crate::runtime::pane_text(pane) + " closed; removed "@ + decimal(removed as nat),
            ),
            removed == 0 ==> final(self).events == old(self).events,
            final(self).pipe_count == old(self).pipe_count,
            final(self).last_error == old(self).last_error,
    {
        let removed = remove_sessions_for_pane(&mut self.sessions, pane);
        if removed > 0 {
            let mut e: Vec<char> = Vec::new();
            push_text(&mut e, "pane ");
            let pt = crate::runtime::pane_id_text(pane);
            crate::text::push_chars(&mut e, &pt);
            push_text(&mut e, " closed; removed ");
            push_decimal(&mut e, removed as u128);
            assert(e@ =~= "pane "@ + crate::runtime::pane_text(pane) + " closed; removed "@ + decimal(removed as nat));
            push_event(&mut self.events, string_of(&e));
        }
        removed
    }
}

/// `"pipe #N"` followed by `tail`, as text.
fn event_text(n: u64, tail: &str) -> (r: String)
    ensures
        r@ == pipe_event(n, tail@),
{
    let mut v: Vec<char> = Vec::new();
    push_text(&mut v, "pipe #");
    push_decimal(&mut v, n as u128);
    push_text(&mut v, tail);
    assert(v@ =~= pipe_event(n, tail@));
    string_of(&v)
}


/// The first `max` characters of `s`.
pub open spec fn cut(s: Seq<char>, max: int) -> Seq<char> {
    if s.len() <= max {
        s
    } else {
        s.take(max)
    }
}

/// The first `max_chars` characters of `value`.
pub fn truncate(value: &str, max_chars: usize) -> (r: String)
    ensures
        r@ == cut(value@, max_chars as int),
{
    let v = crate::text::chars_of(value);
    let mut out: Vec<char> = Vec::new();
    let mut i: usize = 0;
    while i < v.len() && i < max_chars
        invariant
            i <= v@.len(),
            i <= max_chars,
            v@ == value@,
            out@ == v@.take(i as int),
        decreases v@.len() - i,
    {
        out.push(v[i]);
        assert(out@ =~= v@.take(i + 1));
        i = i + 1;
    }
    assert(out@ =~= cut(value@, max_chars as int));
    string_of(&out)
}

/// The status line.
pub open spec fn status_text(st: PiSessionsState) -> Seq<char> {
    match st.last_error {
        Some(e) => "zellij-agent pipes="@ + decimal(st.pipe_count as nat) + " error="@ + e@,
        None => "zellij-agent pipes="@ + decimal(st.pipe_count as nat) + " sessions="@ + decimal(st.sessions@.len()),
    }
}

/// The line drawn for a session.
pub open spec fn session_text(s: PiSession) -> Seq<char> {
    padded_state(s.state) + " pane="@ + (match s.pane_id {
        Some(p) => p@,
        None => "?"@,
    }) + " "@ + basename_of(s.cwd@) + " "@ + match s.model {
        Some(m) => m@,
        None => "?"@,
    }
}

/// The rows the plugin prints, each cut to the pane's width: the status line, then the
/// sessions (or a waiting note), then the most recent events first, as far as rows last.
pub open spec fn screen_lines(st: PiSessionsState, rows: int, cols: int) -> Seq<(int, Seq<char>)> {
    if rows == 0 || cols == 0 {
        Seq::empty()
    } else {
        let status = seq![(0int, cut(status_text(st), cols))];
        if rows <= 1 {
            status
        } else {
            let n = st.sessions@.len() as int;
            let shown = if n < rows - 1 { n } else { rows - 1 };
            let body = if n == 0 {
                seq![(1int, cut("waiting for pi extension reports"@, cols))]
            } else {
                Seq::new(shown as nat, |r: int| (r + 1, cut(session_text(st.sessions@[r].1), cols)))
            };
            let first = if n == 0 { 2 } else { n + 1 };
            let ev = texts(st.events@);
            let room = if rows > first { rows - first } else { 0 };
            let k = if ev.len() < room { ev.len() as int } else { room };
            let events = Seq::new(k as nat, |o: int| (first + o, cut(ev[ev.len() - 1 - o], cols)));
            status + body + events
        }
    }
}

/// The views of printed rows.
pub open spec fn row_views(s: Seq<(usize, String)>) -> Seq<(int, Seq<char>)> {
    s.map_values(|e: (usize, String)| (e.0 as int, e.1@))
}

fn status_line(st: &PiSessionsState) -> (r: String)
    ensures
        r@ == status_text(*st),
{
    let mut v: Vec<char> = Vec::new();
    push_text(&mut v, "zellij-agent pipes=");
    push_decimal(&mut v, st.pipe_count as u128);
    match &st.last_error {
        Some(e) => {
            push_text(&mut v, " error=");
            push_text(&mut v, e.as_str());
        },
        None => {
            push_text(&mut v, " sessions=");
            push_decimal(&mut v, st.sessions.len() as u128);
        },
    }
    assert(v@ =~= status_text(*st));
    string_of(&v)
}

fn session_line(s: &PiSession) -> (r: String)
    ensures
        r@ == session_text(*s),
{
    let mut v: Vec<char> = Vec::new();
    push_text(&mut v, state_label(s.state));
    push_text(&mut v, " pane=");
    match &s.pane_id {
        Some(p) => push_text(&mut v, p.as_str()),
        None => push_text(&mut v, "?"),
    }
    v.push(' ');
    let base = basename(s.cwd.as_str());
    push_text(&mut v, base.as_str());
    v.push(' ');
    match &s.model {
        Some(m) => push_text(&mut v, m.as_str()),
        None => push_text(&mut v, "?"),
    }
    proof {
        reveal_strlit(" ");
    }
    assert(v@ =~= session_text(*s));
    string_of(&v)
}

impl PiSessionsState {
    /// The rows to print in a pane of `rows` by `cols`.
    pub fn render_lines(&self, rows: usize, cols: usize) -> (r: Vec<(usize, String)>)
        ensures
            row_views(r@) == screen_lines(*self, rows as int, cols as int),
    {
        let mut out: Vec<(usize, String)> = Vec::new();
        if rows == 0 || cols == 0 {
            assert(row_views(out@) =~= screen_lines(*self, rows as int, cols as int));
            return out;
        }
        let status = status_line(self);
        out.push((0, truncate(status.as_str(), cols)));
        let ghost status_s = seq![(0int, cut(status_text(*self), cols as int))];
        assert(row_views(out@) =~= status_s);
        if rows <= 1 {
            return out;
        }
        let n = self.sessions.len();
        let shown = if n < rows - 1 { n } else { rows - 1 };
        let ghost body = if n == 0 {
            seq![(1int, cut("waiting for pi extension reports"@, cols as int))]
        } else {
            Seq::new(shown as nat, |r: int| (r + 1, cut(session_text(self.sessions@[r].1), cols as int)))
        };
        if n == 0 {
            out.push((1, truncate("waiting for pi extension reports", cols)));
            assert(row_views(out@) =~= status_s + body);
        } else {
            let mut r: usize = 0;
            while r < shown
                invariant
                    r <= shown,
                    shown <= n,
                    n == self.sessions@.len(),
                    n > 0,
                    body == Seq::new(shown as nat, |q: int| (q + 1, cut(session_text(self.sessions@[q].1), cols as int))),
                    row_views(out@) == status_s + body.take(r as int),
                decreases shown - r,
            {
                let line = session_line(self.sessions.value_at(r));
                let ghost before = row_views(out@);
                out.push((r + 1, truncate(line.as_str(), cols)));
                assert(row_views(out@) =~= before.push(body[r as int]));
                assert(body.take(r + 1) =~= body.take(r as int).push(body[r as int]));
                r = r + 1;
            }
            assert(body.take(shown as int) =~= body);
        }
        let first_wide: u128 = if n == 0 { 2 } else { n as u128 + 1 };
        let ghost first = first_wide as int;
        let ghost ev = texts(self.events@);
        let room: usize = if (rows as u128) > first_wide { (rows as u128 - first_wide) as usize } else { 0 };
        let k = if self.events.len() < room { self.events.len() } else { room };
        let ghost events = Seq::new(k as nat, |o: int| (first + o, cut(ev[ev.len() - 1 - o], cols as int)));
        let ghost head = row_views(out@);
        let m = self.events.len();
        let mut o: usize = 0;
        while o < k
            invariant
                o <= k,
                k <= m,
                m == self.events@.len(),
                ev == texts(self.events@),
                first == first_wide,
                k > 0 ==> first + k <= rows,
                events == Seq::new(k as nat, |q: int| (first + q, cut(ev[ev.len() - 1 - q], cols as int))),
                row_views(out@) == head + events.take(o as int),
            decreases k - o,
        {
            let e = &self.events[m - 1 - o];
            assert(ev[m - 1 - o] == self.events@[m - 1 - o]@);
            let ghost before = row_views(out@);
            let row = (first_wide + o as u128) as usize;
            out.push((row, truncate(e.as_str(), cols)));
            assert(row_views(out@) =~= before.push(events[o as int]));
            assert(events.take(o + 1) =~= events.take(o as int).push(events[o as int]));
            o = o + 1;
        }
        assert(events.take(k as int) =~= events);
        assert(row_views(out@) =~= screen_lines(*self, rows as int, cols as int));
        out
    }
}

} // verus!
