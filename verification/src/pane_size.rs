//! Keeping the sidebar the same width in every tab.
//!
//! Zellij resizes panes only relatively, so each sidebar instance nudges its own pane toward
//! a target width and tells its peers (the other panes of the same plugin) about the change
//! over a pipe. The service decides; the plugin performs the effects it returns.

use vstd::prelude::*;
use crate::json::{JsonDoc, JsonScalar, get_record_field, has_record_shape, json_document,
    parse_json, record_field, record_shaped};
use crate::runtime::{PaneId, opt_view};
use crate::text::{decimal, push_decimal, push_text, same_text, string_of};

verus! {

/// Name of the pipe the sidebar instances share.
pub const SIZE_PIPE_NAME: &'static str = "zellij-agent-threads-layout";

/// The widths of the collapsed and expanded sidebar.
#[derive(Clone, Copy, Debug, PartialEq, Eq, Structural)]
pub struct PaneSizeConfig {
    pub collapsed_cols: usize,
    pub expanded_cols: usize,
}

impl PaneSizeConfig {
    /// Eight columns collapsed, sixteen expanded.
    pub fn defaults() -> (r: Self)
        ensures
            r.collapsed_cols == 8,
            r.expanded_cols == 16,
    {
        PaneSizeConfig { collapsed_cols: 8, expanded_cols: 16 }
    }
}

impl Default for PaneSizeConfig {
    fn default() -> (r: Self)
        ensures
            r.collapsed_cols == 8,
            r.expanded_cols == 16,
    {
        PaneSizeConfig::defaults()
    }
}

/// Which border of a pane a resize moves.
#[derive(Clone, Copy, Debug, PartialEq, Eq, Structural)]
pub enum Direction {
    Left,
    Right,
    Up,
    Down,
}

/// One pane of the manifest, as the width service reads it.
#[derive(Clone, Debug, PartialEq, Eq)]
pub struct LayoutPane {
    pub id: u32,
    pub is_plugin: bool,
    pub plugin_url: Option<String>,
    pub pane_x: usize,
    pub pane_columns: usize,
    pub pane_content_columns: usize,
}

/// Something the plugin must do for the width service.
#[derive(Clone, Debug, PartialEq, Eq)]
pub enum PaneSizeEffect {
    ResizePluginPane { pane_id: PaneId, current_cols: usize, target_cols: usize, direction: Option<Direction> },
    SendControlMessage { peer: u32, payload: String },
}

/// What a peer's message asks of this sidebar.
#[derive(Clone, Debug, PartialEq, Eq)]
pub struct PaneSizeUpdate {
    pub collapsed: bool,
    pub effects: Vec<PaneSizeEffect>,
}

/// The width service of one sidebar instance.
pub struct PaneSizeService {
    pub config: PaneSizeConfig,
    /// Ids of the other panes of this plugin, increasing.
    pub peers: Vec<u32>,
    pub own_plugin_url: Option<String>,
    pub own_cols: usize,
    pub resize_direction: Option<Direction>,
    pub revision: u64,
    /// The last revision seen from each peer, one entry per peer.
    pub seen_revisions: Vec<(u32, u64)>,
}

/// The right edge of a pane.
pub open spec fn right_edge(p: LayoutPane) -> int {
    p.pane_x + p.pane_columns
}

/// The leftmost edge of the panes.
pub open spec fn min_x(panes: Seq<LayoutPane>) -> int
    decreases panes.len(),
{
    if panes.len() == 0 {
        0
    } else if panes.len() == 1 {
        panes[0].pane_x as int
    } else {
        let m = min_x(panes.drop_last());
        if (panes.last().pane_x as int) < m {
            panes.last().pane_x as int
        } else {
            m
        }
    }
}

/// The rightmost edge of the panes.
pub open spec fn max_right(panes: Seq<LayoutPane>) -> int
    decreases panes.len(),
{
    if panes.len() == 0 {
        0
    } else if panes.len() == 1 {
        right_edge(panes[0])
    } else {
        let m = max_right(panes.drop_last());
        if right_edge(panes.last()) > m {
            right_edge(panes.last())
        } else {
            m
        }
    }
}

/// The border a sidebar moves to resize itself: its right border when it sits at the left
/// edge with panes to its right, its left border when it sits at the right edge with panes
/// to its left, none otherwise.
pub open spec fn border_direction(own: LayoutPane, panes: Seq<LayoutPane>) -> Option<Direction> {
    if panes.len() == 0 {
        None
    } else if own.pane_x == min_x(panes) && right_edge(own) < max_right(panes) {
        Some(Direction::Right)
    } else if right_edge(own) == max_right(panes) && own.pane_x > min_x(panes) {
        Some(Direction::Left)
    } else {
        None
    }
}

/// Whether every pane's right edge fits in `usize`.
pub open spec fn edges_fit(panes: Seq<LayoutPane>) -> bool {
    forall|i: int| 0 <= i < panes.len() ==> right_edge(#[trigger] panes[i]) <= usize::MAX
}

/// The border a sidebar moves to resize itself.
pub fn resize_border_direction(own: &LayoutPane, panes: &Vec<LayoutPane>) -> (r: Option<Direction>)
    requires
        right_edge(*own) <= usize::MAX,
        edges_fit(panes@),
    ensures
        r == border_direction(*own, panes@),
{
    if panes.len() == 0 {
        return None;
    }
    let mut lo: usize = panes[0].pane_x;
    let mut hi: usize = panes[0].pane_x + panes[0].pane_columns;
    let mut i: usize = 1;
    assert(panes@.take(1).len() == 1);
    assert(panes@.take(1)[0] == panes@[0]);
    while i < panes.len()
        invariant
            1 <= i <= panes@.len(),
            edges_fit(panes@),
            lo == min_x(panes@.take(i as int)),
            hi == max_right(panes@.take(i as int)),
        decreases panes@.len() - i,
    {
        let ghost t = panes@.take(i + 1);
        assert(t.drop_last() =~= panes@.take(i as int));
        assert(t.last() == panes@[i as int]);
        assert(right_edge(panes@[i as int]) <= usize::MAX);
        let x = panes[i].pane_x;
        let r = panes[i].pane_x + panes[i].pane_columns;
        if x < lo {
            lo = x;
        }
        if r > hi {
            hi = r;
        }
        i = i + 1;
    }
    assert(panes@.take(i as int) =~= panes@);
    let own_right = own.pane_x + own.pane_columns;
    if own.pane_x == lo && own_right < hi {
        Some(Direction::Right)
    } else if own_right == hi && own.pane_x > lo {
        Some(Direction::Left)
    } else {
        None
    }
}

/// The peer message announcing a resize.
pub open spec fn size_message(collapsed: bool, target_cols: usize, revision: u64, source: u32) -> Seq<char> {
    "{\"kind\":\"pane_size\",\"collapsed\":"@ + (if collapsed {
        "true"@
    } else {
        "false"@
    }) + ",\"target_cols\":"@ + decimal(target_cols as nat) + ",\"revision\":"@ + decimal(revision as nat)
        + ",\"source_plugin_id\":"@ + decimal(source as nat) + "}"@
}

/// A peer message's kind, collapsed flag, target width, revision and source pane, when the
/// document is one: an object with these members (others are ignored), or an array of these
/// five fields in this order, each well typed.
pub open spec fn size_message_of(doc: JsonDoc) -> Option<(Seq<char>, bool, u64, u64, u64)> {
    if !record_shaped(doc, 5) {
        None
    } else {
        match (
            record_field(doc, "kind"@, 0),
            record_field(doc, "collapsed"@, 1),
            record_field(doc, "target_cols"@, 2),
            record_field(doc, "revision"@, 3),
            record_field(doc, "source_plugin_id"@, 4),
        ) {
            (
                Some(JsonScalar::Text(k)),
                Some(JsonScalar::Bool(c)),
                Some(JsonScalar::Number(Some(t))),
                Some(JsonScalar::Number(Some(v))),
                Some(JsonScalar::Number(Some(s))),
            ) => if t <= usize::MAX && s <= u32::MAX {
                Some((k@, c, t, v, s))
            } else {
                None
            },
            _ => None,
        }
    }
}

/// The revision last seen from `source`, zero if none.
pub open spec fn seen_revision(seen: Seq<(u32, u64)>, source: u32) -> u64
    decreases seen.len(),
{
    if seen.len() == 0 {
        0
    } else if seen[0].0 == source {
        seen[0].1
    } else {
        seen_revision(seen.drop_first(), source)
    }
}

/// Whether each source occurs once.
pub open spec fn sources_distinct(seen: Seq<(u32, u64)>) -> bool {
    forall|i: int, j: int| 0 <= i < j < seen.len() ==> (#[trigger] seen[i]).0 != (#[trigger] seen[j]).0
}

/// Whether `x` occurs in `s`.
pub open spec fn has_id(s: Seq<u32>, x: u32) -> bool {
    exists|i: int| 0 <= i < s.len() && s[i] == x
}

/// Whether the ids increase strictly.
pub open spec fn increasing(s: Seq<u32>) -> bool {
    forall|i: int, j: int| 0 <= i < j < s.len() ==> s[i] < s[j]
}

/// Whether pane `p` is a peer of this sidebar: another pane of the same plugin.
pub open spec fn is_peer(p: LayoutPane, self_id: u32, url: Seq<char>) -> bool {
    p.is_plugin && p.id != self_id && opt_view(p.plugin_url) == Some(url)
}

/// The index of this sidebar's own pane: the first plugin pane with its id.
pub open spec fn own_pane(panes: Seq<LayoutPane>, self_id: u32) -> Option<int>
    decreases panes.len(),
{
    if panes.len() == 0 {
        None
    } else if panes[0].is_plugin && panes[0].id == self_id {
        Some(0)
    } else {
        match own_pane(panes.drop_first(), self_id) {
            Some(i) => Some(i + 1),
            None => None,
        }
    }
}

proof fn lemma_own_pane(panes: Seq<LayoutPane>, self_id: u32)
    ensures
        own_pane(panes, self_id) matches Some(i) ==> 0 <= i < panes.len() && panes[i].is_plugin && panes[i].id == self_id,
    decreases panes.len(),
{
    if panes.len() > 0 {
        lemma_own_pane(panes.drop_first(), self_id);
    }
}

/// Adds `x` to increasing ids, keeping them increasing and distinct.
fn insert_id(ids: &mut Vec<u32>, x: u32)
    requires
        increasing(old(ids)@),
    ensures
        increasing(final(ids)@),
        forall|y: u32| has_id(final(ids)@, y) <==> (has_id(old(ids)@, y) || y == x),
{
    let ghost before = ids@;
    let mut k: usize = 0;
    while k < ids.len() && ids[k] < x
        invariant
            k <= ids@.len(),
            ids@ == before,
            forall|j: int| 0 <= j < k ==> ids@[j] < x,
        decreases ids@.len() - k,
    {
        k = k + 1;
    }
    if k < ids.len() && ids[k] == x {
        assert(has_id(before, x));
        return;
    }
    ids.insert(k, x);
    assert(ids@ =~= before.take(k as int) + seq![x] + before.skip(k as int));
    assert forall|y: u32| has_id(ids@, y) <==> (has_id(before, y) || y == x) by {
        if has_id(ids@, y) {
            let i = choose|i: int| 0 <= i < ids@.len() && ids@[i] == y;
            if i < k {
                assert(before[i] == y);
            } else if i > k {
                assert(before[i - 1] == y);
            }
        }
        if has_id(before, y) {
            let i = choose|i: int| 0 <= i < before.len() && before[i] == y;
            if i < k {
                assert(ids@[i] == y);
            } else {
                assert(ids@[i + 1] == y);
            }
        }
        if y == x {
            assert(ids@[k as int] == y);
        }
    }
    assert(increasing(ids@)) by {
        assert forall|a: int, b: int| 0 <= a < b < ids@.len() implies ids@[a] < ids@[b] by {
            if b < k {
                assert(ids@[a] == before[a] && ids@[b] == before[b]);
            } else if b == k {
                assert(ids@[a] == before[a]);
            } else if a < k {
                assert(ids@[a] == before[a] && ids@[b] == before[b - 1]);
                if (k as int) < before.len() {
                    assert(before[b - 1] >= before[k as int]);
                }
            } else if a == k {
                assert(ids@[b] == before[b - 1]);
            } else {
                assert(ids@[a] == before[a - 1] && ids@[b] == before[b - 1]);
            }
        }
    }
}

impl PaneSizeService {
    /// Every peer listed once, in increasing order; one revision per peer.
    pub open spec fn wf(&self) -> bool {
        increasing(self.peers@) && sources_distinct(self.seen_revisions@)
    }

    /// A service that knows no pane yet.
    pub fn new(config: PaneSizeConfig) -> (r: Self)
        ensures
            r.wf(),
            r.config == config,
            r.peers@.len() == 0,
            r.own_plugin_url is None,
            r.own_cols == 0,
            r.resize_direction is None,
            r.revision == 0,
            r.seen_revisions@.len() == 0,
    {
        PaneSizeService {
            config,
            peers: Vec::new(),
            own_plugin_url: None,
            own_cols: 0,
            resize_direction: None,
            revision: 0,
            seen_revisions: Vec::new(),
        }
    }

    /// Records the sidebar's width; a zero width is ignored.
    pub fn set_current_cols(&mut self, cols: usize)
        ensures
            final(self).own_cols == if cols > 0 {
                cols
            } else {
                old(self).own_cols
            },
            final(self).config == old(self).config,
            final(self).peers == old(self).peers,
            final(self).own_plugin_url == old(self).own_plugin_url,
            final(self).resize_direction == old(self).resize_direction,
            final(self).revision == old(self).revision,
            final(self).seen_revisions == old(self).seen_revisions,
    {
        if cols > 0 {
            self.own_cols = cols;
        }
    }

    /// The configured width for the collapsed or expanded state.
    pub fn target_cols_for_state(&self, should_be_collapsed: bool) -> (r: usize)
        ensures
            r == if should_be_collapsed {
                self.config.collapsed_cols
            } else {
                self.config.expanded_cols
            },
    {
        if should_be_collapsed {
            self.config.collapsed_cols
        } else {
            self.config.expanded_cols
        }
    }

    /// Follows a pane manifest: this sidebar's plugin, width and resize border, and its peers
    /// (every other pane of the same plugin, in increasing id order, each once).
    pub fn sync_peers(&mut self, self_id: Option<u32>, panes: &Vec<LayoutPane>)
        requires
            old(self).wf(),
            edges_fit(panes@),
        ensures
            final(self).wf(),
            final(self).config == old(self).config,
            final(self).revision == old(self).revision,
            final(self).seen_revisions == old(self).seen_revisions,
            self_id is None ==> {
                &&& final(self).peers == old(self).peers
                &&& final(self).own_plugin_url == old(self).own_plugin_url
                &&& final(self).own_cols == old(self).own_cols
                &&& final(self).resize_direction == old(self).resize_direction
            },
            self_id matches Some(me) ==> {
                &&& match own_pane(panes@, me) {
                    Some(i) => {
                        &&& final(self).own_plugin_url == panes@[i].plugin_url
                        &&& final(self).own_cols == panes@[i].pane_content_columns
                        &&& final(self).resize_direction == border_direction(panes@[i], panes@)
                    },
                    None => {
                        &&& final(self).own_plugin_url == old(self).own_plugin_url
                        &&& final(self).own_cols == old(self).own_cols
                        &&& final(self).resize_direction == old(self).resize_direction
                    },
                }
                &&& match final(self).own_plugin_url {
                    None => final(self).peers@.len() == 0,
                    Some(url) => forall|y: u32| has_id(final(self).peers@, y) <==> exists|i: int|
                        0 <= i < panes@.len() && is_peer(#[trigger] panes@[i], me, url@) && panes@[i].id == y,
                }
            },
    {
        let me = match self_id {
            Some(me) => me,
            None => {
                return;
            },
        };
        let mut found: Option<usize> = None;
        let mut i: usize = 0;
        assert(panes@.skip(0) =~= panes@);
        while i < panes.len() && found.is_none()
            invariant
                i <= panes@.len(),
                match found {
                    Some(f) => own_pane(panes@, me) == Some(f as int),
                    None => own_pane(panes@, me) == match own_pane(panes@.skip(i as int), me) {
                        Some(x) => Some(x + i),
                        None => None,
                    },
                },
            decreases panes@.len() - i,
        {
            assert(panes@.skip(i as int)[0] == panes@[i as int]);
            assert(panes@.skip(i as int).drop_first() =~= panes@.skip(i + 1));
            if panes[i].is_plugin && panes[i].id == me {
                found = Some(i);
            }
            i = i + 1;
        }
        if found.is_none() {
            assert(panes@.skip(i as int) =~= Seq::<LayoutPane>::empty());
        }
        proof {
            lemma_own_pane(panes@, me);
        }
        if let Some(f) = found {
            assert(right_edge(panes@[f as int]) <= usize::MAX);
            self.own_plugin_url = crate::runtime::clone_opt(&panes[f].plugin_url);
            self.own_cols = panes[f].pane_content_columns;
            self.resize_direction = resize_border_direction(&panes[f], panes);
        }
        let url = match &self.own_plugin_url {
            Some(u) => u.clone(),
            None => {
                self.peers = Vec::new();
                return;
            },
        };
        let mut peers: Vec<u32> = Vec::new();
        let mut k: usize = 0;
        while k < panes.len()
            invariant
                k <= panes@.len(),
                increasing(peers@),
                forall|y: u32| has_id(peers@, y) <==> exists|j: int|
                    0 <= j < k && is_peer(#[trigger] panes@[j], me, url@) && panes@[j].id == y,
            decreases panes@.len() - k,
        {
            let p = &panes[k];
            let peer = p.is_plugin && p.id != me && match &p.plugin_url {
                Some(u) => same_text(u.as_str(), url.as_str()),
                None => false,
            };
            let ghost before = peers@;
            if peer {
                insert_id(&mut peers, p.id);
            }
            assert forall|y: u32| has_id(peers@, y) <==> exists|j: int|
                0 <= j < k + 1 && is_peer(#[trigger] panes@[j], me, url@) && panes@[j].id == y by {
                if exists|j: int| 0 <= j < k + 1 && is_peer(#[trigger] panes@[j], me, url@) && panes@[j].id == y {
                    let j = choose|j: int| 0 <= j < k + 1 && is_peer(#[trigger] panes@[j], me, url@) && panes@[j].id == y;
                    if j < k {
                        assert(has_id(before, y));
                    }
                }
            }
            k = k + 1;
        }
        self.peers = peers;
    }
}


fn push_bool_text(out: &mut Vec<char>, b: bool)
    ensures
        final(out)@ == old(out)@ + if b {
            "true"@
        } else {
            "false"@
        },
{
    if b {
        push_text(out, "true");
    } else {
        push_text(out, "false");
    }
}

/// The peer message announcing a resize, as text.
fn size_message_text(collapsed: bool, target_cols: usize, revision: u64, source: u32) -> (r: String)
    ensures
        r@ == size_message(collapsed, target_cols, revision, source),
{
    let mut out: Vec<char> = Vec::new();
    push_text(&mut out, "{\"kind\":\"pane_size\",\"collapsed\":");
    push_bool_text(&mut out, collapsed);
    push_text(&mut out, ",\"target_cols\":");
    push_decimal(&mut out, target_cols as u128);
    push_text(&mut out, ",\"revision\":");
    push_decimal(&mut out, revision as u128);
    push_text(&mut out, ",\"source_plugin_id\":");
    push_decimal(&mut out, source as u128);
    push_text(&mut out, "}");
    assert(out@ =~= size_message(collapsed, target_cols, revision, source));
    string_of(&out)
}

/// Reads a peer message from a parsed document.
pub fn decode_size_message(doc: &JsonDoc) -> (r: Option<(String, bool, usize, u64, u32)>)
    ensures
        match r {
            Some((k, c, t, v, s)) => size_message_of(*doc) == Some((k@, c, t as u64, v, s as u64)),
            None => size_message_of(*doc) is None,
        },
{
    if !has_record_shape(doc, 5) {
        return None;
    }
    let kind = match get_record_field(doc, "kind", 0) {
        Some(JsonScalar::Text(k)) => k.clone(),
        _ => {
            return None;
        },
    };
    let collapsed = match get_record_field(doc, "collapsed", 1) {
        Some(JsonScalar::Bool(c)) => *c,
        _ => {
            return None;
        },
    };
    let target = match get_record_field(doc, "target_cols", 2) {
        Some(JsonScalar::Number(Some(t))) => *t,
        _ => {
            return None;
        },
    };
    let revision = match get_record_field(doc, "revision", 3) {
        Some(JsonScalar::Number(Some(v))) => *v,
        _ => {
            return None;
        },
    };
    let source = match get_record_field(doc, "source_plugin_id", 4) {
        Some(JsonScalar::Number(Some(x))) => *x,
        _ => {
            return None;
        },
    };
    if target > usize::MAX as u64 || source > u32::MAX as u64 {
        return None;
    }
    Some((kind, collapsed, target as usize, revision, source as u32))
}

/// Whether `e` asks to resize this sidebar's pane `me` from `current` to `target` columns by
/// moving `direction`.
pub open spec fn is_resize(e: PaneSizeEffect, me: u32, current: usize, target: usize, direction: Option<Direction>) -> bool {
    e == PaneSizeEffect::ResizePluginPane {
        pane_id: PaneId::Plugin(me),
        current_cols: current,
        target_cols: target,
        direction,
    }
}

/// Whether `e` sends `payload` to `peer`.
pub open spec fn is_send(e: PaneSizeEffect, peer: u32, payload: Seq<char>) -> bool {
    match e {
        PaneSizeEffect::SendControlMessage { peer: p, payload: q } => p == peer && q@ == payload,
        _ => false,
    }
}

/// What handling a message on the layout pipe does, from `old` to `new`: messages on other
/// pipes, without a decodable payload, of another kind or from this sidebar itself are
/// ignored; so is one not newer than the last revision seen from its source. A newer one is
/// recorded under its source and resizes this sidebar to the width it announces.
pub open spec fn size_pipe_handled(
    old: PaneSizeService,
    new: PaneSizeService,
    name: Seq<char>,
    payload: Option<Seq<char>>,
    self_id: Option<u32>,
    current_cols: usize,
    r: Option<PaneSizeUpdate>,
) -> bool {
    let msg = match payload {
        Some(p) => match json_document(p) {
            Some(d) => size_message_of(d),
            None => None,
        },
        None => None,
    };
    let m = msg->0;
    if name != SIZE_PIPE_NAME@ || msg is None || m.0 != "pane_size"@
        || self_id == Some(m.4 as u32) {
        &&& r is None
        &&& new.own_cols == old.own_cols
        &&& new.seen_revisions == old.seen_revisions
    } else {
        let source = m.4 as u32;
        &&& forall|s: u32| s != source ==> seen_revision(new.seen_revisions@, s)
            == seen_revision(old.seen_revisions@, s)
        &&& if m.3 <= seen_revision(old.seen_revisions@, source) {
            &&& r is None
            &&& new.own_cols == old.own_cols
            &&& seen_revision(new.seen_revisions@, source) == seen_revision(old.seen_revisions@, source)
        } else {
            let current = if current_cols > 0 {
                current_cols
            } else {
                old.own_cols
            };
            &&& seen_revision(new.seen_revisions@, source) == m.3
            &&& r matches Some(u) && u.collapsed == m.1 && match self_id {
                Some(me) => u.effects@.len() == 1 && is_resize(u.effects@[0], me, current, m.2 as usize, old.resize_direction)
                    && new.own_cols == m.2,
                None => u.effects@.len() == 0 && new.own_cols == current,
            }
        }
    }
}

impl PaneSizeService {
    /// The user toggled this sidebar: resize it to the width of the new state and tell every
    /// peer, under a new revision.
    pub fn local_toggle(&mut self, self_id: Option<u32>, should_be_collapsed: bool, current_cols: usize) -> (effects: Vec<PaneSizeEffect>)
        requires
            old(self).wf(),
            old(self).revision < u64::MAX,
        ensures
            final(self).wf(),
            final(self).config == old(self).config,
            final(self).peers == old(self).peers,
            final(self).own_plugin_url == old(self).own_plugin_url,
            final(self).resize_direction == old(self).resize_direction,
            final(self).seen_revisions == old(self).seen_revisions,
            self_id is None ==> effects@.len() == 0 && final(self).own_cols == old(self).own_cols
                && final(self).revision == old(self).revision,
            self_id matches Some(me) ==> {
                let target = if should_be_collapsed {
                    old(self).config.collapsed_cols
                } else {
                    old(self).config.expanded_cols
                };
                let current = if current_cols > 0 {
                    current_cols
                } else {
                    old(self).own_cols
                };
                let revision = (old(self).revision + 1) as u64;
                &&& final(self).own_cols == target
                &&& final(self).revision == revision
                &&& effects@.len() == old(self).peers@.len() + 1
                &&& is_resize(effects@[0], me, current, target, old(self).resize_direction)
                &&& forall|i: int| 0 <= i < old(self).peers@.len() ==> is_send(#[trigger] effects@[i + 1], old(self).peers@[i], size_message(should_be_collapsed, target, revision, me))
            },
    {
        let me = match self_id {
            Some(me) => me,
            None => {
                return Vec::new();
            },
        };
        self.set_current_cols(current_cols);
        let target_cols = self.target_cols_for_state(should_be_collapsed);
        let mut effects: Vec<PaneSizeEffect> = Vec::new();
        effects.push(PaneSizeEffect::ResizePluginPane {
            pane_id: PaneId::Plugin(me),
            current_cols: self.own_cols,
            target_cols,
            direction: self.resize_direction,
        });
        self.own_cols = target_cols;
        self.revision = self.revision + 1;
        let payload = size_message_text(should_be_collapsed, target_cols, self.revision, me);
        let mut i: usize = 0;
        while i < self.peers.len()
            invariant
                i <= self.peers@.len(),
                effects@.len() == i + 1,
                is_resize(effects@[0], me, if current_cols > 0 { current_cols } else { old(self).own_cols }, target_cols, old(self).resize_direction),
                payload@ == size_message(should_be_collapsed, target_cols, self.revision, me),
                forall|k: int| 0 <= k < i ==> is_send(#[trigger] effects@[k + 1], self.peers@[k], payload@),
            decreases self.peers@.len() - i,
        {
            effects.push(PaneSizeEffect::SendControlMessage { peer: self.peers[i], payload: payload.clone() });
            assert(is_send(effects@[i + 1], self.peers@[i as int], payload@));
            i = i + 1;
        }
        effects
    }

    fn seen_index(&self, source: u32) -> (r: Option<usize>)
        ensures
            match r {
                Some(i) => i < self.seen_revisions@.len() && self.seen_revisions@[i as int].0 == source,
                None => forall|i: int| 0 <= i < self.seen_revisions@.len() ==> (#[trigger] self.seen_revisions@[i]).0 != source,
            },
    {
        let mut i: usize = 0;
        while i < self.seen_revisions.len()
            invariant
                i <= self.seen_revisions@.len(),
                forall|k: int| 0 <= k < i ==> (#[trigger] self.seen_revisions@[k]).0 != source,
            decreases self.seen_revisions@.len() - i,
        {
            if self.seen_revisions[i].0 == source {
                return Some(i);
            }
            i = i + 1;
        }
        None
    }

    /// Handles a peer's message on the layout pipe.
    ///
    /// Messages on other pipes, without payload, of another kind, from this sidebar itself,
    /// or not newer than the last revision seen from their source are ignored (`None`).
    /// A newer one is recorded and resizes this sidebar to the width it announces.
    pub fn handle_pipe(&mut self, name: &str, payload: Option<&str>, self_id: Option<u32>, current_cols: usize) -> (r: Option<PaneSizeUpdate>)
        requires
            old(self).wf(),
        ensures
            final(self).wf(),
            final(self).config == old(self).config,
            final(self).peers == old(self).peers,
            final(self).own_plugin_url == old(self).own_plugin_url,
            final(self).resize_direction == old(self).resize_direction,
            final(self).revision == old(self).revision,
            size_pipe_handled(*old(self), *final(self), name@, match payload {
                Some(p) => Some(p@),
                None => None,
            }, self_id, current_cols, r),
    {
        if !same_text(name, SIZE_PIPE_NAME) {
            return None;
        }
        let p = match payload {
            Some(p) => p,
            None => {
                return None;
            },
        };
        let (kind, collapsed, target_cols, revision, source) = match parse_json(p) {
            Some(d) => match decode_size_message(&d) {
                Some(m) => m,
                None => {
                    return None;
                },
            },
            None => {
                return None;
            },
        };
        if !same_text(kind.as_str(), "pane_size") || self_id == Some(source) {
            return None;
        }
        let ghost before = self.seen_revisions@;
        proof {
            lemma_seen_revision(before, source);
        }
        let last = match self.seen_index(source) {
            Some(i) => {
                let last = self.seen_revisions[i].1;
                if revision <= last {
                    return None;
                }
                let ghost s0 = self.seen_revisions@;
                self.seen_revisions.set(i, (source, revision));
                proof {
                    lemma_seen_revision_update(s0, i as int, source, revision);
                }
                last
            },
            None => {
                if revision == 0 {
                    return None;
                }
                self.seen_revisions.push((source, revision));
                proof {
                    lemma_seen_revision_push(before, source, revision);
                }
                0
            },
        };
        self.set_current_cols(current_cols);
        let mut effects: Vec<PaneSizeEffect> = Vec::new();
        if let Some(me) = self_id {
            effects.push(PaneSizeEffect::ResizePluginPane {
                pane_id: PaneId::Plugin(me),
                current_cols: self.own_cols,
                target_cols,
                direction: self.resize_direction,
            });
            self.own_cols = target_cols;
        }
        Some(PaneSizeUpdate { collapsed, effects })
    }
}

proof fn lemma_seen_revision(seen: Seq<(u32, u64)>, source: u32)
    requires
        sources_distinct(seen),
    ensures
        forall|i: int| 0 <= i < seen.len() && (#[trigger] seen[i]).0 == source ==> seen_revision(seen, source) == seen[i].1,
        (forall|i: int| 0 <= i < seen.len() ==> (#[trigger] seen[i]).0 != source) ==> seen_revision(seen, source) == 0,
    decreases seen.len(),
{
    if seen.len() > 0 {
        let t = seen.drop_first();
        assert(sources_distinct(t)) by {
            assert forall|i: int, j: int| 0 <= i < j < t.len() implies (#[trigger] t[i]).0 != (#[trigger] t[j]).0 by {
                assert(t[i] == seen[i + 1] && t[j] == seen[j + 1]);
            }
        }
        lemma_seen_revision(t, source);
        assert forall|i: int| 0 <= i < seen.len() && (#[trigger] seen[i]).0 == source implies seen_revision(seen, source) == seen[i].1 by {
            if i > 0 {
                assert(t[i - 1] == seen[i]);
                assert(seen[0].0 != source);
            }
        }
        if forall|i: int| 0 <= i < seen.len() ==> (#[trigger] seen[i]).0 != source {
            assert forall|i: int| 0 <= i < t.len() implies (#[trigger] t[i]).0 != source by {
                assert(t[i] == seen[i + 1]);
            }
        }
    }
}

proof fn lemma_seen_revision_update(seen: Seq<(u32, u64)>, k: int, source: u32, revision: u64)
    requires
        sources_distinct(seen),
        0 <= k < seen.len(),
        seen[k].0 == source,
    ensures
        sources_distinct(seen.update(k, (source, revision))),
        seen_revision(seen.update(k, (source, revision)), source) == revision,
        forall|s: u32| s != source ==> seen_revision(seen.update(k, (source, revision)), s) == seen_revision(seen, s),
{
    let u = seen.update(k, (source, revision));
    assert forall|i: int, j: int| 0 <= i < j < u.len() implies (#[trigger] u[i]).0 != (#[trigger] u[j]).0 by {
        assert(u[i].0 == seen[i].0 && u[j].0 == seen[j].0);
    }
    lemma_seen_revision(u, source);
    assert(u[k].0 == source);
    assert forall|s: u32| s != source implies seen_revision(u, s) == seen_revision(seen, s) by {
        lemma_seen_revision(u, s);
        lemma_seen_revision(seen, s);
        if exists|i: int| 0 <= i < seen.len() && (#[trigger] seen[i]).0 == s {
            let i = choose|i: int| 0 <= i < seen.len() && (#[trigger] seen[i]).0 == s;
            assert(u[i] == seen[i]);
        } else {
            assert forall|i: int| 0 <= i < u.len() implies (#[trigger] u[i]).0 != s by {
                assert(u[i].0 == seen[i].0 || i == k);
            }
        }
    }
}

proof fn lemma_seen_revision_push(seen: Seq<(u32, u64)>, source: u32, revision: u64)
    requires
        sources_distinct(seen),
        forall|i: int| 0 <= i < seen.len() ==> (#[trigger] seen[i]).0 != source,
    ensures
        sources_distinct(seen.push((source, revision))),
        seen_revision(seen.push((source, revision)), source) == revision,
        forall|s: u32| s != source ==> seen_revision(seen.push((source, revision)), s) == seen_revision(seen, s),
{
    let u = seen.push((source, revision));
    assert forall|i: int, j: int| 0 <= i < j < u.len() implies (#[trigger] u[i]).0 != (#[trigger] u[j]).0 by {
        if j < seen.len() {
            assert(u[i] == seen[i] && u[j] == seen[j]);
        } else {
            assert(u[i] == seen[i]);
        }
    }
    lemma_seen_revision(u, source);
    assert(u[seen.len() as int].0 == source);
    assert forall|s: u32| s != source implies seen_revision(u, s) == seen_revision(seen, s) by {
        lemma_seen_revision(u, s);
        lemma_seen_revision(seen, s);
        if exists|i: int| 0 <= i < seen.len() && (#[trigger] seen[i]).0 == s {
            let i = choose|i: int| 0 <= i < seen.len() && (#[trigger] seen[i]).0 == s;
            assert(u[i] == seen[i]);
        } else {
            assert forall|i: int| 0 <= i < u.len() implies (#[trigger] u[i]).0 != s by {
                if i < seen.len() {
                    assert(u[i] == seen[i]);
                }
            }
        }
    }
}


/// Whether a resize step grows or shrinks a pane.
#[derive(Clone, Copy, Debug, PartialEq, Eq, Structural)]
pub enum Resize {
    Increase,
    Decrease,
}

/// The resize steps that take a pane from `current_cols` to `target_cols` columns: none when
/// its width is unknown (zero) or already right, else one step per column in the direction
/// of the target.
pub fn resize_plan(current_cols: usize, target_cols: usize) -> (r: Option<(Resize, usize)>)
    ensures
        current_cols == 0 || current_cols == target_cols ==> r is None,
        current_cols != 0 && current_cols > target_cols ==> r == Some((Resize::Decrease, (current_cols - target_cols) as usize)),
        current_cols != 0 && current_cols < target_cols ==> r == Some((Resize::Increase, (target_cols - current_cols) as usize)),
{
    if current_cols == 0 || current_cols == target_cols {
        return None;
    }
    if current_cols > target_cols {
        Some((Resize::Decrease, current_cols - target_cols))
    } else {
        Some((Resize::Increase, target_cols - current_cols))
    }
}

} // verus!
