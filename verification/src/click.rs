//! Clickable regions of rendered text.
//!
//! A button's label is wrapped in private-use markers that carry the index of its action
//! in a registry. After rendering, the markers are stripped line by line: the visible
//! columns between a start and an end marker become a hitbox for that action. ANSI
//! escape sequences are kept in the text but take no column.

use vstd::prelude::*;
use vstd::string::StrSliceExecFns;
use vstd::utf8::encode_utf8;
use crate::text::{chars_of, lines, lines_of, parse_decimal, parse_unsigned, push_decimal,
    push_text, string_of, decimal, views, joined};

verus! {

/// The character that closes a marker.
pub const MARKER_END: char = '\u{E001}';

/// The character that opens a marker.
pub const MARKER_START: char = '\u{E000}';

/// What a click on a hitbox asks for.
#[derive(Clone, Debug, PartialEq, Eq)]
pub enum ClickAction {
    SwitchTab { tab: u32 },
    SwitchToSession { session: String },
    FocusPane { pane: String },
}

/// A clickable span of one rendered row, columns `start_col..end_col`.
#[derive(Clone, Debug, PartialEq, Eq)]
pub struct Hitbox {
    pub row: usize,
    pub start_col: usize,
    pub end_col: usize,
    pub action: ClickAction,
}

/// The actions of the buttons a render has wrapped, indexed by button id.
pub struct ButtonRegistry {
    pub actions: Vec<ClickAction>,
}

/// A copy of an action.
pub fn copy_action(a: &ClickAction) -> (r: ClickAction)
    ensures
        r == *a,
{
    match a {
        ClickAction::SwitchTab { tab } => ClickAction::SwitchTab { tab: *tab },
        ClickAction::SwitchToSession { session } => ClickAction::SwitchToSession {
            session: session.clone(),
        },
        ClickAction::FocusPane { pane } => ClickAction::FocusPane { pane: pane.clone() },
    }
}

/// The two characters that open a button.
pub open spec fn button_start() -> Seq<char> {
    seq![MARKER_START, 'B']
}

/// The two characters that close a button.
pub open spec fn button_end() -> Seq<char> {
    seq![MARKER_START, 'E']
}

/// The index of the first `c` in `s`.
pub open spec fn first_index(s: Seq<char>, c: char) -> Option<nat>
    decreases s.len(),
{
    if s.len() == 0 {
        None
    } else if s[0] == c {
        Some(0)
    } else {
        match first_index(s.drop_first(), c) {
            Some(k) => Some(k + 1),
            None => None,
        }
    }
}


/// A marker `prefix`, id digits and `MARKER_END` at index `i` of `line`: the id and how
/// many characters the marker takes.
pub open spec fn marker_at(line: Seq<char>, i: int, prefix: Seq<char>) -> Option<(usize, int)> {
    if 0 <= i && i + prefix.len() <= line.len() && line.subrange(i, i + prefix.len()) == prefix {
        let after = line.subrange(i + prefix.len(), line.len() as int);
        match first_index(after, MARKER_END) {
            None => None,
            Some(e) => match parse_unsigned(after.take(e as int), usize::MAX as nat) {
                Some(v) => Some((v as usize, (prefix.len() + e + 1) as int)),
                None => None,
            },
        }
    } else {
        None
    }
}

/// How many characters an escape sequence at `i` takes: through its first `m`, or one.
pub open spec fn escape_len(line: Seq<char>, i: int) -> int {
    match first_index(line.subrange(i, line.len() as int), 'm') {
        Some(k) => (k + 1) as int,
        None => 1,
    }
}

/// The hitbox a line's end closes for the button still open there.
pub open spec fn closing_hits(actions: Seq<ClickAction>, row: usize, col: int, active: Option<(usize, usize)>) -> Seq<Hitbox> {
    match active {
        Some((id, start)) => if id < actions.len() && col > start {
            seq![Hitbox { row, start_col: start, end_col: col as usize, action: actions[id as int] }]
        } else {
            Seq::empty()
        },
        None => Seq::empty(),
    }
}

/// Scans `line` from index `i` at visible column `col` with button `active` open: the
/// text without markers, the hitboxes found, and the button left open for the next line
/// (restarted at column zero).
pub open spec fn scan(
    line: Seq<char>,
    actions: Seq<ClickAction>,
    row: usize,
    i: int,
    col: int,
    active: Option<(usize, usize)>,
) -> (Seq<char>, Seq<Hitbox>, Option<(usize, usize)>)
    decreases line.len() - i,
{
    if i < 0 || i >= line.len() {
        (
            Seq::empty(),
            closing_hits(actions, row, col, active),
            match active {
                Some((id, _)) => Some((id, 0usize)),
                None => None,
            },
        )
    } else {
        match marker_at(line, i, button_start()) {
            Some((id, c)) => {
                proof {
                    lemma_marker_len(line, i, button_start());
                }
                scan(line, actions, row, i + c, col, Some((id, col as usize)))
            },
            None => match marker_at(line, i, button_end()) {
                Some((id, c)) => {
                    proof {
                        lemma_marker_len(line, i, button_end());
                    }
                    let hit = match active {
                        Some((aid, start)) => if id < actions.len() && aid == id && col > start {
                            seq![Hitbox { row, start_col: start, end_col: col as usize, action: actions[id as int] }]
                        } else {
                            Seq::empty()
                        },
                        None => Seq::empty(),
                    };
                    let rest = scan(line, actions, row, i + c, col, None);
                    (rest.0, hit + rest.1, rest.2)
                },
                None => if line[i] == '\u{1b}' {
                    let c = escape_len(line, i);
                    proof {
                        lemma_escape_len(line, i);
                    }
                    let rest = scan(line, actions, row, i + c, col, active);
                    (line.subrange(i, i + c) + rest.0, rest.1, rest.2)
                } else {
                    let rest = scan(line, actions, row, i + 1, col + 1, active);
                    (seq![line[i]] + rest.0, rest.1, rest.2)
                },
            },
        }
    }
}

/// The first `c` at or after index `from` of `v`.
pub fn find_from(v: &Vec<char>, from: usize, c: char) -> (r: Option<usize>)
    requires
        from <= v@.len(),
    ensures
        match r {
            Some(k) => from <= k < v@.len() && first_index(v@.subrange(from as int, v@.len() as int), c) == Some((k - from) as nat),
            None => first_index(v@.subrange(from as int, v@.len() as int), c) is None,
        },
{
    let n = v.len();
    let mut k: usize = n;
    let mut found: Option<usize> = None;
    // Walk backwards so that each step unfolds `first_index` once at the front.
    while k > from
        invariant
            from <= k <= n,
            n == v@.len(),
            match found {
                Some(f) => k <= f < n && first_index(v@.subrange(k as int, n as int), c) == Some((f - k) as nat),
                None => first_index(v@.subrange(k as int, n as int), c) is None,
            },
        decreases k,
    {
        let ghost s = v@.subrange(k - 1, n as int);
        assert(s.drop_first() =~= v@.subrange(k as int, n as int));
        if v[k - 1] == c {
            found = Some(k - 1);
        }
        k = k - 1;
    }
    found
}

/// A marker takes at least one character and ends within the line.
pub proof fn lemma_marker_len(line: Seq<char>, i: int, prefix: Seq<char>)
    ensures
        marker_at(line, i, prefix) matches Some((_, c)) ==> c >= 1 && i + c <= line.len(),
{
    if 0 <= i && i + prefix.len() <= line.len() {
        lemma_first_index_bound(line.subrange(i + prefix.len(), line.len() as int), MARKER_END);
    }
}

/// An escape sequence takes at least one character and ends within the line.
pub proof fn lemma_escape_len(line: Seq<char>, i: int)
    requires
        0 <= i < line.len(),
    ensures
        1 <= escape_len(line, i) && i + escape_len(line, i) <= line.len(),
{
    lemma_first_index_bound(line.subrange(i, line.len() as int), 'm');
}

pub proof fn lemma_first_index_bound(s: Seq<char>, c: char)
    ensures
        first_index(s, c) matches Some(k) ==> 0 <= k < s.len() && s[k as int] == c,
    decreases s.len(),
{
    if s.len() > 0 && s[0] != c {
        lemma_first_index_bound(s.drop_first(), c);
    }
}

/// Whether `p` occurs in `v` at index `i`.
fn starts_at(v: &Vec<char>, i: usize, p: &Vec<char>) -> (r: bool)
    requires
        i <= v@.len(),
    ensures
        r == (i + p@.len() <= v@.len() && v@.subrange(i as int, i + p@.len()) == p@),
{
    if v.len() - i < p.len() {
        return false;
    }
    let n = v.len();
    let mut k: usize = 0;
    while k < p.len()
        invariant
            k <= p@.len(),
            n == v@.len(),
            i + p@.len() <= n,
            forall|j: int| 0 <= j < k ==> v@[i + j] == #[trigger] p@[j],
        decreases p@.len() - k,
    {
        if v[i + k] != p[k] {
            assert(v@.subrange(i as int, i + p@.len())[k as int] != p@[k as int]);
            return false;
        }
        k = k + 1;
    }
    assert(v@.subrange(i as int, i + p@.len()) =~= p@);
    true
}

/// Reads a marker opened by `prefix` at index `i`.
fn read_marker(v: &Vec<char>, i: usize, prefix: &Vec<char>) -> (r: Option<(usize, usize)>)
    requires
        i <= v@.len(),
    ensures
        match r {
            Some((id, c)) => marker_at(v@, i as int, prefix@) == Some((id, c as int)) && c >= 1
                && i + c <= v@.len(),
            None => marker_at(v@, i as int, prefix@) is None,
        },
{
    let n = v.len();
    if !starts_at(v, i, prefix) {
        return None;
    }
    let p = prefix.len();
    let e = match find_from(v, i + p, MARKER_END) {
        Some(e) => e,
        None => {
            return None;
        },
    };
    let mut digits: Vec<char> = Vec::new();
    let mut k: usize = i + p;
    while k < e
        invariant
            i + p <= k <= e,
            e <= n,
            n == v@.len(),
            digits@ == v@.subrange(i + p, k as int),
        decreases e - k,
    {
        digits.push(v[k]);
        assert(digits@ =~= v@.subrange(i + p, k + 1));
        k = k + 1;
    }
    let ghost after = v@.subrange(i + p, n as int);
    assert(after.take((e - (i + p)) as int) =~= digits@);
    assert(e < n);
    match parse_decimal(&digits, usize::MAX as u64) {
        Some(id) => Some((id as usize, p + (e - (i + p)) + 1)),
        None => None,
    }
}

/// The characters an escape sequence at `i` takes.
pub fn escape_length(v: &Vec<char>, i: usize) -> (r: usize)
    requires
        i < v@.len(),
    ensures
        r as int == escape_len(v@, i as int),
        1 <= r,
        i + r <= v@.len(),
{
    proof {
        lemma_first_index_bound(v@.subrange(i as int, v@.len() as int), 'm');
    }
    let n = v.len();
    match find_from(v, i, 'm') {
        Some(k) => {
            assert(i <= k && k < n);
            (k - i) + 1
        },
        None => 1,
    }
}

/// Strips button markers from one rendered line and returns its hitboxes.
///
/// `active` is the button left open by the previous line; on return it is the button this
/// line leaves open, restarted at column zero.
pub fn strip_line_markers(
    row: usize,
    line: &str,
    actions: &Vec<ClickAction>,
    active: &mut Option<(usize, usize)>,
) -> (r: (String, Vec<Hitbox>))
    ensures
        ({
            let s = scan(line@, actions@, row, 0, 0, *old(active));
            r.0@ == s.0 && r.1@ == s.1 && *final(active) == s.2
        }),
{
    let v = chars_of(line);
    let n = v.len();
    let start = vec![MARKER_START, 'B'];
    let end = vec![MARKER_START, 'E'];
    assert(start@ =~= button_start());
    assert(end@ =~= button_end());
    let ghost total = scan(v@, actions@, row, 0, 0, *active);
    let mut clean: Vec<char> = Vec::new();
    let mut hits: Vec<Hitbox> = Vec::new();
    let mut col: usize = 0;
    let mut i: usize = 0;
    while i < n
        invariant
            i <= n,
            n == v@.len(),
            col <= i,
            start@ == button_start(),
            end@ == button_end(),
            ({
                let rest = scan(v@, actions@, row, i as int, col as int, *active);
                total == (clean@ + rest.0, hits@ + rest.1, rest.2)
            }),
        decreases n - i,
    {
        let ghost before_clean = clean@;
        let ghost before_hits = hits@;
        if let Some((id, c)) = read_marker(&v, i, &start) {
            *active = Some((id, col));
            i = i + c;
            continue;
        }
        if let Some((id, c)) = read_marker(&v, i, &end) {
            let open = active.take();
            if let Some((active_id, start_col)) = open {
                if id < actions.len() && active_id == id && col > start_col {
                    hits.push(Hitbox { row, start_col, end_col: col, action: copy_action(&actions[id]) });
                }
            }
            assert(hits@ =~= before_hits + match open {
                Some((aid, start)) => if id < actions@.len() && aid == id && col > start {
                    seq![Hitbox { row, start_col: start, end_col: col, action: actions@[id as int] }]
                } else {
                    Seq::empty()
                },
                None => Seq::<Hitbox>::empty(),
            });
            i = i + c;
            continue;
        }
        if v[i] == '\u{1b}' {
            let c = escape_length(&v, i);
            let mut k: usize = i;
            while k < i + c
                invariant
                    i <= k <= i + c,
                    i + c <= n,
                    n == v@.len(),
                    clean@ == before_clean + v@.subrange(i as int, k as int),
                decreases i + c - k,
            {
                clean.push(v[k]);
                assert(clean@ =~= before_clean + v@.subrange(i as int, k + 1));
                k = k + 1;
            }
            i = i + c;
            continue;
        }
        clean.push(v[i]);
        assert(clean@ =~= before_clean + seq![v@[i as int]]);
        col = col + 1;
        i = i + 1;
    }
    let ghost s = scan(v@, actions@, row, i as int, col as int, *active);
    assert(s.0 =~= Seq::<char>::empty());
    if let Some((id, start_col)) = *active {
        if id < actions.len() && col > start_col {
            hits.push(Hitbox { row, start_col, end_col: col, action: copy_action(&actions[id]) });
        }
        *active = Some((id, 0));
    }
    assert(clean@ =~= total.0);
    assert(hits@ =~= total.1);
    (string_of(&clean), hits)
}


/// Reads a marker opened by `prefix` at the start of `input`: its id and how many bytes it
/// takes.
pub fn parse_marker(input: &str, prefix: &str) -> (r: Option<(usize, usize)>)
    ensures
        match marker_at(input@, 0, prefix@) {
            Some((id, c)) => r == Some((id, encode_utf8(input@.subrange(0, c)).len() as usize)),
            None => r is None,
        },
{
    let v = chars_of(input);
    let p = chars_of(prefix);
    proof {
        lemma_marker_len(input@, 0, prefix@);
    }
    match read_marker(&v, 0, &p) {
        Some((id, c)) => Some((id, input.substring_char(0, c).len())),
        None => None,
    }
}

/// Whether hitbox `h` covers column `col` of row `row`.
pub open spec fn covers(h: Hitbox, row: int, col: int) -> bool {
    h.row == row && h.start_col <= col && col < h.end_col
}

/// The action of the first hitbox that covers column `col` of row `row`.
pub open spec fn action_at(hs: Seq<Hitbox>, row: int, col: int) -> Option<ClickAction>
    decreases hs.len(),
{
    if hs.len() == 0 {
        None
    } else if covers(hs[0], row, col) {
        Some(hs[0].action)
    } else {
        action_at(hs.drop_first(), row, col)
    }
}

/// The first hitbox that covers a column decides it: a hitbox on `row` whose columns run
/// from `start_col` up to but not including `end_col` answers for every column in that
/// range unless an earlier hitbox does, and a column no hitbox covers answers nothing.
pub proof fn lemma_action_at(hs: Seq<Hitbox>, row: int, col: int)
    ensures
        forall|i: int|
            0 <= i < hs.len() && (#[trigger] hs[i]).row == row && hs[i].start_col <= col && col < hs[i].end_col
                && (forall|j: int| 0 <= j < i ==> !((#[trigger] hs[j]).row == row && hs[j].start_col <= col
                && col < hs[j].end_col)) ==> action_at(hs, row, col) == Some(hs[i].action),
        action_at(hs, row, col) matches Some(a) ==> exists|i: int|
            0 <= i < hs.len() && (#[trigger] hs[i]).row == row && hs[i].start_col <= col && col < hs[i].end_col
                && hs[i].action == a,
        action_at(hs, row, col) is None ==> forall|i: int|
            0 <= i < hs.len() ==> !((#[trigger] hs[i]).row == row && hs[i].start_col <= col && col < hs[i].end_col),
    decreases hs.len(),
{
    if hs.len() > 0 {
        let t = hs.drop_first();
        lemma_action_at(t, row, col);
        assert forall|i: int| 0 < i < hs.len() implies #[trigger] hs[i] == t[i - 1] by {}
        if !covers(hs[0], row, col) {
            assert forall|i: int|
                0 <= i < hs.len() && (#[trigger] hs[i]).row == row && hs[i].start_col <= col && col < hs[i].end_col
                    && (forall|j: int| 0 <= j < i ==> !((#[trigger] hs[j]).row == row && hs[j].start_col <= col
                    && col < hs[j].end_col)) implies action_at(hs, row, col) == Some(hs[i].action) by {
                assert(i > 0);
                assert(hs[i] == t[i - 1]);
                assert forall|j: int| 0 <= j < i - 1 implies !((#[trigger] t[j]).row == row && t[j].start_col <= col
                    && col < t[j].end_col) by {
                    assert(t[j] == hs[j + 1]);
                }
            }
            if let Some(a) = action_at(hs, row, col) {
                let k = choose|k: int|
                    0 <= k < t.len() && (#[trigger] t[k]).row == row && t[k].start_col <= col && col < t[k].end_col
                        && t[k].action == a;
                assert(hs[k + 1] == t[k]);
            }
            if action_at(hs, row, col) is None {
                assert forall|i: int| 0 <= i < hs.len() implies !((#[trigger] hs[i]).row == row && hs[i].start_col
                    <= col && col < hs[i].end_col) by {
                    if i > 0 {
                        assert(hs[i] == t[i - 1]);
                    }
                }
            }
        } else {
            assert forall|i: int|
                0 <= i < hs.len() && (#[trigger] hs[i]).row == row && hs[i].start_col <= col && col < hs[i].end_col
                    && (forall|j: int| 0 <= j < i ==> !((#[trigger] hs[j]).row == row && hs[j].start_col <= col
                    && col < hs[j].end_col)) implies action_at(hs, row, col) == Some(hs[i].action) by {
                if i > 0 {
                    assert(!(hs[0].row == row && hs[0].start_col <= col && col < hs[0].end_col));
                }
            }
        }
    }
}

fn first_hit(hitboxes: &Vec<Hitbox>, row: isize, col: usize) -> (r: Option<ClickAction>)
    ensures
        r == if row < 0 {
            None
        } else {
            action_at(hitboxes@, row as int, col as int)
        },
{
    if row < 0 {
        return None;
    }
    let r0 = row as usize;
    assert(r0 as int == row as int);
    let mut i: usize = 0;
    assert(hitboxes@.skip(0) =~= hitboxes@);
    while i < hitboxes.len()
        invariant
            i <= hitboxes@.len(),
            row >= 0,
            r0 as int == row as int,
            action_at(hitboxes@, r0 as int, col as int) == action_at(
                hitboxes@.skip(i as int),
                r0 as int,
                col as int,
            ),
        decreases hitboxes@.len() - i,
    {
        let h = &hitboxes[i];
        assert(hitboxes@.skip(i as int)[0] == hitboxes@[i as int]);
        if h.row == r0 && col >= h.start_col && col < h.end_col {
            assert(covers(hitboxes@.skip(i as int)[0], r0 as int, col as int));
            return Some(copy_action(&h.action));
        }
        assert(hitboxes@.skip(i as int).drop_first() =~= hitboxes@.skip(i + 1));
        i = i + 1;
    }
    assert(hitboxes@.skip(i as int) =~= Seq::<Hitbox>::empty());
    None
}

/// The action of the first hitbox under a click; a negative row hits nothing.
pub fn hitbox_at(hitboxes: &Vec<Hitbox>, row: isize, col: usize) -> (r: Option<ClickAction>)
    ensures
        r == if row < 0 {
            None
        } else {
            action_at(hitboxes@, row as int, col as int)
        },
        forall|i: int|
            0 <= i < hitboxes@.len() && (#[trigger] hitboxes@[i]).row == row && hitboxes@[i].start_col <= col
                && col < hitboxes@[i].end_col && (forall|j: int| 0 <= j < i ==> !((#[trigger] hitboxes@[j]).row == row
                && hitboxes@[j].start_col <= col && col < hitboxes@[j].end_col)) ==> r == Some(hitboxes@[i].action),
        r matches Some(a) ==> exists|i: int|
            0 <= i < hitboxes@.len() && (#[trigger] hitboxes@[i]).row == row && hitboxes@[i].start_col <= col
                && col < hitboxes@[i].end_col && hitboxes@[i].action == a,
        r is None ==> forall|i: int|
            0 <= i < hitboxes@.len() ==> !((#[trigger] hitboxes@[i]).row == row && hitboxes@[i].start_col <= col
                && col < hitboxes@[i].end_col),
{
    let r = first_hit(hitboxes, row, col);
    proof {
        lemma_action_at(hitboxes@, row as int, col as int);
        if row < 0 {
            assert forall|i: int| 0 <= i < hitboxes@.len() implies (#[trigger] hitboxes@[i]).row != row by {}
        }
    }
    r
}

/// The text a button with id `id` wraps `label` in.
pub open spec fn button_text(id: nat, label: Seq<char>) -> Seq<char> {
    button_start() + decimal(id) + seq![MARKER_END] + label + button_end() + decimal(id) + seq![
        MARKER_END,
    ]
}

impl ButtonRegistry {
    /// A registry with no buttons.
    pub fn new() -> (r: Self)
        ensures
            r.actions@.len() == 0,
    {
        ButtonRegistry { actions: Vec::new() }
    }
}

/// Registers `action` under the next button id and wraps `label` in that button's markers.
pub fn wrap_button(registry: &mut ButtonRegistry, label: String, action: ClickAction) -> (r: String)
    ensures
        final(registry).actions@ == old(registry).actions@.push(action),
        r@ == button_text(old(registry).actions@.len(), label@),
{
    let id = registry.actions.len();
    registry.actions.push(action);
    let mut v: Vec<char> = Vec::new();
    v.push(MARKER_START);
    v.push('B');
    push_decimal(&mut v, id as u128);
    v.push(MARKER_END);
    push_text(&mut v, label.as_str());
    v.push(MARKER_START);
    v.push('E');
    push_decimal(&mut v, id as u128);
    v.push(MARKER_END);
    assert(v@ =~= button_text(id as nat, label@));
    string_of(&v)
}

/// Strips the markers of each line in turn, row numbers from `row`, the button left open
/// by one line carried into the next: the clean lines and all hitboxes.
pub open spec fn scan_lines(
    ls: Seq<Seq<char>>,
    actions: Seq<ClickAction>,
    row: int,
    active: Option<(usize, usize)>,
) -> (Seq<Seq<char>>, Seq<Hitbox>)
    decreases ls.len(),
{
    if ls.len() == 0 {
        (Seq::empty(), Seq::empty())
    } else {
        let s = scan(ls[0], actions, row as usize, 0, 0, active);
        let rest = scan_lines(ls.drop_first(), actions, row + 1, s.2);
        (seq![s.0] + rest.0, s.1 + rest.1)
    }
}

/// Strips button markers from rendered text: the clean text, its lines joined with `'\n'`,
/// and the hitbox of every button on every row it spans.
pub fn collect_hitboxes(actions: &Vec<ClickAction>, rendered: &str) -> (r: (String, Vec<Hitbox>))
    ensures
        ({
            let s = scan_lines(lines_of(rendered@), actions@, 0, None);
            r.0@ == joined(s.0, seq!['\n']) && r.1@ == s.1
        }),
{
    let v = chars_of(rendered);
    let ls = lines(&v);
    let ghost all = views(ls@);
    let ghost total = scan_lines(all, actions@, 0, None);
    let mut clean: Vec<Vec<char>> = Vec::new();
    let mut hits: Vec<Hitbox> = Vec::new();
    let mut active: Option<(usize, usize)> = None;
    let mut i: usize = 0;
    assert(all.skip(0) =~= all);
    while i < ls.len()
        invariant
            i <= ls@.len(),
            all == views(ls@),
            ({
                let rest = scan_lines(all.skip(i as int), actions@, i as int, active);
                total == (views(clean@) + rest.0, hits@ + rest.1)
            }),
        decreases ls@.len() - i,
    {
        let ghost before_clean = views(clean@);
        let ghost before_hits = hits@;
        let ghost open = active;
        let line = string_of(&ls[i]);
        assert(all.skip(i as int)[0] == ls@[i as int]@);
        assert(all.skip(i as int).drop_first() =~= all.skip(i + 1));
        let (c, mut h) = strip_line_markers(i, line.as_str(), actions, &mut active);
        clean.push(chars_of(c.as_str()));
        hits.append(&mut h);
        assert(views(clean@) =~= before_clean.push(c@));
        let ghost rest = scan_lines(all.skip(i + 1), actions@, i + 1, active);
        assert(views(clean@) + rest.0 =~= before_clean + (seq![c@] + rest.0));
        assert(hits@ + rest.1 =~= before_hits + (scan(ls@[i as int]@, actions@, i, 0, 0, open).1 + rest.1));
        i = i + 1;
    }
    assert(all.skip(i as int) =~= Seq::<Seq<char>>::empty());
    assert(views(clean@) =~= total.0);
    assert(hits@ =~= total.1);
    let sep = vec!['\n'];
    assert(sep@ =~= seq!['\n']);
    let joined_text = crate::text::join(&clean, &sep);
    (string_of(&joined_text), hits)
}

/// The tab id a tab button was given: a number that fits in `u32`, or text that parses as
/// one.
pub open spec fn tab_arg_value(number: Option<usize>, text: Option<Seq<char>>) -> Option<u32> {
    match number {
        Some(n) if n <= u32::MAX => Some(n as u32),
        _ => match text {
            Some(t) => match parse_unsigned(t, u32::MAX as nat) {
                Some(v) => Some(v as u32),
                None => None,
            },
            None => None,
        },
    }
}

/// Reads a tab button's `tab` argument, given as the value's unsigned integer (if it is one)
/// and its text (if it is a string).
pub fn tab_arg(number: Option<usize>, text: Option<&str>) -> (r: Result<u32, String>)
    ensures
        match r {
            Ok(t) => tab_arg_value(number, opt_str_view(text)) == Some(t),
            Err(e) => tab_arg_value(number, opt_str_view(text)) is None && e@
                == "tab button expects numeric tab id"@,
        },
{
    if let Some(n) = number {
        if n <= (u32::MAX as usize) {
            return Ok(n as u32);
        }
    }
    if let Some(t) = text {
        let v = chars_of(t);
        if let Some(x) = parse_decimal(&v, u32::MAX as u64) {
            return Ok(x as u32);
        }
    }
    Err("tab button expects numeric tab id".to_owned())
}

/// The view of an optional string slice.
pub open spec fn opt_str_view(o: Option<&str>) -> Option<Seq<char>> {
    match o {
        Some(s) => Some(s@),
        None => None,
    }
}

} // verus!
