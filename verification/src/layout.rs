//! Grid, stack and flex layouts for template bodies.
//!
//! A layout helper receives the text its template body rendered, cuts it into cells and
//! lays them out for the viewport. ANSI escape sequences and button markers take no column,
//! so widths count only the characters that are drawn.

use vstd::prelude::*;
use vstd::string::StrSliceExecFns;
use vstd::utf8::encode_utf8;
use crate::click::{escape_len, escape_length, find_from, first_index, lemma_escape_len,
    lemma_first_index_bound, MARKER_END, MARKER_START};
use crate::text::{chars_of, join, parse_decimal, parse_unsigned, pieces, split_chars, trim, trim_chars, joined, lines, lines_of, push_chars, push_repeated, push_text,
    string_of, trim_end, trim_end_chars, views};

verus! {

/// How many characters a zero-width sequence at index `i` of `s` takes: an escape sequence
/// through its `m`, or a marker through its end character.
pub open spec fn zero_width_at(s: Seq<char>, i: int) -> Option<int> {
    if 0 <= i < s.len() && s[i] == '\u{1b}' {
        Some(escape_len(s, i))
    } else if 0 <= i < s.len() && s[i] == MARKER_START {
        match first_index(s.subrange(i, s.len() as int), MARKER_END) {
            Some(k) => Some((k + 1) as int),
            None => None,
        }
    } else {
        None
    }
}

/// A zero-width sequence takes at least one character and ends within the text.
pub proof fn lemma_zero_width_at(s: Seq<char>, i: int)
    ensures
        zero_width_at(s, i) matches Some(c) ==> 1 <= c && i + c <= s.len(),
{
    if 0 <= i < s.len() {
        lemma_escape_len(s, i);
        lemma_first_index_bound(s.subrange(i, s.len() as int), MARKER_END);
    }
}

fn zero_width_at_exec(v: &Vec<char>, i: usize) -> (r: Option<usize>)
    requires
        i < v@.len(),
    ensures
        match r {
            Some(c) => zero_width_at(v@, i as int) == Some(c as int),
            None => zero_width_at(v@, i as int) is None,
        },
{
    let n = v.len();
    if v[i] == '\u{1b}' {
        Some(escape_length(v, i))
    } else if v[i] == MARKER_START {
        match find_from(v, i, MARKER_END) {
            Some(k) => Some((k - i) + 1),
            None => None,
        }
    } else {
        None
    }
}

/// How many bytes a zero-width sequence at the start of `value` takes.
pub fn zero_width_len(value: &str) -> (r: Option<usize>)
    ensures
        match zero_width_at(value@, 0) {
            Some(c) => r == Some(encode_utf8(value@.subrange(0, c)).len() as usize),
            None => r is None,
        },
{
    let v = chars_of(value);
    if v.len() == 0 {
        return None;
    }
    proof {
        lemma_zero_width_at(v@, 0);
    }
    match zero_width_at_exec(&v, 0) {
        Some(c) => Some(value.substring_char(0, c).len()),
        None => None,
    }
}

/// The drawn width of `s` from index `i`: every character but zero-width sequences.
pub open spec fn width_from(s: Seq<char>, i: int) -> nat
    decreases s.len() - i,
{
    if i < 0 || i >= s.len() {
        0
    } else {
        match zero_width_at(s, i) {
            Some(c) => {
                proof {
                    lemma_zero_width_at(s, i);
                }
                width_from(s, i + c)
            },
            None => 1 + width_from(s, i + 1),
        }
    }
}

/// The drawn width of `value`.
pub fn visible_width(value: &str) -> (r: usize)
    ensures
        r == width_from(value@, 0),
{
    let v = chars_of(value);
    let n = v.len();
    let mut width: usize = 0;
    let mut i: usize = 0;
    while i < n
        invariant
            i <= n,
            n == v@.len(),
            width <= i,
            width + width_from(v@, i as int) == width_from(v@, 0),
        decreases n - i,
    {
        proof {
            lemma_zero_width_at(v@, i as int);
        }
        match zero_width_at_exec(&v, i) {
            Some(c) => {
                i = i + c;
            },
            None => {
                width = width + 1;
                i = i + 1;
            },
        }
    }
    width
}

/// `s` from index `i` cut after `max` drawn characters, `width` of them already drawn:
/// zero-width sequences before the cut are kept.
pub open spec fn truncate_from(s: Seq<char>, i: int, width: int, max: int) -> Seq<char>
    decreases s.len() - i,
{
    if i < 0 || i >= s.len() {
        Seq::empty()
    } else {
        match zero_width_at(s, i) {
            Some(c) => {
                proof {
                    lemma_zero_width_at(s, i);
                }
                s.subrange(i, i + c) + truncate_from(s, i + c, width, max)
            },
            None => if width == max {
                Seq::empty()
            } else {
                seq![s[i]] + truncate_from(s, i + 1, width + 1, max)
            },
        }
    }
}

/// `value` cut after `max_width` drawn characters.
pub fn truncate_visible(value: &str, max_width: usize) -> (r: String)
    ensures
        r@ == truncate_from(value@, 0, 0, max_width as int),
{
    let v = chars_of(value);
    let n = v.len();
    let mut out: Vec<char> = Vec::new();
    let mut width: usize = 0;
    let mut i: usize = 0;
    while i < n
        invariant
            i <= n,
            n == v@.len(),
            width <= max_width,
            out@ + truncate_from(v@, i as int, width as int, max_width as int) == truncate_from(
                v@,
                0,
                0,
                max_width as int,
            ),
        ensures
            out@ == truncate_from(v@, 0, 0, max_width as int),
        decreases n - i,
    {
        proof {
            lemma_zero_width_at(v@, i as int);
        }
        let ghost before = out@;
        match zero_width_at_exec(&v, i) {
            Some(c) => {
                let mut k: usize = i;
                while k < i + c
                    invariant
                        i <= k <= i + c,
                        i + c <= n,
                        n == v@.len(),
                        out@ == before + v@.subrange(i as int, k as int),
                    decreases i + c - k,
                {
                    out.push(v[k]);
                    assert(out@ =~= before + v@.subrange(i as int, k + 1));
                    k = k + 1;
                }
                assert(before + v@.subrange(i as int, (i + c) as int) + truncate_from(
                    v@,
                    (i + c) as int,
                    width as int,
                    max_width as int,
                ) =~= before + (v@.subrange(i as int, (i + c) as int) + truncate_from(
                    v@,
                    (i + c) as int,
                    width as int,
                    max_width as int,
                )));
                i = i + c;
            },
            None => {
                if width == max_width {
                    assert(truncate_from(v@, i as int, width as int, max_width as int) =~= Seq::<char>::empty());
                    assert(out@ =~= out@ + Seq::<char>::empty());
                    break;
                }
                out.push(v[i]);
                assert(before.push(v@[i as int]) + truncate_from(
                    v@,
                    i + 1,
                    width + 1,
                    max_width as int,
                ) =~= before + (seq![v@[i as int]] + truncate_from(
                    v@,
                    i + 1,
                    width + 1,
                    max_width as int,
                )));
                width = width + 1;
                i = i + 1;
            },
        }
        if i >= n {
            assert(out@ =~= out@ + truncate_from(v@, i as int, width as int, max_width as int));
        }
    }
    string_of(&out)
}

/// `n` spaces.
pub open spec fn spaces(n: nat) -> Seq<char> {
    Seq::new(n, |_i: int| ' ')
}

/// `a - b`, or zero when `b > a`.
pub open spec fn sat_sub(a: int, b: int) -> int {
    if a > b {
        a - b
    } else {
        0
    }
}

/// Where `c` first occurs in `x + y`: in `x` if it occurs there, else in `y`, shifted.
pub proof fn lemma_first_index_append(x: Seq<char>, y: Seq<char>, c: char)
    ensures
        first_index(x + y, c) == match first_index(x, c) {
            Some(k) => Some(k),
            None => match first_index(y, c) {
                Some(k) => Some((k + x.len()) as nat),
                None => None,
            },
        },
    decreases x.len(),
{
    if x.len() == 0 {
        assert(x + y =~= y);
    } else {
        assert((x + y).drop_first() =~= x.drop_first() + y);
        lemma_first_index_append(x.drop_first(), y, c);
    }
}

proof fn lemma_first_index_spaces(n: nat, c: char)
    requires
        c != ' ',
    ensures
        first_index(spaces(n), c) is None,
    decreases n,
{
    if n > 0 {
        assert(spaces(n).drop_first() =~= spaces((n - 1) as nat));
        lemma_first_index_spaces((n - 1) as nat, c);
    }
}

/// The drawn width from `j` depends only on the text from `k` on, for `k <= j`.
pub proof fn lemma_width_shift(x: Seq<char>, k: int, j: int)
    requires
        0 <= k <= j <= x.len(),
    ensures
        width_from(x, j) == width_from(x.subrange(k, x.len() as int), j - k),
    decreases x.len() - j,
{
    let y = x.subrange(k, x.len() as int);
    if j < x.len() {
        assert(y.subrange(j - k, y.len() as int) =~= x.subrange(j, x.len() as int));
        assert(y[j - k] == x[j]);
        assert(zero_width_at(x, j) == zero_width_at(y, j - k));
        lemma_zero_width_at(x, j);
        match zero_width_at(x, j) {
            Some(c) => lemma_width_shift(x, k, j + c),
            None => lemma_width_shift(x, k, j + 1),
        }
    }
}

proof fn lemma_width_of_spaces(a: Seq<char>, n: nat, i: int)
    requires
        0 <= i <= n,
    ensures
        width_from(a + spaces(n), a.len() + i) == n - i,
    decreases n - i,
{
    let x = a + spaces(n);
    if i < n {
        assert(x[a.len() + i] == ' ');
        lemma_width_of_spaces(a, n, i + 1);
    }
}

/// Spaces added after a text add their number to its drawn width.
pub proof fn lemma_width_append_spaces(a: Seq<char>, n: nat, j: int)
    requires
        0 <= j <= a.len(),
    ensures
        width_from(a + spaces(n), j) == width_from(a, j) + n,
    decreases a.len() - j,
{
    let x = a + spaces(n);
    if j < a.len() {
        assert(x.subrange(j, x.len() as int) =~= a.subrange(j, a.len() as int) + spaces(n));
        assert(x[j] == a[j]);
        lemma_first_index_append(a.subrange(j, a.len() as int), spaces(n), 'm');
        lemma_first_index_append(a.subrange(j, a.len() as int), spaces(n), MARKER_END);
        lemma_first_index_spaces(n, 'm');
        lemma_first_index_spaces(n, MARKER_END);
        assert(zero_width_at(x, j) == zero_width_at(a, j));
        lemma_zero_width_at(a, j);
        match zero_width_at(a, j) {
            Some(c) => lemma_width_append_spaces(a, n, j + c),
            None => lemma_width_append_spaces(a, n, j + 1),
        }
    } else {
        lemma_width_of_spaces(a, n, 0);
    }
}

/// A character that does not occur in `s` from `i` on does not occur in its cut either.
pub proof fn lemma_truncate_keeps_out(s: Seq<char>, i: int, width: int, max: int, c: char)
    requires
        0 <= i <= s.len(),
        first_index(s.subrange(i, s.len() as int), c) is None,
    ensures
        first_index(truncate_from(s, i, width, max), c) is None,
    decreases s.len() - i,
{
    if i < s.len() {
        lemma_zero_width_at(s, i);
        match zero_width_at(s, i) {
            Some(u) => {
                let p = s.subrange(i, i + u);
                let q = s.subrange(i + u, s.len() as int);
                assert(s.subrange(i, s.len() as int) =~= p + q);
                lemma_first_index_append(p, q, c);
                lemma_truncate_keeps_out(s, i + u, width, max, c);
                lemma_first_index_append(p, truncate_from(s, i + u, width, max), c);
            },
            None => {
                if width != max {
                    let q = s.subrange(i + 1, s.len() as int);
                    assert(s.subrange(i, s.len() as int) =~= seq![s[i]] + q);
                    lemma_first_index_append(seq![s[i]], q, c);
                    lemma_truncate_keeps_out(s, i + 1, width + 1, max, c);
                    lemma_first_index_append(seq![s[i]], truncate_from(s, i + 1, width + 1, max), c);
                }
            },
        }
    }
}

/// The zero-width sequence at `i` of `s` is still one unit at the start of its cut.
proof fn lemma_cut_keeps_unit(s: Seq<char>, i: int, u: int, rest: Seq<char>, c: char)
    requires
        0 <= i < s.len(),
        1 <= u,
        i + u <= s.len(),
        first_index(s.subrange(i, s.len() as int), c) == Some((u - 1) as nat),
    ensures
        first_index(s.subrange(i, i + u) + rest, c) == Some((u - 1) as nat),
{
    let p = s.subrange(i, i + u);
    let q = s.subrange(i + u, s.len() as int);
    assert(s.subrange(i, s.len() as int) =~= p + q);
    lemma_first_index_append(p, q, c);
    lemma_first_index_append(p, rest, c);
}

/// A cut to `max` drawn characters, `width` already drawn, draws at most `max - width` more.
pub proof fn lemma_truncate_width(s: Seq<char>, i: int, width: int, max: int)
    requires
        0 <= width <= max,
        0 <= i,
    ensures
        width_from(truncate_from(s, i, width, max), 0) <= max - width,
    decreases s.len() - i,
{
    if i < s.len() {
        lemma_zero_width_at(s, i);
        let t = truncate_from(s, i, width, max);
        match zero_width_at(s, i) {
            Some(u) => {
                let p = s.subrange(i, i + u);
                let rest = truncate_from(s, i + u, width, max);
                assert(t == p + rest);
                assert(t[0] == s[i]);
                assert(t.subrange(0, t.len() as int) =~= t);
                if s[i] == '\u{1b}' {
                    match first_index(s.subrange(i, s.len() as int), 'm') {
                        Some(k) => {
                            lemma_cut_keeps_unit(s, i, u, rest, 'm');
                        },
                        None => {
                            let q = s.subrange(i + 1, s.len() as int);
                            assert(s.subrange(i, s.len() as int) =~= seq![s[i]] + q);
                            lemma_first_index_append(seq![s[i]], q, 'm');
                            lemma_truncate_keeps_out(s, i + 1, width, max, 'm');
                            assert(p =~= seq![s[i]]);
                            lemma_first_index_append(p, rest, 'm');
                        },
                    }
                } else {
                    lemma_cut_keeps_unit(s, i, u, rest, MARKER_END);
                }
                assert(zero_width_at(t, 0) == Some(u));
                assert(t.subrange(u, t.len() as int) =~= rest);
                lemma_width_shift(t, u, u);
                lemma_truncate_width(s, i + u, width, max);
            },
            None => {
                if width != max {
                    let rest = truncate_from(s, i + 1, width + 1, max);
                    assert(t == seq![s[i]] + rest);
                    assert(t[0] == s[i]);
                    assert(t.subrange(0, t.len() as int) =~= t);
                    if s[i] == MARKER_START {
                        let q = s.subrange(i + 1, s.len() as int);
                        assert(s.subrange(i, s.len() as int) =~= seq![s[i]] + q);
                        lemma_first_index_append(seq![s[i]], q, MARKER_END);
                        lemma_truncate_keeps_out(s, i + 1, width + 1, max, MARKER_END);
                        lemma_first_index_append(seq![s[i]], rest, MARKER_END);
                    }
                    assert(zero_width_at(t, 0) is None);
                    assert(t.subrange(1, t.len() as int) =~= rest);
                    lemma_width_shift(t, 1, 1);
                    lemma_truncate_width(s, i + 1, width + 1, max);
                }
            },
        }
    }
}

/// A cut draws exactly as many characters as there is room for, at most all there are; it
/// is a piece of `s` from `i` on, and it stops before a drawn character only when the room
/// is used up.
pub proof fn lemma_truncate_exact(s: Seq<char>, i: int, width: int, max: int)
    requires
        0 <= width <= max,
        0 <= i <= s.len(),
    ensures
        ({
            let t = truncate_from(s, i, width, max);
            let room = max - width;
            &&& width_from(t, 0) == if room < width_from(s, i) {
                room
            } else {
                width_from(s, i) as int
            }
            &&& i + t.len() <= s.len()
            &&& t == s.subrange(i, i + t.len())
            &&& i + t.len() < s.len() ==> zero_width_at(s, i + t.len()) is None && width_from(t, 0) == room
        }),
    decreases s.len() - i,
{
    let t = truncate_from(s, i, width, max);
    if i < s.len() {
        lemma_zero_width_at(s, i);
        lemma_truncate_width(s, i, width, max);
        match zero_width_at(s, i) {
            Some(u) => {
                let p = s.subrange(i, i + u);
                let rest = truncate_from(s, i + u, width, max);
                lemma_truncate_exact(s, i + u, width, max);
                assert(t == p + rest);
                assert(t[0] == s[i]);
                assert(t.subrange(0, t.len() as int) =~= t);
                if s[i] == '\u{1b}' {
                    match first_index(s.subrange(i, s.len() as int), 'm') {
                        Some(k) => {
                            lemma_cut_keeps_unit(s, i, u, rest, 'm');
                        },
                        None => {
                            let q = s.subrange(i + 1, s.len() as int);
                            assert(s.subrange(i, s.len() as int) =~= seq![s[i]] + q);
                            lemma_first_index_append(seq![s[i]], q, 'm');
                            lemma_truncate_keeps_out(s, i + 1, width, max, 'm');
                            assert(p =~= seq![s[i]]);
                            lemma_first_index_append(p, rest, 'm');
                        },
                    }
                } else {
                    lemma_cut_keeps_unit(s, i, u, rest, MARKER_END);
                }
                assert(zero_width_at(t, 0) == Some(u));
                assert(t.subrange(u, t.len() as int) =~= rest);
                lemma_width_shift(t, u, u);
                assert(t =~= s.subrange(i, i + t.len()));
            },
            None => {
                if width == max {
                    assert(t =~= s.subrange(i, i));
                } else {
                    let rest = truncate_from(s, i + 1, width + 1, max);
                    lemma_truncate_exact(s, i + 1, width + 1, max);
                    assert(t == seq![s[i]] + rest);
                    assert(t[0] == s[i]);
                    assert(t.subrange(0, t.len() as int) =~= t);
                    if s[i] == MARKER_START {
                        let q = s.subrange(i + 1, s.len() as int);
                        assert(s.subrange(i, s.len() as int) =~= seq![s[i]] + q);
                        lemma_first_index_append(seq![s[i]], q, MARKER_END);
                        lemma_truncate_keeps_out(s, i + 1, width + 1, max, MARKER_END);
                        lemma_first_index_append(seq![s[i]], rest, MARKER_END);
                    }
                    assert(zero_width_at(t, 0) is None);
                    assert(t.subrange(1, t.len() as int) =~= rest);
                    lemma_width_shift(t, 1, 1);
                    assert(t =~= s.subrange(i, i + t.len()));
                }
            },
        }
    } else {
        assert(t =~= s.subrange(i, i));
    }
}

/// `cell` cut to `width` drawn characters and padded with spaces to that width.
pub open spec fn fitted(cell: Seq<char>, width: int) -> Seq<char> {
    let t = truncate_from(cell, 0, 0, width);
    t + spaces(sat_sub(width, width_from(t, 0) as int) as nat)
}

/// Fits `cell` to exactly `width` columns.
pub fn fit_cell(cell: &str, width: usize) -> (r: String)
    ensures
        r@ == fitted(cell@, width as int),
{
    let value = truncate_visible(cell, width);
    let w = visible_width(value.as_str());
    let padding = width.saturating_sub(w);
    let mut v = chars_of(value.as_str());
    push_repeated(&mut v, ' ', padding);
    assert(v@ =~= fitted(cell@, width as int));
    string_of(&v)
}


/// Padding around a layout: `x` columns left and right, `y` rows above and below.
#[derive(Clone, Copy, Debug, PartialEq, Eq)]
pub struct Padding {
    pub x: usize,
    pub y: usize,
}

/// A layout's padding from its `padding` (`all`), `paddingX` and `paddingY` arguments: each
/// side defaults to `padding`, which defaults to zero.
pub fn padding(all: Option<usize>, x: Option<usize>, y: Option<usize>) -> (r: Padding)
    ensures
        ({
            let p = match all {
                Some(v) => v,
                None => 0,
            };
            &&& r.x == match x {
                Some(v) => v,
                None => p,
            }
            &&& r.y == match y {
                Some(v) => v,
                None => p,
            }
        }),
{
    let p = match all {
        Some(v) => v,
        None => 0,
    };
    Padding {
        x: match x {
            Some(v) => v,
            None => p,
        },
        y: match y {
            Some(v) => v,
            None => p,
        },
    }
}

/// `value` when it is not zero; zero is refused with a message naming the argument.
pub fn non_zero(value: usize, name: &str) -> (r: Result<usize, String>)
    ensures
        match r {
            Ok(v) => value != 0 && v == value,
            Err(e) => value == 0 && e@ == "Grid expects "@ + name@ + " > 0"@,
        },
{
    if value == 0 {
        let mut e: Vec<char> = Vec::new();
        push_text(&mut e, "Grid expects ");
        push_text(&mut e, name);
        push_text(&mut e, " > 0");
        Err(string_of(&e))
    } else {
        Ok(value)
    }
}

/// A viewport global, given as whether the template state has it and, if so, its value as
/// an unsigned integer when it is one.
pub fn viewport_value(found: Option<Option<usize>>, name: &str) -> (r: Result<usize, String>)
    ensures
        match found {
            None => r matches Err(e) && e@ == "Grid expects "@ + name@ + " global"@,
            Some(None) => r matches Err(e) && e@ == "Grid expects "@ + name@
                + " to be a positive integer"@,
            Some(Some(v)) => r == Ok::<usize, String>(v),
        },
{
    match found {
        None => {
            let mut e: Vec<char> = Vec::new();
            push_text(&mut e, "Grid expects ");
            push_text(&mut e, name);
            push_text(&mut e, " global");
            Err(string_of(&e))
        },
        Some(None) => {
            let mut e: Vec<char> = Vec::new();
            push_text(&mut e, "Grid expects ");
            push_text(&mut e, name);
            push_text(&mut e, " to be a positive integer");
            Err(string_of(&e))
        },
        Some(Some(v)) => Ok(v),
    }
}

/// `a * b`, or `usize::MAX` when the product does not fit.
pub open spec fn sat_mul(a: int, b: int) -> int {
    if a * b > usize::MAX {
        usize::MAX as int
    } else {
        a * b
    }
}

fn saturating_mul(a: usize, b: usize) -> (r: usize)
    ensures
        r == sat_mul(a as int, b as int),
{
    match a.checked_mul(b) {
        Some(x) => x,
        None => usize::MAX,
    }
}

/// The width of each of `cols` equal columns in `width` characters, `gap` between two.
pub open spec fn column_width(cols: int, gap: int, width: int) -> int {
    if cols == 0 {
        0
    } else {
        sat_sub(width, sat_mul(gap, sat_sub(cols, 1))) / cols
    }
}

/// `cols` equal column widths filling `width`, `gap` between two columns.
pub fn column_widths(cols: usize, gap: usize, width: usize) -> (r: Vec<usize>)
    ensures
        r@.len() == cols,
        forall|i: int| 0 <= i < cols ==> r@[i] == column_width(cols as int, gap as int, width as int),
{
    let gaps = saturating_mul(gap, cols.saturating_sub(1));
    let cell = match width.saturating_sub(gaps).checked_div(cols) {
        Some(c) => c,
        None => 0,
    };
    let mut r: Vec<usize> = Vec::new();
    let mut i: usize = 0;
    while i < cols
        invariant
            i <= cols,
            r@.len() == i,
            cell == column_width(cols as int, gap as int, width as int),
            forall|j: int| 0 <= j < i ==> r@[j] == cell,
        decreases cols - i,
    {
        r.push(cell);
        i = i + 1;
    }
    r
}

/// The drawn width of each cell.
pub fn natural_widths(cells: &Vec<String>) -> (r: Vec<usize>)
    ensures
        r@.len() == cells@.len(),
        forall|i: int| 0 <= i < cells@.len() ==> r@[i] == width_from(#[trigger] cells@[i]@, 0),
{
    let mut r: Vec<usize> = Vec::new();
    let mut i: usize = 0;
    while i < cells.len()
        invariant
            i <= cells@.len(),
            r@.len() == i,
            forall|j: int| 0 <= j < i ==> r@[j] == width_from(#[trigger] cells@[j]@, 0),
        decreases cells@.len() - i,
    {
        r.push(visible_width(cells[i].as_str()));
        i = i + 1;
    }
    r
}

/// The rows a cell takes on its own: its line count, at least one.
pub open spec fn height_of(cell: Seq<char>) -> int {
    if lines_of(cell).len() > 0 {
        lines_of(cell).len() as int
    } else {
        1
    }
}

fn line_count(s: &str) -> (r: usize)
    ensures
        r == lines_of(s@).len(),
{
    let v = chars_of(s);
    let ls = lines(&v);
    ls.len()
}

/// The rows each cell takes on its own.
pub fn natural_heights(cells: &Vec<String>) -> (r: Vec<usize>)
    ensures
        r@.len() == cells@.len(),
        forall|i: int| 0 <= i < cells@.len() ==> r@[i] == height_of(#[trigger] cells@[i]@),
{
    let mut r: Vec<usize> = Vec::new();
    let mut i: usize = 0;
    while i < cells.len()
        invariant
            i <= cells@.len(),
            r@.len() == i,
            forall|j: int| 0 <= j < i ==> r@[j] == height_of(#[trigger] cells@[j]@),
        decreases cells@.len() - i,
    {
        let c = line_count(cells[i].as_str());
        r.push(if c > 0 { c } else { 1 });
        i = i + 1;
    }
    r
}

/// `rendered` with newlines added until it has `rows` lines.
pub open spec fn grown(rendered: Seq<char>, rows: int) -> Seq<char> {
    let current = lines_of(rendered).len() as int;
    if current >= rows {
        rendered
    } else {
        rendered + Seq::new((rows - current) as nat, |_i: int| '\n')
    }
}

/// Adds newlines to `rendered` until it fills `viewport_rows` lines.
pub fn grow_lines(rendered: String, viewport_rows: usize) -> (r: String)
    ensures
        r@ == grown(rendered@, viewport_rows as int),
{
    let current = line_count(rendered.as_str());
    if current >= viewport_rows {
        rendered
    } else {
        let mut v = chars_of(rendered.as_str());
        push_repeated(&mut v, '\n', viewport_rows - current);
        string_of(&v)
    }
}

/// The lines of a padded layout: `y` empty lines, each line between `x` spaces, `y` empty
/// lines.
pub open spec fn padded_lines(ls: Seq<Seq<char>>, x: nat, y: nat) -> Seq<Seq<char>> {
    Seq::new(y, |_i: int| Seq::<char>::empty()) + ls.map_values(
        |l: Seq<char>| spaces(x) + l + spaces(x),
    ) + Seq::new(y, |_i: int| Seq::<char>::empty())
}

/// `rendered` with `pad` around it.
pub open spec fn padded(rendered: Seq<char>, pad: Padding) -> Seq<char> {
    if pad.x == 0 && pad.y == 0 {
        rendered
    } else {
        joined(padded_lines(lines_of(rendered), pad.x as nat, pad.y as nat), seq!['\n'])
    }
}

/// Surrounds a rendered layout with its padding.
pub fn apply_padding(rendered: String, pad: Padding) -> (r: String)
    ensures
        r@ == padded(rendered@, pad),
{
    if pad.x == 0 && pad.y == 0 {
        return rendered;
    }
    let v = chars_of(rendered.as_str());
    let ls = lines(&v);
    let ghost l = views(ls@);
    let mut out: Vec<Vec<char>> = Vec::new();
    let mut i: usize = 0;
    while i < pad.y
        invariant
            i <= pad.y,
            views(out@) == Seq::new(i as nat, |_k: int| Seq::<char>::empty()),
        decreases pad.y - i,
    {
        let ghost before = views(out@);
        let e: Vec<char> = Vec::new();
        assert(e@ =~= Seq::<char>::empty());
        out.push(e);
        assert(views(out@) =~= before.push(Seq::<char>::empty()));
        assert(views(out@) =~= Seq::new((i + 1) as nat, |_k: int| Seq::<char>::empty()));
        i = i + 1;
    }
    let ghost top = views(out@);
    let mut j: usize = 0;
    while j < ls.len()
        invariant
            j <= ls@.len(),
            l == views(ls@),
            views(out@) == top + l.take(j as int).map_values(
                |m: Seq<char>| spaces(pad.x as nat) + m + spaces(pad.x as nat),
            ),
        decreases ls@.len() - j,
    {
        let mut line: Vec<char> = Vec::new();
        push_repeated(&mut line, ' ', pad.x);
        push_chars(&mut line, &ls[j]);
        push_repeated(&mut line, ' ', pad.x);
        assert(line@ =~= spaces(pad.x as nat) + l[j as int] + spaces(pad.x as nat));
        let ghost before = views(out@);
        let ghost lv = line@;
        out.push(line);
        assert(views(out@) =~= before.push(lv));
        assert(views(out@) =~= top + l.take(j + 1).map_values(
            |m: Seq<char>| spaces(pad.x as nat) + m + spaces(pad.x as nat),
        ));
        j = j + 1;
    }
    assert(l.take(j as int) =~= l);
    let ghost mid = views(out@);
    let mut k: usize = 0;
    while k < pad.y
        invariant
            k <= pad.y,
            views(out@) == mid + Seq::new(k as nat, |_q: int| Seq::<char>::empty()),
        decreases pad.y - k,
    {
        let ghost before = views(out@);
        let e: Vec<char> = Vec::new();
        assert(e@ =~= Seq::<char>::empty());
        out.push(e);
        assert(views(out@) =~= before.push(Seq::<char>::empty()));
        assert(views(out@) =~= mid + Seq::new((k + 1) as nat, |_q: int| Seq::<char>::empty()));
        k = k + 1;
    }
    assert(views(out@) =~= padded_lines(l, pad.x as nat, pad.y as nat));
    let sep = vec!['\n'];
    assert(sep@ =~= seq!['\n']);
    let joined_text = join(&out, &sep);
    string_of(&joined_text)
}


/// The sum of a sequence of integers.
pub open spec fn int_sum(s: Seq<int>) -> int
    decreases s.len(),
{
    if s.len() == 0 {
        0
    } else {
        int_sum(s.drop_last()) + s.last()
    }
}

/// A sequence of machine integers as mathematical integers.
pub open spec fn ints(s: Seq<usize>) -> Seq<int> {
    s.map_values(|x: usize| x as int)
}

/// A sum of non-negative integers is at least each of them and not negative.
pub proof fn lemma_int_sum_bounds(s: Seq<int>, i: int)
    requires
        forall|k: int| 0 <= k < s.len() ==> s[k] >= 0,
    ensures
        int_sum(s) >= 0,
        0 <= i < s.len() ==> s[i] <= int_sum(s),
    decreases s.len(),
{
    if s.len() > 0 {
        lemma_int_sum_bounds(s.drop_last(), i);
    }
}

/// The sum of `s`, at most `s.len() * usize::MAX`, computed without overflow.
fn sum_wide(s: &Vec<usize>) -> (r: u128)
    ensures
        r == int_sum(ints(s@)),
{
    let mut total: u128 = 0;
    let mut i: usize = 0;
    while i < s.len()
        invariant
            i <= s@.len(),
            total == int_sum(ints(s@.take(i as int))),
            total <= i * (usize::MAX as int),
        decreases s@.len() - i,
    {
        assert(ints(s@.take(i + 1)).drop_last() =~= ints(s@.take(i as int)));
        assert((i + 1) * (usize::MAX as int) <= u128::MAX) by (nonlinear_arith)
            requires
                i < usize::MAX,
                usize::MAX <= u64::MAX,
        ;
        assert((i + 1) * (usize::MAX as int) == i * (usize::MAX as int) + usize::MAX) by (nonlinear_arith);
        total = total + s[i] as u128;
        i = i + 1;
    }
    assert(s@.take(i as int) =~= s@);
    total
}

/// The widths a row flex gives cells of these weights in `width` columns, `gap` between
/// two: each its floored share of the usable width, the remainder to the last cell.
pub open spec fn flex_width_list(width: int, gap: int, weights: Seq<int>) -> Seq<int> {
    let n = weights.len();
    let usable = sat_sub(width, sat_mul(gap, sat_sub(n as int, 1)));
    let total = int_sum(weights);
    if total == 0 {
        Seq::new(n, |_i: int| 0int)
    } else {
        let base = Seq::new(n, |i: int| sat_mul(usable, weights[i]) / total);
        base.update(n - 1, base[n - 1] + sat_sub(usable, int_sum(base)))
    }
}

/// Splits `width` columns, less `gap` between each two cells, by the weights.
pub fn flex_widths(width: usize, gap: usize, weights: &Vec<usize>) -> (r: Vec<usize>)
    ensures
        r@.len() == weights@.len(),
        forall|i: int| 0 <= i < r@.len() ==> r@[i] == flex_width_list(width as int, gap as int, ints(weights@))[i],
{
    let n = weights.len();
    let gaps = saturating_mul(gap, n.saturating_sub(1));
    let usable = width.saturating_sub(gaps);
    let total = sum_wide(weights);
    let ghost w = ints(weights@);
    let ghost spec_r = flex_width_list(width as int, gap as int, w);
    if total == 0 {
        let mut r: Vec<usize> = Vec::new();
        let mut i: usize = 0;
        while i < n
            invariant
                i <= n,
                r@.len() == i,
                forall|j: int| 0 <= j < i ==> r@[j] == 0,
            decreases n - i,
        {
            r.push(0);
            i = i + 1;
        }
        return r;
    }
    let ghost base = Seq::new(n as nat, |i: int| sat_mul(usable as int, w[i]) / (total as int));
    let mut r: Vec<usize> = Vec::new();
    let mut used: u128 = 0;
    let mut i: usize = 0;
    while i < n
        invariant
            i <= n,
            n == weights@.len(),
            w == ints(weights@),
            total > 0,
            total == int_sum(w),
            base == Seq::new(n as nat, |k: int| sat_mul(usable as int, w[k]) / (total as int)),
            r@.len() == i,
            forall|j: int| 0 <= j < i ==> r@[j] == base[j],
            used == int_sum(base.take(i as int)),
            used <= i * (usize::MAX as int),
        decreases n - i,
    {
        let m = saturating_mul(usable, weights[i]);
        let share = ((m as u128) / total) as usize;
        assert(share as int == base[i as int]);
        assert(base.take(i + 1).drop_last() =~= base.take(i as int));
        assert((i + 1) * (usize::MAX as int) <= u128::MAX) by (nonlinear_arith)
            requires
                i < usize::MAX,
                usize::MAX <= u64::MAX,
        ;
        assert((i + 1) * (usize::MAX as int) == i * (usize::MAX as int) + usize::MAX) by (nonlinear_arith);
        r.push(share);
        used = used + share as u128;
        i = i + 1;
    }
    assert(base.take(n as int) =~= base);
    proof {
        assert forall|k: int| 0 <= k < base.len() implies base[k] >= 0 by {}
        lemma_int_sum_bounds(base, n - 1);
    }
    let last = r[n - 1];
    let add: usize = if (usable as u128) > used { ((usable as u128) - used) as usize } else { 0 };
    r.set(n - 1, last + add);
    assert forall|j: int| 0 <= j < r@.len() implies r@[j] == spec_r[j] by {}
    r
}

/// The last index below `m` whose weight is positive.
pub open spec fn last_growable(weights: Seq<int>, m: int) -> Option<int>
    decreases m,
{
    if m <= 0 {
        None
    } else if weights[m - 1] > 0 {
        Some(m - 1)
    } else {
        last_growable(weights, m - 1)
    }
}

/// The heights a column flex gives cells of these natural heights and weights in `width`
/// rows, `gap` between two: the rows left over after the natural heights are shared by
/// weight, and the remainder goes to the last cell that can grow.
pub open spec fn column_height_list(width: int, gap: int, naturals: Seq<int>, weights: Seq<int>) -> Seq<int> {
    let n = naturals.len();
    let m = if n < weights.len() { n } else { weights.len() };
    let extra = sat_sub(sat_sub(width, sat_mul(gap, sat_sub(n as int, 1))), int_sum(naturals));
    let total = int_sum(weights);
    if total == 0 {
        naturals
    } else {
        let sh = Seq::new(m, |i: int| sat_mul(extra, weights[i]) / total);
        let grown = Seq::new(n, |i: int| if i < m { naturals[i] + sh[i] } else { naturals[i] });
        match last_growable(weights, m as int) {
            Some(g) => grown.update(g, grown[g] + sat_sub(extra, int_sum(sh))),
            None => grown,
        }
    }
}

proof fn lemma_last_growable(weights: Seq<int>, m: int)
    requires
        m <= weights.len(),
    ensures
        last_growable(weights, m) matches Some(g) ==> 0 <= g < m && weights[g] > 0,
    decreases m,
{
    if m > 0 && weights[m - 1] <= 0 {
        lemma_last_growable(weights, m - 1);
    }
}

proof fn lemma_column_height_list_len(width: int, gap: int, naturals: Seq<int>, weights: Seq<int>)
    ensures
        column_height_list(width, gap, naturals, weights).len() == naturals.len(),
{
    let n = naturals.len();
    let m = if n < weights.len() { n } else { weights.len() };
    lemma_last_growable(weights, m as int);
}

/// The heights of the cells of a column flex in `width` rows.
pub fn flex_column_heights(width: usize, gap: usize, cells: &Vec<String>, weights: &Vec<usize>) -> (r: Vec<usize>)
    ensures
        r@.len() == cells@.len(),
        forall|i: int| 0 <= i < r@.len() ==> r@[i] == column_height_list(
            width as int,
            gap as int,
            cells@.map_values(|c: String| height_of(c@)),
            ints(weights@),
        )[i],
{
    let n = cells.len();
    let gaps = saturating_mul(gap, n.saturating_sub(1));
    let natural = natural_heights(cells);
    let ghost nat_s = cells@.map_values(|c: String| height_of(c@));
    assert(ints(natural@) =~= nat_s);
    let natural_total = sum_wide(&natural);
    let room = width.saturating_sub(gaps);
    let extra: usize = if (room as u128) > natural_total { ((room as u128) - natural_total) as usize } else { 0 };
    let total = sum_wide(weights);
    let ghost w = ints(weights@);
    let ghost spec_r = column_height_list(width as int, gap as int, nat_s, w);
    if total == 0 {
        return natural;
    }
    let m = if n < weights.len() { n } else { weights.len() };
    proof {
        assert forall|k: int| 0 <= k < nat_s.len() implies nat_s[k] >= 0 by {
            assert(height_of(cells@[k]@) >= 1);
        }
        assert forall|k: int| 0 <= k < w.len() implies w[k] >= 0 by {}
    }
    let ghost sh = Seq::new(m as nat, |i: int| sat_mul(extra as int, w[i]) / (total as int));
    let ghost grown = Seq::new(n as nat, |i: int| if i < m { nat_s[i] + sh[i] } else { nat_s[i] });
    let mut heights = natural;
    let mut used: u128 = 0;
    let mut i: usize = 0;
    while i < m
        invariant
            i <= m,
            m <= n,
            m <= weights@.len(),
            n == cells@.len(),
            heights@.len() == n,
            w == ints(weights@),
            total > 0,
            total == int_sum(w),
            natural_total == int_sum(nat_s),
            forall|k: int| 0 <= k < nat_s.len() ==> nat_s[k] >= 0,
            forall|k: int| 0 <= k < w.len() ==> w[k] >= 0,
            nat_s.len() == n,
            extra == sat_sub(sat_sub(width as int, sat_mul(gap as int, sat_sub(n as int, 1))), natural_total as int),
            sh == Seq::new(m as nat, |k: int| sat_mul(extra as int, w[k]) / (total as int)),
            grown == Seq::new(n as nat, |k: int| if k < m { nat_s[k] + sh[k] } else { nat_s[k] }),
            forall|j: int| 0 <= j < i ==> heights@[j] == grown[j],
            forall|j: int| i <= j < n ==> heights@[j] == nat_s[j],
            used == int_sum(sh.take(i as int)),
            used <= i * (usize::MAX as int),
        decreases m - i,
    {
        let mm = saturating_mul(extra, weights[i]);
        let share = ((mm as u128) / total) as usize;
        assert(share as int == sh[i as int]);
        proof {
            lemma_int_sum_bounds(w, i as int);
            lemma_int_sum_bounds(nat_s, i as int);
            assert(share <= extra) by (nonlinear_arith)
                requires
                    share as int == sat_mul(extra as int, w[i as int]) / (total as int),
                    w[i as int] <= total,
                    total > 0,
                    w[i as int] >= 0,
                    extra >= 0,
            {
                assert(sat_mul(extra as int, w[i as int]) <= extra * w[i as int]);
                assert(extra * w[i as int] <= extra * total);
            }
        }
        assert(sh.take(i + 1).drop_last() =~= sh.take(i as int));
        assert((i + 1) * (usize::MAX as int) <= u128::MAX) by (nonlinear_arith)
            requires
                i < usize::MAX,
                usize::MAX <= u64::MAX,
        ;
        assert((i + 1) * (usize::MAX as int) == i * (usize::MAX as int) + usize::MAX) by (nonlinear_arith);
        let h = heights[i];
        assert(h + share <= usize::MAX);
        heights.set(i, h + share);
        used = used + share as u128;
        i = i + 1;
    }
    assert(sh.take(m as int) =~= sh);
    assert forall|j: int| 0 <= j < n implies heights@[j] == grown[j] by {}
    proof {
        lemma_last_growable(w, m as int);
        assert forall|k: int| 0 <= k < sh.len() implies sh[k] >= 0 by {}
    }
    let mut g = m;
    while g > 0 && weights[g - 1] == 0
        invariant
            g <= m,
            m <= weights@.len(),
            w == ints(weights@),
            last_growable(w, m as int) == last_growable(w, g as int),
        decreases g,
    {
        g = g - 1;
    }
    if g > 0 {
        let k = g - 1;
        let ghost gi = k as int;
        assert(last_growable(w, m as int) == Some(gi));
        proof {
            lemma_int_sum_bounds(sh, gi);
            lemma_int_sum_bounds(nat_s, gi);
        }
        let add: usize = if (extra as u128) > used { ((extra as u128) - used) as usize } else { 0 };
        let h = heights[k];
        assert(h + add <= usize::MAX);
        heights.set(k, h + add);
    }
    assert forall|j: int| 0 <= j < heights@.len() implies heights@[j] == spec_r[j] by {}
    heights
}

/// The comma-separated weights in `text`, if every one parses as an unsigned integer.
pub open spec fn parsed_weights(text: Seq<char>) -> Option<Seq<int>> {
    let ps = pieces(text, ',');
    if forall|i: int| 0 <= i < ps.len() ==> (#[trigger] parse_unsigned(trim(ps[i]), usize::MAX as nat)) is Some {
        Some(Seq::new(ps.len(), |i: int| parse_unsigned(trim(ps[i]), usize::MAX as nat)->0 as int))
    } else {
        None
    }
}

/// The weights a flex's `weights` argument gives `n` cells, or the message it is refused
/// with.
pub open spec fn weights_for(text: Seq<char>, n: int) -> Result<Seq<int>, Seq<char>> {
    match parsed_weights(text) {
        None => Err("Flex weights must be comma-separated positive integers"@),
        Some(p) => if p.len() != n || forall|i: int| 0 <= i < p.len() ==> p[i] == 0 {
            Err("Flex weights must match cell count and include a growable item"@)
        } else {
            Ok(p)
        },
    }
}

/// Parses a flex's `weights` argument for `expected` cells.
pub fn parse_weights(weights: &str, expected: usize) -> (r: Result<Vec<usize>, String>)
    ensures
        match r {
            Ok(ws) => weights_for(weights@, expected as int) == Ok::<Seq<int>, Seq<char>>(ints(ws@)),
            Err(e) => weights_for(weights@, expected as int) == Err::<Seq<int>, Seq<char>>(e@),
        },
{
    let v = chars_of(weights);
    let ps = split_chars(&v, ',');
    let ghost pv = pieces(weights@, ',');
    let mut out: Vec<usize> = Vec::new();
    let mut i: usize = 0;
    while i < ps.len()
        invariant
            i <= ps@.len(),
            pv == views(ps@),
            pv == pieces(weights@, ','),
            out@.len() == i,
            forall|j: int| 0 <= j < i ==> (#[trigger] parse_unsigned(trim(pv[j]), usize::MAX as nat))
                == Some(out@[j] as nat),
        decreases ps@.len() - i,
    {
        let t = trim_chars(&ps[i]);
        match parse_decimal(&t, usize::MAX as u64) {
            Some(x) => {
                out.push(x as usize);
            },
            None => {
                assert(parse_unsigned(trim(pv[i as int]), usize::MAX as nat) is None);
                return Err("Flex weights must be comma-separated positive integers".to_owned());
            },
        }
        i = i + 1;
    }
    assert(parsed_weights(weights@) == Some(ints(out@))) by {
        assert(Seq::new(pv.len(), |k: int| parse_unsigned(trim(pv[k]), usize::MAX as nat)->0 as int) =~= ints(out@));
    }
    let mut any = false;
    let mut k: usize = 0;
    while k < out.len()
        invariant
            k <= out@.len(),
            any == exists|j: int| 0 <= j < k && out@[j] != 0,
        decreases out@.len() - k,
    {
        if out[k] != 0 {
            any = true;
        }
        k = k + 1;
    }
    if out.len() != expected || !any {
        let e = "Flex weights must match cell count and include a growable item".to_owned();
        proof {
            reveal_strlit("Flex weights must match cell count and include a growable item");
        }
        assert(out@.len() != expected || forall|j: int| 0 <= j < ints(out@).len() ==> ints(out@)[j] == 0);
        return Err(e);
    }
    assert(!(forall|j: int| 0 <= j < ints(out@).len() ==> ints(out@)[j] == 0)) by {
        let j = choose|j: int| 0 <= j < out@.len() && out@[j] != 0;
        assert(ints(out@)[j] != 0);
    }
    Ok(out)
}


/// The cells of a row fitted to their widths, `gap` spaces between two.
pub open spec fn row_parts(cells: Seq<Seq<char>>, widths: Seq<int>, gap: nat) -> Seq<char>
    decreases cells.len(),
{
    if cells.len() == 0 {
        Seq::empty()
    } else if cells.len() == 1 {
        fitted(cells[0], widths[0])
    } else {
        row_parts(cells.drop_last(), widths, gap) + spaces(gap) + fitted(
            cells.last(),
            widths[cells.len() - 1],
        )
    }
}

/// One laid-out row, trailing white space removed.
pub open spec fn row_text(cells: Seq<Seq<char>>, widths: Seq<int>, gap: nat) -> Seq<char> {
    trim_end(row_parts(cells, widths, gap))
}

/// The views of a sequence of strings.
pub open spec fn strs(s: Seq<String>) -> Seq<Seq<char>> {
    s.map_values(|x: String| x@)
}

fn row_line(cells: &Vec<String>, widths: &Vec<usize>, gap: usize) -> (r: Vec<char>)
    requires
        widths@.len() >= cells@.len(),
    ensures
        r@ == row_text(strs(cells@), ints(widths@), gap as nat),
{
    let ghost cs = strs(cells@);
    let ghost ws = ints(widths@);
    let mut line: Vec<char> = Vec::new();
    let mut i: usize = 0;
    while i < cells.len()
        invariant
            i <= cells@.len(),
            widths@.len() >= cells@.len(),
            cs == strs(cells@),
            ws == ints(widths@),
            line@ == row_parts(cs.take(i as int), ws, gap as nat),
        decreases cells@.len() - i,
    {
        let ghost before = line@;
        if i > 0 {
            push_repeated(&mut line, ' ', gap);
        }
        let f = fit_cell(cells[i].as_str(), widths[i]);
        let fv = chars_of(f.as_str());
        push_chars(&mut line, &fv);
        let ghost t = cs.take(i + 1);
        assert(t.drop_last() =~= cs.take(i as int));
        assert(t.last() == cells@[i as int]@);
        if i == 0 {
            assert(line@ =~= row_parts(t, ws, gap as nat));
        } else {
            assert(spaces(gap as nat) =~= Seq::new(gap as nat, |_k: int| ' '));
            assert(line@ =~= row_parts(t, ws, gap as nat));
        }
        i = i + 1;
    }
    assert(cs.take(i as int) =~= cs);
    trim_end_chars(&line)
}

/// Lays cells out side by side, each fitted to its width, `gap` spaces between two.
pub fn join_row(cells: &Vec<String>, widths: Vec<usize>, gap: usize) -> (r: String)
    requires
        widths@.len() >= cells@.len(),
    ensures
        r@ == row_text(strs(cells@), ints(widths@), gap as nat),
{
    let line = row_line(cells, &widths, gap);
    string_of(&line)
}

/// `n` empty lines.
pub open spec fn blank_lines(n: nat) -> Seq<Seq<char>> {
    Seq::new(n, |_i: int| Seq::<char>::empty())
}

/// The lines of a column of cells: `gap` empty lines between two cells, and each cell
/// followed by empty lines up to its height.
pub open spec fn column_lines(cells: Seq<Seq<char>>, heights: Seq<int>, gap: nat) -> Seq<Seq<char>>
    decreases cells.len(),
{
    if cells.len() == 0 {
        Seq::empty()
    } else {
        let prev = column_lines(cells.drop_last(), heights, gap);
        let k = cells.len() - 1;
        let c = cells.last();
        (if k > 0 {
            prev + blank_lines(gap)
        } else {
            prev
        }) + lines_of(c) + blank_lines(sat_sub(heights[k], height_of(c)) as nat)
    }
}

/// A laid-out column, trailing white space removed.
pub open spec fn column_text(cells: Seq<Seq<char>>, heights: Seq<int>, gap: nat) -> Seq<char> {
    trim_end(joined(column_lines(cells, heights, gap), seq!['\n']))
}

fn push_blank_lines(out: &mut Vec<Vec<char>>, n: usize)
    ensures
        views(final(out)@) == views(old(out)@) + blank_lines(n as nat),
{
    let ghost start = views(out@);
    let mut i: usize = 0;
    while i < n
        invariant
            i <= n,
            views(out@) == start + blank_lines(i as nat),
        decreases n - i,
    {
        let ghost before = views(out@);
        let e: Vec<char> = Vec::new();
        assert(e@ =~= Seq::<char>::empty());
        out.push(e);
        assert(views(out@) =~= before.push(Seq::<char>::empty()));
        assert(views(out@) =~= start + blank_lines((i + 1) as nat));
        i = i + 1;
    }
}

/// Stacks cells in a column, each padded to its height, `gap` empty lines between two.
pub fn join_column(cells: &Vec<String>, heights: Vec<usize>, gap: usize) -> (r: String)
    requires
        heights@.len() >= cells@.len(),
    ensures
        r@ == column_text(strs(cells@), ints(heights@), gap as nat),
{
    let ghost cs = strs(cells@);
    let ghost hs = ints(heights@);
    let mut out: Vec<Vec<char>> = Vec::new();
    let mut i: usize = 0;
    while i < cells.len()
        invariant
            i <= cells@.len(),
            heights@.len() >= cells@.len(),
            cs == strs(cells@),
            hs == ints(heights@),
            views(out@) == column_lines(cs.take(i as int), hs, gap as nat),
        decreases cells@.len() - i,
    {
        let ghost t = cs.take(i + 1);
        assert(t.drop_last() =~= cs.take(i as int));
        assert(t.last() == cells@[i as int]@);
        if i > 0 {
            push_blank_lines(&mut out, gap);
        }
        let v = chars_of(cells[i].as_str());
        let cl = lines(&v);
        let count = cl.len();
        let ghost mid = views(out@);
        let mut k: usize = 0;
        while k < count
            invariant
                k <= count,
                count == cl@.len(),
                views(out@) == mid + views(cl@).take(k as int),
            decreases count - k,
        {
            let ghost before = views(out@);
            let line = copy_chars(&cl[k]);
            out.push(line);
            assert(views(cl@).take(k + 1) =~= views(cl@).take(k as int).push(cl@[k as int]@));
            assert(views(out@) =~= before.push(cl@[k as int]@));
            k = k + 1;
        }
        assert(views(cl@).take(count as int) =~= views(cl@));
        let height = if count > 0 { count } else { 1 };
        push_blank_lines(&mut out, heights[i].saturating_sub(height));
        assert(views(out@) =~= column_lines(t, hs, gap as nat));
        i = i + 1;
    }
    assert(cs.take(i as int) =~= cs);
    let sep = vec!['\n'];
    assert(sep@ =~= seq!['\n']);
    let text = join(&out, &sep);
    let trimmed = trim_end_chars(&text);
    string_of(&trimmed)
}

fn copy_chars(v: &Vec<char>) -> (r: Vec<char>)
    ensures
        r@ == v@,
{
    let mut r: Vec<char> = Vec::new();
    push_chars(&mut r, v);
    r
}


/// Whether a body line separates cells: it trims to `---`.
pub open spec fn is_separator(l: Seq<char>) -> bool {
    trim(l) == "---"@
}

/// The runs of lines between separator lines, as `[T]::split` yields them: one more run
/// than separators, runs possibly empty.
pub open spec fn groups(ls: Seq<Seq<char>>) -> Seq<Seq<Seq<char>>>
    decreases ls.len(),
{
    if ls.len() == 0 {
        seq![Seq::empty()]
    } else {
        let g = groups(ls.drop_last());
        if is_separator(ls.last()) {
            g.push(Seq::empty())
        } else {
            g.update(g.len() - 1, g.last().push(ls.last()))
        }
    }
}

pub proof fn lemma_groups_len(ls: Seq<Seq<char>>)
    ensures
        groups(ls).len() >= 1,
    decreases ls.len(),
{
    if ls.len() > 0 {
        lemma_groups_len(ls.drop_last());
    }
}

/// The non-empty texts of `s`, in order.
pub open spec fn non_empty(s: Seq<Seq<char>>) -> Seq<Seq<char>>
    decreases s.len(),
{
    if s.len() == 0 {
        Seq::empty()
    } else {
        let r = non_empty(s.drop_last());
        if s.last().len() > 0 {
            r.push(s.last())
        } else {
            r
        }
    }
}

/// The cells of a layout body. When a line trims to `---`, cells are the runs of lines
/// between such lines, each joined and trimmed; otherwise every line is a cell, trimmed.
/// Empty cells are dropped.
pub open spec fn cells_of(body: Seq<char>) -> Seq<Seq<char>> {
    let ls = lines_of(body);
    if exists|i: int| 0 <= i < ls.len() && #[trigger] is_separator(ls[i]) {
        non_empty(groups(ls).map_values(|g: Seq<Seq<char>>| trim(joined(g, seq!['\n']))))
    } else {
        non_empty(ls.map_values(|l: Seq<char>| trim(l)))
    }
}

fn separator_line(l: &Vec<char>) -> (r: bool)
    ensures
        r == is_separator(l@),
{
    let t = trim_chars(l);
    let d = chars_of("---");
    crate::text::same_chars(&t, &d)
}

/// Keeps the non-empty texts, in order.
fn keep_non_empty(s: &Vec<Vec<char>>) -> (r: Vec<String>)
    ensures
        strs(r@) == non_empty(views(s@)),
{
    let mut r: Vec<String> = Vec::new();
    let mut i: usize = 0;
    while i < s.len()
        invariant
            i <= s@.len(),
            strs(r@) == non_empty(views(s@).take(i as int)),
        decreases s@.len() - i,
    {
        let ghost t = views(s@).take(i + 1);
        assert(t.drop_last() =~= views(s@).take(i as int));
        assert(t.last() == s@[i as int]@);
        if s[i].len() > 0 {
            let ghost before = strs(r@);
            let x = string_of(&s[i]);
            r.push(x);
            assert(strs(r@) =~= before.push(s@[i as int]@));
        }
        i = i + 1;
    }
    assert(views(s@).take(i as int) =~= views(s@));
    r
}

/// Cuts a layout body into its cells.
pub fn body_cells(body: &str) -> (r: Vec<String>)
    ensures
        strs(r@) == cells_of(body@),
{
    let v = chars_of(body);
    let ls = lines(&v);
    let ghost l = views(ls@);
    let mut any = false;
    let mut i: usize = 0;
    while i < ls.len()
        invariant
            i <= ls@.len(),
            l == views(ls@),
            any == exists|j: int| 0 <= j < i && #[trigger] is_separator(l[j]),
        decreases ls@.len() - i,
    {
        let sep_i = separator_line(&ls[i]);
        assert(l[i as int] == ls@[i as int]@);
        if sep_i {
            any = true;
            assert(is_separator(l[i as int]));
        }
        i = i + 1;
    }
    let mut items: Vec<Vec<char>> = Vec::new();
    if any {
        let mut gs: Vec<Vec<Vec<char>>> = Vec::new();
        let e0: Vec<Vec<char>> = Vec::new();
        assert(views(e0@) =~= Seq::<Seq<char>>::empty());
        gs.push(e0);
        assert(l.take(0) =~= Seq::<Seq<char>>::empty());
        assert(gs@.map_values(|g: Vec<Vec<char>>| views(g@)) =~= groups(l.take(0)));
        let mut k: usize = 0;
        while k < ls.len()
            invariant
                k <= ls@.len(),
                l == views(ls@),
                gs@.len() >= 1,
                gs@.map_values(|g: Vec<Vec<char>>| views(g@)) == groups(l.take(k as int)),
            decreases ls@.len() - k,
        {
            let ghost before = gs@.map_values(|g: Vec<Vec<char>>| views(g@));
            assert(l.take(k + 1).drop_last() =~= l.take(k as int));
            assert(l.take(k + 1).last() == ls@[k as int]@);
            if separator_line(&ls[k]) {
                let e1: Vec<Vec<char>> = Vec::new();
                assert(views(e1@) =~= Seq::<Seq<char>>::empty());
                gs.push(e1);
                assert(gs@.map_values(|g: Vec<Vec<char>>| views(g@)) =~= before.push(
                    Seq::<Seq<char>>::empty(),
                ));
            } else {
                let last = gs.len() - 1;
                let mut g = gs.pop().unwrap();
                let ghost gv = views(g@);
                let line = copy_chars(&ls[k]);
                g.push(line);
                assert(views(g@) =~= gv.push(ls@[k as int]@));
                gs.push(g);
                assert(gs@.map_values(|g: Vec<Vec<char>>| views(g@)) =~= before.update(
                    last as int,
                    before.last().push(ls@[k as int]@),
                ));
            }
            k = k + 1;
        }
        assert(l.take(k as int) =~= l);
        let ghost gv = groups(l);
        let mut j: usize = 0;
        while j < gs.len()
            invariant
                j <= gs@.len(),
                gs@.map_values(|g: Vec<Vec<char>>| views(g@)) == gv,
                views(items@) == gv.take(j as int).map_values(
                    |g: Seq<Seq<char>>| trim(joined(g, seq!['\n'])),
                ),
            decreases gs@.len() - j,
        {
            let sep = vec!['\n'];
            assert(sep@ =~= seq!['\n']);
            let text = join(&gs[j], &sep);
            let t = trim_chars(&text);
            let ghost before = views(items@);
            let ghost tv = t@;
            items.push(t);
            assert(gv[j as int] == views(gs@[j as int]@));
            assert(views(items@) =~= before.push(tv));
            assert(views(items@) =~= gv.take(j + 1).map_values(
                |g: Seq<Seq<char>>| trim(joined(g, seq!['\n'])),
            ));
            j = j + 1;
        }
        assert(gv.take(j as int) =~= gv);
    } else {
        let mut j: usize = 0;
        while j < ls.len()
            invariant
                j <= ls@.len(),
                l == views(ls@),
                views(items@) == l.take(j as int).map_values(|x: Seq<char>| trim(x)),
            decreases ls@.len() - j,
        {
            let t = trim_chars(&ls[j]);
            let ghost before = views(items@);
            let ghost tv = t@;
            items.push(t);
            assert(views(items@) =~= before.push(tv));
            assert(views(items@) =~= l.take(j + 1).map_values(|x: Seq<char>| trim(x)));
            j = j + 1;
        }
        assert(l.take(j as int) =~= l);
    }
    keep_non_empty(&items)
}


/// `s` cut into runs of `n`, the last run possibly shorter.
pub open spec fn chunks(s: Seq<Seq<char>>, n: int) -> Seq<Seq<Seq<char>>>
    decreases s.len(),
{
    if n <= 0 || s.len() == 0 {
        Seq::empty()
    } else if s.len() <= n {
        seq![s]
    } else {
        seq![s.take(n)] + chunks(s.skip(n), n)
    }
}

/// The text a grid lays its body out as, or the message it is refused with: cells in rows of
/// `cols` equal columns across the padded viewport width.
pub open spec fn grid_text(body: Seq<char>, cols: int, gap: int, pad: Padding, viewport_cols: int) -> Result<Seq<char>, Seq<char>> {
    if cols == 0 {
        Err("Grid expects cols > 0"@)
    } else {
        let cells = cells_of(body);
        if cells.len() == 0 {
            Ok(Seq::empty())
        } else {
            let w = column_width(cols, gap, sat_sub(viewport_cols, 2 * pad.x));
            let widths = Seq::new(cols as nat, |_i: int| w);
            Ok(padded(
                joined(
                    chunks(cells, cols).map_values(|row: Seq<Seq<char>>| row_text(row, widths, gap as nat)),
                    seq!['\n'],
                ),
                pad,
            ))
        }
    }
}

/// The value an optional layout argument takes.
pub open spec fn or_default(v: Option<usize>, d: usize) -> usize {
    match v {
        Some(x) => x,
        None => d,
    }
}

fn grid_lines(body: &str, cols: Option<usize>, gap: Option<usize>, pad: Padding, viewport_cols: usize) -> (r: Result<String, String>)
    requires
        pad.x <= usize::MAX / 2,
    ensures
        match r {
            Ok(t) => grid_text(body@, or_default(cols, 1) as int, or_default(gap, 2) as int, pad, viewport_cols as int) == Ok::<Seq<char>, Seq<char>>(t@),
            Err(e) => grid_text(body@, or_default(cols, 1) as int, or_default(gap, 2) as int, pad, viewport_cols as int) == Err::<Seq<char>, Seq<char>>(e@),
        },
{
    let cols = match cols {
        Some(c) => c,
        None => 1,
    };
    let gap = match gap {
        Some(g) => g,
        None => 2,
    };
    let cols = match non_zero(cols, "cols") {
        Ok(c) => c,
        Err(e) => {
            proof {
                reveal_strlit("cols");
                reveal_strlit("Grid expects ");
                reveal_strlit(" > 0");
                reveal_strlit("Grid expects cols > 0");
                assert(e@ =~= "Grid expects cols > 0"@);
            }
            return Err(e);
        },
    };
    let cells = body_cells(body);
    let ghost cs = strs(cells@);
    if cells.len() == 0 {
        return Ok(String::new());
    }
    let widths = column_widths(cols, gap, viewport_cols.saturating_sub(pad.x * 2));
    let ghost w = column_width(cols as int, gap as int, sat_sub(viewport_cols as int, 2 * pad.x));
    let ghost widths_s = Seq::new(cols as nat, |_i: int| w);
    assert(ints(widths@) =~= widths_s);
    let ghost rows = chunks(cs, cols as int);
    let ghost total = rows.map_values(|row: Seq<Seq<char>>| row_text(row, widths_s, gap as nat));
    let n = cells.len();
    let mut out: Vec<Vec<char>> = Vec::new();
    let mut start: usize = 0;
    assert(cs.skip(0) =~= cs);
    while start < n
        invariant
            start <= n,
            n == cells@.len(),
            cols > 0,
            cs == strs(cells@),
            widths@.len() == cols,
            ints(widths@) == widths_s,
            total == chunks(cs, cols as int).map_values(|row: Seq<Seq<char>>| row_text(row, widths_s, gap as nat)),
            total == views(out@) + chunks(cs.skip(start as int), cols as int).map_values(
                |row: Seq<Seq<char>>| row_text(row, widths_s, gap as nat),
            ),
        decreases n - start,
    {
        let end = if n - start > cols { start + cols } else { n };
        let mut row: Vec<String> = Vec::new();
        let mut k: usize = start;
        while k < end
            invariant
                start <= k <= end,
                end <= n,
                n == cells@.len(),
                cs == strs(cells@),
                strs(row@) == cs.subrange(start as int, k as int),
            decreases end - k,
        {
            let c = cells[k].clone();
            let ghost before = strs(row@);
            row.push(c);
            assert(strs(row@) =~= before.push(cs[k as int]));
            assert(strs(row@) =~= cs.subrange(start as int, k + 1));
            k = k + 1;
        }
        let line = row_line(&row, &widths, gap);
        let ghost rest = cs.skip(start as int);
        let ghost before = views(out@);
        let ghost lv = line@;
        out.push(line);
        assert(views(out@) =~= before.push(lv));
        if n - start > cols {
            assert(rest.take(cols as int) =~= cs.subrange(start as int, end as int));
            assert(rest.skip(cols as int) =~= cs.skip(end as int));
            let ghost m = |row: Seq<Seq<char>>| row_text(row, widths_s, gap as nat);
            assert(chunks(rest, cols as int) == seq![rest.take(cols as int)] + chunks(rest.skip(cols as int), cols as int));
            assert(chunks(rest, cols as int).map_values(m) =~= seq![m(rest.take(cols as int))] + chunks(cs.skip(end as int), cols as int).map_values(m));
        } else {
            assert(rest =~= cs.subrange(start as int, end as int));
            assert(cs.skip(end as int) =~= Seq::<Seq<char>>::empty());
            let ghost m = |row: Seq<Seq<char>>| row_text(row, widths_s, gap as nat);
            assert(chunks(rest, cols as int) == seq![rest]);
            assert(chunks(rest, cols as int).map_values(m) =~= seq![m(rest)] + chunks(cs.skip(end as int), cols as int).map_values(m));
        }
        assert(views(out@) + chunks(cs.skip(end as int), cols as int).map_values(
            |row: Seq<Seq<char>>| row_text(row, widths_s, gap as nat),
        ) =~= before + chunks(rest, cols as int).map_values(
            |row: Seq<Seq<char>>| row_text(row, widths_s, gap as nat),
        ));
        start = end;
    }
    assert(cs.skip(start as int) =~= Seq::<Seq<char>>::empty());
    assert(views(out@) =~= total);
    let sep = vec!['\n'];
    assert(sep@ =~= seq!['\n']);
    let text = join(&out, &sep);
    Ok(apply_padding(string_of(&text), pad))
}

/// Lays a body out as a grid of `cols` equal columns (default one), `gap` spaces between
/// two (default two), within the viewport's width less the padding.
pub fn grid(body: &str, cols: Option<usize>, gap: Option<usize>, pad: Padding, viewport_cols: usize) -> (r: Result<String, String>)
    requires
        pad.x <= usize::MAX / 2,
    ensures
        match r {
            Ok(t) => grid_text(body@, or_default(cols, 1) as int, or_default(gap, 2) as int, pad, viewport_cols as int) == Ok::<Seq<char>, Seq<char>>(t@),
            Err(e) => grid_text(body@, or_default(cols, 1) as int, or_default(gap, 2) as int, pad, viewport_cols as int) == Err::<Seq<char>, Seq<char>>(e@),
        },
        crate::grid_fit::plain(body@) && 2 * pad.x + or_default(gap, 2) * (or_default(cols, 1) - 1) <= viewport_cols
            ==> (r matches Ok(t) ==> forall|i: int| 0 <= i < lines_of(t@).len() ==> width_from(
            #[trigger] lines_of(t@)[i],
            0,
        ) <= viewport_cols),
{
    let r = grid_lines(body, cols, gap, pad, viewport_cols);
    proof {
        let c = or_default(cols, 1) as int;
        let g = or_default(gap, 2) as int;
        if crate::grid_fit::plain(body@) && c > 0 && 2 * pad.x + g * (c - 1) <= viewport_cols {
            crate::grid_fit::law_grid_lines_fit(body@, c, g, pad, viewport_cols as int);
            if let Ok(t) = &r {
                assert(grid_text(body@, c, g, pad, viewport_cols as int) == Ok::<Seq<char>, Seq<char>>(t@));
                let tt = grid_text(body@, c, g, pad, viewport_cols as int)->Ok_0;
                assert(tt == t@);
                assert(forall|i: int| 0 <= i < lines_of(tt).len() ==> width_from(#[trigger] lines_of(tt)[i], 0) <= viewport_cols as int);
                assert(forall|i: int| 0 <= i < lines_of(t@).len() ==> width_from(#[trigger] lines_of(t@)[i], 0) <= viewport_cols);
            }
        }
    }
    r
}


/// The text a stack lays its body out as: cells one above the other, `gap` empty lines
/// between two, grown to the padded viewport height when asked.
pub open spec fn stack_text(body: Seq<char>, gap: int, pad: Padding, grow: bool, viewport_rows: int) -> Seq<char> {
    let cells = cells_of(body);
    if cells.len() == 0 {
        Seq::empty()
    } else {
        let rendered = joined(cells, Seq::new((gap + 1) as nat, |_i: int| '\n'));
        let rendered = if grow {
            grown(rendered, sat_sub(viewport_rows, 2 * pad.y))
        } else {
            rendered
        };
        padded(rendered, pad)
    }
}

fn cell_views(cells: &Vec<String>) -> (r: Vec<Vec<char>>)
    ensures
        views(r@) == strs(cells@),
{
    let mut r: Vec<Vec<char>> = Vec::new();
    let mut i: usize = 0;
    while i < cells.len()
        invariant
            i <= cells@.len(),
            views(r@) == strs(cells@).take(i as int),
        decreases cells@.len() - i,
    {
        let v = chars_of(cells[i].as_str());
        let ghost before = views(r@);
        let ghost vv = v@;
        r.push(v);
        assert(views(r@) =~= before.push(vv));
        assert(views(r@) =~= strs(cells@).take(i + 1));
        i = i + 1;
    }
    assert(strs(cells@).take(i as int) =~= strs(cells@));
    r
}

/// Lays a body out as a vertical stack, `gap` empty lines between cells (default one),
/// grown to the viewport's height less the padding when `grow` is set (default not).
pub fn stack(body: &str, gap: Option<usize>, pad: Padding, grow: Option<bool>, viewport_rows: usize) -> (r: String)
    requires
        or_default(gap, 1) < usize::MAX,
        pad.y <= usize::MAX / 2,
    ensures
        r@ == stack_text(body@, or_default(gap, 1) as int, pad, grow == Some(true), viewport_rows as int),
{
    let gap = match gap {
        Some(g) => g,
        None => 1,
    };
    let grow = match grow {
        Some(b) => b,
        None => false,
    };
    let cells = body_cells(body);
    if cells.len() == 0 {
        return String::new();
    }
    let parts = cell_views(&cells);
    let mut sep: Vec<char> = Vec::new();
    push_repeated(&mut sep, '\n', gap + 1);
    let text = join(&parts, &sep);
    let rendered = string_of(&text);
    let rendered = if grow {
        grow_lines(rendered, viewport_rows.saturating_sub(pad.y * 2))
    } else {
        rendered
    };
    apply_padding(rendered, pad)
}

/// The text a flex lays its body out as, or the message it is refused with.
///
/// A row flex puts cells side by side at their natural widths, or shares the padded
/// viewport width by weight when it grows; a column flex stacks them at their natural
/// heights, or shares the padded viewport height by weight when it grows.
pub open spec fn flex_text(
    body: Seq<char>,
    direction: Seq<char>,
    gap: int,
    pad: Padding,
    grow: bool,
    weights: Option<Seq<char>>,
    viewport_rows: int,
    viewport_cols: int,
) -> Result<Seq<char>, Seq<char>> {
    let cells = cells_of(body);
    let n = cells.len();
    if n == 0 {
        Ok(Seq::empty())
    } else {
        let ws: Result<Seq<int>, Seq<char>> = match weights {
            Some(w) => weights_for(w, n as int),
            None => Ok(Seq::new(n, |_i: int| 1int)),
        };
        match ws {
            Err(e) => Err(e),
            Ok(ws) => if direction == "row"@ || direction == "horizontal"@ {
                let widths = if grow {
                    flex_width_list(sat_sub(viewport_cols, 2 * pad.x), gap, ws)
                } else {
                    cells.map_values(|c: Seq<char>| width_from(c, 0) as int)
                };
                Ok(padded(row_text(cells, widths, gap as nat), pad))
            } else if direction == "column"@ || direction == "vertical"@ {
                let naturals = cells.map_values(|c: Seq<char>| height_of(c));
                let heights = if grow {
                    column_height_list(sat_sub(viewport_rows, 2 * pad.y), gap, naturals, ws)
                } else {
                    naturals
                };
                Ok(padded(column_text(cells, heights, gap as nat), pad))
            } else {
                Err("Flex direction must be row or column"@)
            },
        }
    }
}

/// The view of an optional string slice.
pub open spec fn opt_text(o: Option<&str>) -> Option<Seq<char>> {
    match o {
        Some(s) => Some(s@),
        None => None,
    }
}

/// Lays a body out as a flex row or column (`direction`, default `row`), `gap` between
/// cells (default two), sharing the viewport by `weights` (default all one) when `grow` is
/// set (default not).
pub fn flex(
    body: &str,
    direction: Option<&str>,
    gap: Option<usize>,
    pad: Padding,
    grow: Option<bool>,
    weights: Option<&str>,
    viewport_rows: usize,
    viewport_cols: usize,
) -> (r: Result<String, String>)
    requires
        pad.x <= usize::MAX / 2,
        pad.y <= usize::MAX / 2,
    ensures
        ({
            let d = match direction {
                Some(d) => d@,
                None => "row"@,
            };
            let spec_r = flex_text(
                body@,
                d,
                or_default(gap, 2) as int,
                pad,
                grow == Some(true),
                opt_text(weights),
                viewport_rows as int,
                viewport_cols as int,
            );
            match r {
                Ok(t) => spec_r == Ok::<Seq<char>, Seq<char>>(t@),
                Err(e) => spec_r == Err::<Seq<char>, Seq<char>>(e@),
            }
        }),
{
    let gap = match gap {
        Some(g) => g,
        None => 2,
    };
    let grow = match grow {
        Some(b) => b,
        None => false,
    };
    let dir = match direction {
        Some(d) => chars_of(d),
        None => chars_of("row"),
    };
    let cells = body_cells(body);
    let ghost cs = strs(cells@);
    let n = cells.len();
    if n == 0 {
        return Ok(String::new());
    }
    let ws = match weights {
        Some(w) => match parse_weights(w, n) {
            Ok(ws) => ws,
            Err(e) => {
                return Err(e);
            },
        },
        None => {
            let mut ws: Vec<usize> = Vec::new();
            let mut i: usize = 0;
            while i < n
                invariant
                    i <= n,
                    ws@.len() == i,
                    forall|j: int| 0 <= j < i ==> ws@[j] == 1,
                decreases n - i,
            {
                ws.push(1);
                i = i + 1;
            }
            assert(ints(ws@) =~= Seq::new(n as nat, |_i: int| 1int));
            ws
        },
    };
    let is_row = crate::text::same_chars(&dir, &chars_of("row")) || crate::text::same_chars(&dir, &chars_of("horizontal"));
    let is_column = crate::text::same_chars(&dir, &chars_of("column")) || crate::text::same_chars(&dir, &chars_of("vertical"));
    let rendered = if is_row {
        let widths = if grow {
            flex_widths(viewport_cols.saturating_sub(pad.x * 2), gap, &ws)
        } else {
            natural_widths(&cells)
        };
        proof {
            if grow {
                assert(flex_width_list(sat_sub(viewport_cols as int, 2 * pad.x), gap as int, ints(ws@)).len() == n);
                assert(ints(widths@) =~= flex_width_list(sat_sub(viewport_cols as int, 2 * pad.x), gap as int, ints(ws@)));
            } else {
                assert(ints(widths@) =~= cs.map_values(|c: Seq<char>| width_from(c, 0) as int));
            }
        }
        join_row(&cells, widths, gap)
    } else if is_column {
        let heights = if grow {
            flex_column_heights(viewport_rows.saturating_sub(pad.y * 2), gap, &cells, &ws)
        } else {
            natural_heights(&cells)
        };
        proof {
            let naturals = cs.map_values(|c: Seq<char>| height_of(c));
            assert(cells@.map_values(|c: String| height_of(c@)) =~= naturals);
            if grow {
                let chl = column_height_list(sat_sub(viewport_rows as int, 2 * pad.y), gap as int, cells@.map_values(|c: String| height_of(c@)), ints(ws@));
                lemma_column_height_list_len(sat_sub(viewport_rows as int, 2 * pad.y), gap as int, cells@.map_values(|c: String| height_of(c@)), ints(ws@));
                assert(chl.len() == n);
                assert(ints(heights@) =~= chl);
                assert(ints(heights@) =~= column_height_list(sat_sub(viewport_rows as int, 2 * pad.y), gap as int, naturals, ints(ws@)));
            } else {
                assert(ints(heights@) =~= naturals);
            }
        }
        join_column(&cells, heights, gap)
    } else {
        return Err("Flex direction must be row or column".to_owned());
    };
    Ok(apply_padding(rendered, pad))
}

} // verus!
