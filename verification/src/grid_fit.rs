//! Why a grid fits its viewport: for plain text (no escape sequences, button markers or
//! carriage returns), drawn width is length, and every line a grid draws is at most as long
//! as the viewport is wide when its padding and gaps fit.

use vstd::prelude::*;
use crate::click::MARKER_START;
use crate::layout::{Padding, cells_of, chunks, column_width, fitted, grid_text, groups, non_empty,
    padded, padded_lines, row_parts, row_text, sat_mul, sat_sub, spaces, truncate_from, width_from,
    zero_width_at};
use crate::laws::law_fitted_cell_width;
use crate::text::{joined, lines_of, newline_pieces, strip_cr, trim, trim_end, trim_start};

verus! {

/// A character drawn one column wide and cut nowhere: not an escape, a marker start or a
/// carriage return.
pub open spec fn plain_char(c: char) -> bool {
    c != '\u{1b}' && c != MARKER_START && c != '\r'
}

/// Text of plain characters only.
pub open spec fn plain(s: Seq<char>) -> bool {
    forall|i: int| 0 <= i < s.len() ==> plain_char(#[trigger] s[i])
}

/// Texts of plain characters only.
pub open spec fn all_plain(ss: Seq<Seq<char>>) -> bool {
    forall|i: int| 0 <= i < ss.len() ==> plain(#[trigger] ss[i])
}

/// Every piece of `s` between newlines is at most `b` characters long.
pub open spec fn pieces_fit(s: Seq<char>, b: int) -> bool {
    forall|i: int| 0 <= i < newline_pieces(s).len() ==> (#[trigger] newline_pieces(s)[i]).len() <= b
}

/// Plain text is as wide as it is long.
pub proof fn lemma_plain_width(s: Seq<char>, i: int)
    requires
        plain(s),
        0 <= i <= s.len(),
    ensures
        width_from(s, i) == s.len() - i,
    decreases s.len() - i,
{
    if i < s.len() {
        assert(plain_char(s[i]));
        assert(zero_width_at(s, i) is None);
        lemma_plain_width(s, i + 1);
    }
}

/// The pieces of a text between newlines hold no newline, are no longer than the text, and
/// are plain when it is.
pub proof fn lemma_pieces(s: Seq<char>)
    ensures
        newline_pieces(s).len() >= 1,
        forall|i: int| 0 <= i < newline_pieces(s).len() ==> (#[trigger] newline_pieces(s)[i]).len() <= s.len(),
        forall|i: int, j: int| 0 <= i < newline_pieces(s).len() && 0 <= j < newline_pieces(s)[i].len()
            ==> (#[trigger] newline_pieces(s)[i][j]) != '\n',
        plain(s) ==> all_plain(newline_pieces(s)),
    decreases s.len(),
{
    if s.len() > 0 {
        let t = s.drop_last();
        lemma_pieces(t);
        let p = newline_pieces(t);
        if plain(s) {
            assert forall|k: int| 0 <= k < t.len() implies plain_char(#[trigger] t[k]) by {
                assert(t[k] == s[k]);
            }
            assert(plain_char(s[s.len() - 1]));
        }
        if s.last() != '\n' {
            let q = newline_pieces(s);
            assert forall|i: int, j: int| 0 <= i < q.len() && 0 <= j < q[i].len() implies (#[trigger] q[i][j]) != '\n' by {
                if i == p.len() - 1 {
                    if j < p.last().len() {
                        assert(q[i][j] == p.last()[j]);
                    }
                }
            }
            if plain(s) {
                assert forall|i: int| 0 <= i < q.len() implies plain(#[trigger] q[i]) by {
                    if i == p.len() - 1 {
                        assert forall|j: int| 0 <= j < q[i].len() implies plain_char(#[trigger] q[i][j]) by {
                            if j < p.last().len() {
                                assert(q[i][j] == p.last()[j]);
                            }
                        }
                    }
                }
            }
        }
    }
}

/// Without carriage returns, the lines of a text are its pieces between newlines.
pub proof fn lemma_lines_are_pieces(s: Seq<char>)
    requires
        plain(s),
    ensures
        lines_of(s).len() <= newline_pieces(s).len(),
        forall|i: int| 0 <= i < lines_of(s).len() ==> #[trigger] lines_of(s)[i] == newline_pieces(s)[i],
{
    lemma_pieces(s);
    let p = newline_pieces(s);
    assert forall|i: int| 0 <= i < p.len() implies #[trigger] strip_cr(p[i]) == p[i] by {
        if p[i].len() > 0 {
            assert(plain(p[i]));
            assert(plain_char(p[i][p[i].len() - 1]));
        }
    }
}

/// Cutting at a newline splits the pieces.
pub proof fn lemma_pieces_concat(a: Seq<char>, b: Seq<char>)
    ensures
        newline_pieces(a + seq!['\n'] + b) == newline_pieces(a) + newline_pieces(b),
    decreases b.len(),
{
    if b.len() == 0 {
        assert(a + seq!['\n'] + b =~= a.push('\n'));
        assert((a.push('\n')).drop_last() =~= a);
        assert(newline_pieces(b) =~= seq![Seq::<char>::empty()]);
    } else {
        let x = a + seq!['\n'] + b;
        assert(x.drop_last() =~= a + seq!['\n'] + b.drop_last());
        assert(x.last() == b.last());
        lemma_pieces_concat(a, b.drop_last());
        lemma_pieces(b.drop_last());
        lemma_pieces(a);
        assert(newline_pieces(x) =~= newline_pieces(a) + newline_pieces(b));
    }
}

/// A text no longer than `b` has every piece at most `b` long.
pub proof fn lemma_short_fits(s: Seq<char>, b: int)
    requires
        s.len() <= b,
    ensures
        pieces_fit(s, b),
{
    lemma_pieces(s);
}

/// Texts joined by newlines have the pieces of the texts.
pub proof fn lemma_joined_fits(ls: Seq<Seq<char>>, b: int)
    requires
        forall|i: int| 0 <= i < ls.len() ==> pieces_fit(#[trigger] ls[i], b),
        b >= 0,
    ensures
        pieces_fit(joined(ls, seq!['\n']), b),
    decreases ls.len(),
{
    if ls.len() == 0 {
        lemma_short_fits(Seq::empty(), b);
    } else if ls.len() == 1 {
        assert(pieces_fit(ls[0], b));
    } else {
        let init = ls.drop_last();
        assert forall|i: int| 0 <= i < init.len() implies pieces_fit(#[trigger] init[i], b) by {
            assert(init[i] == ls[i]);
        }
        lemma_joined_fits(init, b);
        let a = joined(init, seq!['\n']);
        assert(pieces_fit(ls[ls.len() - 1], b));
        lemma_pieces_concat(a, ls.last());
        let pa = newline_pieces(a);
        let pb = newline_pieces(ls.last());
        assert forall|i: int| 0 <= i < (pa + pb).len() implies (#[trigger] (pa + pb)[i]).len() <= b by {
            if i < pa.len() {
            } else {
                assert((pa + pb)[i] == pb[i - pa.len()]);
            }
        }
    }
}

/// Texts joined by newlines are plain when they all are.
pub proof fn lemma_joined_plain(ls: Seq<Seq<char>>)
    requires
        all_plain(ls),
    ensures
        plain(joined(ls, seq!['\n'])),
    decreases ls.len(),
{
    if ls.len() > 1 {
        let init = ls.drop_last();
        assert forall|i: int| 0 <= i < init.len() implies plain(#[trigger] init[i]) by {
            assert(init[i] == ls[i]);
        }
        lemma_joined_plain(init);
        let a = joined(init, seq!['\n']);
        let x = a + seq!['\n'] + ls.last();
        assert(plain(ls[ls.len() - 1]));
        assert forall|k: int| 0 <= k < x.len() implies plain_char(#[trigger] x[k]) by {
            if k < a.len() {
                assert(x[k] == a[k]);
            } else if k > a.len() {
                assert(x[k] == ls.last()[k - a.len() - 1]);
            }
        }
    } else if ls.len() == 1 {
        assert(plain(ls[0]));
    }
}


/// Trimming keeps text plain and never lengthens it.
pub proof fn lemma_trim_plain(s: Seq<char>)
    ensures
        plain(s) ==> plain(trim_start(s)) && plain(trim_end(s)) && plain(trim(s)),
        trim_end(s).len() <= s.len(),
    decreases s.len(),
{
    lemma_trim_start_plain(s);
    lemma_trim_end_plain(s);
    lemma_trim_end_plain(trim_start(s));
}

proof fn lemma_trim_start_plain(s: Seq<char>)
    ensures
        plain(s) ==> plain(trim_start(s)),
    decreases s.len(),
{
    if s.len() > 0 && crate::text::is_white_space(s[0]) {
        let t = s.drop_first();
        if plain(s) {
            assert forall|k: int| 0 <= k < t.len() implies plain_char(#[trigger] t[k]) by {
                assert(t[k] == s[k + 1]);
            }
        }
        lemma_trim_start_plain(t);
    }
}

proof fn lemma_trim_end_plain(s: Seq<char>)
    ensures
        plain(s) ==> plain(trim_end(s)),
        trim_end(s).len() <= s.len(),
    decreases s.len(),
{
    if s.len() > 0 && crate::text::is_white_space(s.last()) {
        let t = s.drop_last();
        if plain(s) {
            assert forall|k: int| 0 <= k < t.len() implies plain_char(#[trigger] t[k]) by {
                assert(t[k] == s[k]);
            }
        }
        lemma_trim_end_plain(t);
    }
}

/// The runs of plain lines are plain.
pub proof fn lemma_groups_plain(ls: Seq<Seq<char>>)
    requires
        all_plain(ls),
    ensures
        forall|i: int| 0 <= i < groups(ls).len() ==> all_plain(#[trigger] groups(ls)[i]),
    decreases ls.len(),
{
    if ls.len() > 0 {
        let init = ls.drop_last();
        assert forall|i: int| 0 <= i < init.len() implies plain(#[trigger] init[i]) by {
            assert(init[i] == ls[i]);
        }
        lemma_groups_plain(init);
        let g = groups(init);
        assert(plain(ls[ls.len() - 1]));
        if !crate::layout::is_separator(ls.last()) {
            crate::layout::lemma_groups_len(init);
            let last = g.last().push(ls.last());
            assert(all_plain(g[g.len() - 1]));
            assert forall|j: int| 0 <= j < last.len() implies plain(#[trigger] last[j]) by {
                if j < g.last().len() {
                    assert(last[j] == g.last()[j]);
                }
            }
            let r = groups(ls);
            assert forall|i: int| 0 <= i < r.len() implies all_plain(#[trigger] r[i]) by {
                if i < g.len() - 1 {
                    assert(r[i] == g[i]);
                }
            }
        } else {
            let r = groups(ls);
            assert forall|i: int| 0 <= i < r.len() implies all_plain(#[trigger] r[i]) by {
                if i < g.len() {
                    assert(r[i] == g[i]);
                } else {
                    assert(r[i] =~= Seq::<Seq<char>>::empty());
                }
            }
        }
    }
}

/// Keeping the non-empty texts keeps them plain.
pub proof fn lemma_non_empty_plain(ss: Seq<Seq<char>>)
    requires
        all_plain(ss),
    ensures
        all_plain(non_empty(ss)),
    decreases ss.len(),
{
    if ss.len() > 0 {
        let init = ss.drop_last();
        assert forall|i: int| 0 <= i < init.len() implies plain(#[trigger] init[i]) by {
            assert(init[i] == ss[i]);
        }
        lemma_non_empty_plain(init);
        assert(plain(ss[ss.len() - 1]));
        let r = non_empty(init);
        if ss.last().len() > 0 {
            assert forall|i: int| 0 <= i < r.push(ss.last()).len() implies plain(#[trigger] r.push(ss.last())[i]) by {
                if i < r.len() {
                    assert(r.push(ss.last())[i] == r[i]);
                }
            }
        }
    }
}

/// The cells of a plain body are plain.
pub proof fn lemma_cells_plain(body: Seq<char>)
    requires
        plain(body),
    ensures
        all_plain(cells_of(body)),
{
    let ls = lines_of(body);
    lemma_lines_are_pieces(body);
    lemma_pieces(body);
    assert forall|i: int| 0 <= i < ls.len() implies plain(#[trigger] ls[i]) by {
        assert(ls[i] == newline_pieces(body)[i]);
    }
    if exists|i: int| 0 <= i < ls.len() && #[trigger] crate::layout::is_separator(ls[i]) {
        lemma_groups_plain(ls);
        let gs = groups(ls);
        let m = gs.map_values(|g: Seq<Seq<char>>| trim(joined(g, seq!['\n'])));
        assert forall|i: int| 0 <= i < m.len() implies plain(#[trigger] m[i]) by {
            assert(all_plain(gs[i]));
            lemma_joined_plain(gs[i]);
            lemma_trim_plain(joined(gs[i], seq!['\n']));
        }
        lemma_non_empty_plain(m);
    } else {
        let m = ls.map_values(|l: Seq<char>| trim(l));
        assert forall|i: int| 0 <= i < m.len() implies plain(#[trigger] m[i]) by {
            lemma_trim_plain(ls[i]);
        }
        lemma_non_empty_plain(m);
    }
}


/// Cutting plain text keeps it plain.
pub proof fn lemma_truncate_plain(s: Seq<char>, i: int, width: int, max: int)
    requires
        plain(s),
        0 <= i,
    ensures
        plain(truncate_from(s, i, width, max)),
    decreases s.len() - i,
{
    if i < s.len() {
        assert(plain_char(s[i]));
        assert(zero_width_at(s, i) is None);
        if width != max {
            lemma_truncate_plain(s, i + 1, width + 1, max);
            let r = truncate_from(s, i + 1, width + 1, max);
            let x = seq![s[i]] + r;
            assert forall|k: int| 0 <= k < x.len() implies plain_char(#[trigger] x[k]) by {
                if k > 0 {
                    assert(x[k] == r[k - 1]);
                }
            }
        }
    }
}

/// A plain cell fitted to `w` columns is plain and exactly `w` characters long.
pub proof fn lemma_fitted_plain(cell: Seq<char>, w: int)
    requires
        plain(cell),
        w >= 0,
    ensures
        plain(fitted(cell, w)),
        fitted(cell, w).len() == w,
{
    let t = truncate_from(cell, 0, 0, w);
    lemma_truncate_plain(cell, 0, 0, w);
    let n = sat_sub(w, width_from(t, 0) as int) as nat;
    let f = fitted(cell, w);
    assert(f == t + spaces(n));
    assert forall|k: int| 0 <= k < f.len() implies plain_char(#[trigger] f[k]) by {
        if k < t.len() {
            assert(f[k] == t[k]);
        } else {
            assert(f[k] == ' ');
        }
    }
    law_fitted_cell_width(cell, w);
    lemma_plain_width(f, 0);
}

/// The cells of a row fitted to `w` columns each, `gap` spaces between two: plain, and as
/// long as the cells' columns and the gaps between them.
pub proof fn lemma_row_parts(cells: Seq<Seq<char>>, widths: Seq<int>, gap: nat, w: int)
    requires
        all_plain(cells),
        cells.len() >= 1,
        w >= 0,
        widths.len() >= cells.len(),
        forall|i: int| 0 <= i < widths.len() ==> #[trigger] widths[i] == w,
    ensures
        plain(row_parts(cells, widths, gap)),
        row_parts(cells, widths, gap).len() == cells.len() * w + (cells.len() - 1) * gap,
    decreases cells.len(),
{
    assert(plain(cells[cells.len() - 1]));
    assert(widths[cells.len() - 1] == w);
    lemma_fitted_plain(cells.last(), w);
    if cells.len() == 1 {
        assert(plain(cells[0]));
    } else {
        let init = cells.drop_last();
        assert forall|i: int| 0 <= i < init.len() implies plain(#[trigger] init[i]) by {
            assert(init[i] == cells[i]);
        }
        lemma_row_parts(init, widths, gap, w);
        let a = row_parts(init, widths, gap);
        let f = fitted(cells.last(), w);
        let x = a + spaces(gap) + f;
        assert(row_parts(cells, widths, gap) == x);
        assert forall|k: int| 0 <= k < x.len() implies plain_char(#[trigger] x[k]) by {
            if k < a.len() {
                assert(x[k] == a[k]);
            } else if k < a.len() + gap {
                assert(x[k] == ' ');
            } else {
                assert(x[k] == f[k - a.len() - gap]);
            }
        }
        assert(x.len() == cells.len() * w + (cells.len() - 1) * gap) by (nonlinear_arith)
            requires
                x.len() == a.len() + gap + w,
                a.len() == (cells.len() - 1) * w + (cells.len() - 2) * gap,
        ;
    }
}

/// The rows of `s` in runs of `n`: each run has between one and `n` texts, all of `s`'s.
pub proof fn lemma_chunks(s: Seq<Seq<char>>, n: int)
    requires
        n > 0,
        all_plain(s),
    ensures
        forall|i: int| 0 <= i < chunks(s, n).len() ==> 1 <= (#[trigger] chunks(s, n)[i]).len() <= n
            && all_plain(chunks(s, n)[i]),
    decreases s.len(),
{
    if s.len() > 0 {
        if s.len() <= n {
            assert(chunks(s, n) =~= seq![s]);
        } else {
            let rest = s.skip(n);
            assert forall|i: int| 0 <= i < rest.len() implies plain(#[trigger] rest[i]) by {
                assert(rest[i] == s[i + n]);
            }
            lemma_chunks(rest, n);
            let head = s.take(n);
            assert forall|i: int| 0 <= i < head.len() implies plain(#[trigger] head[i]) by {
                assert(head[i] == s[i]);
            }
            let c = chunks(s, n);
            assert(c == seq![head] + chunks(rest, n));
            assert forall|i: int| 0 <= i < c.len() implies 1 <= (#[trigger] c[i]).len() <= n && all_plain(c[i]) by {
                if i > 0 {
                    assert(c[i] == chunks(rest, n)[i - 1]);
                }
            }
        }
    }
}


/// Padding plain text whose pieces are at most `b` long gives plain text whose lines are at
/// most `b` and both horizontal paddings long.
pub proof fn lemma_padded_fits(x: Seq<char>, pad: Padding, b: int)
    requires
        plain(x),
        pieces_fit(x, b),
        b >= 0,
    ensures
        plain(padded(x, pad)),
        pieces_fit(padded(x, pad), b + 2 * pad.x),
{
    if pad.x == 0 && pad.y == 0 {
    } else {
        let l = lines_of(x);
        lemma_lines_are_pieces(x);
        lemma_pieces(x);
        let pl = padded_lines(l, pad.x as nat, pad.y as nat);
        let sp = spaces(pad.x as nat);
        assert forall|i: int| 0 <= i < pl.len() implies plain(#[trigger] pl[i]) && pl[i].len() <= b + 2 * pad.x by {
            if pad.y <= i < pad.y + l.len() {
                let li = l[i - pad.y];
                assert(li == newline_pieces(x)[i - pad.y]);
                assert(plain(li));
                let e = sp + li + sp;
                assert(pl[i] == e);
                assert forall|k: int| 0 <= k < e.len() implies plain_char(#[trigger] e[k]) by {
                    if k < sp.len() {
                        assert(e[k] == ' ');
                    } else if k < sp.len() + li.len() {
                        assert(e[k] == li[k - sp.len()]);
                    } else {
                        assert(e[k] == ' ');
                    }
                }
            } else {
                assert(pl[i].len() == 0);
            }
        }
        assert forall|i: int| 0 <= i < pl.len() implies pieces_fit(#[trigger] pl[i], b + 2 * pad.x) by {
            lemma_short_fits(pl[i], b + 2 * pad.x);
        }
        lemma_joined_fits(pl, b + 2 * pad.x);
        lemma_joined_plain(pl);
    }
}

/// A grid of plain text fits its viewport: when both horizontal paddings and the gaps
/// between its columns fit in the viewport, every line it draws is at most as wide as the
/// viewport.
pub proof fn law_grid_lines_fit(body: Seq<char>, cols: int, gap: int, pad: Padding, viewport_cols: int)
    requires
        plain(body),
        cols > 0,
        gap >= 0,
        viewport_cols <= usize::MAX,
        2 * pad.x + gap * (cols - 1) <= viewport_cols,
    ensures
        grid_text(body, cols, gap, pad, viewport_cols) matches Ok(t) ==> forall|i: int|
            0 <= i < lines_of(t).len() ==> width_from(#[trigger] lines_of(t)[i], 0) <= viewport_cols,
{
    let cells = cells_of(body);
    lemma_cells_plain(body);
    let t = grid_text(body, cols, gap, pad, viewport_cols)->Ok_0;
    if cells.len() == 0 {
        assert(t =~= Seq::<char>::empty());
        assert(newline_pieces(t) =~= seq![Seq::<char>::empty()]);
        assert(lines_of(t).len() == 0);
    } else {
        let avail = sat_sub(viewport_cols, 2 * pad.x);
        assert(avail == viewport_cols - 2 * pad.x);
        assert(gap * (cols - 1) >= 0) by (nonlinear_arith)
            requires
                gap >= 0,
                cols > 0,
        ;
        assert(sat_mul(gap, sat_sub(cols, 1)) == gap * (cols - 1));
        let w = column_width(cols, gap, avail);
        let q = avail - gap * (cols - 1);
        assert(w == q / cols);
        assert(w >= 0 && cols * w <= q) by (nonlinear_arith)
            requires
                w == q / cols,
                q >= 0,
                cols > 0,
        ;
        let widths = Seq::new(cols as nat, |_i: int| w);
        let ch = chunks(cells, cols);
        lemma_chunks(cells, cols);
        let rows = ch.map_values(|row: Seq<Seq<char>>| row_text(row, widths, gap as nat));
        assert forall|i: int| 0 <= i < rows.len() implies pieces_fit(#[trigger] rows[i], avail) && plain(rows[i]) by {
            let c = ch[i];
            let k = c.len();
            assert(1 <= k <= cols && all_plain(c));
            lemma_row_parts(c, widths, gap as nat, w);
            let rp = row_parts(c, widths, gap as nat);
            assert(rp.len() <= avail) by (nonlinear_arith)
                requires
                    rp.len() == k * w + (k - 1) * gap,
                    1 <= k <= cols,
                    w >= 0,
                    gap >= 0,
                    cols * w <= q,
                    q == avail - gap * (cols - 1),
            ;
            lemma_trim_plain(rp);
            assert(rows[i] == trim_end(rp));
            lemma_short_fits(rows[i], avail);
        }
        lemma_joined_fits(rows, avail);
        lemma_joined_plain(rows);
        let j = joined(rows, seq!['\n']);
        lemma_padded_fits(j, pad, avail);
        assert(t == padded(j, pad));
        lemma_lines_are_pieces(t);
        lemma_pieces(t);
        assert forall|i: int| 0 <= i < lines_of(t).len() implies width_from(#[trigger] lines_of(t)[i], 0) <= viewport_cols by {
            let li = lines_of(t)[i];
            assert(li == newline_pieces(t)[i]);
            lemma_plain_width(li, 0);
        }
    }
}

} // verus!
