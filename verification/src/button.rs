//! The collapse button drawn in the sidebar's top-right corner.

use vstd::prelude::*;

verus! {

/// The label of the collapse button: `[+]` while collapsed, `[-]` while expanded.
pub open spec fn button_label(collapsed: bool) -> Seq<char> {
    if collapsed {
        "[+]"@
    } else {
        "[-]"@
    }
}

/// The collapse button's label.
pub fn collapse_button(collapsed: bool) -> (r: &'static str)
    ensures
        r@ == button_label(collapsed),
{
    if collapsed {
        "[+]"
    } else {
        "[-]"
    }
}

/// The first column of the button in a row `cols` wide (the button is three columns).
pub fn collapse_button_start_col(cols: usize, collapsed: bool) -> (r: usize)
    ensures
        r == if cols > 3 {
            (cols - 3) as usize
        } else {
            0
        },
{
    let label = collapse_button(collapsed);
    proof {
        reveal_strlit("[+]");
        reveal_strlit("[-]");
        assert(vstd::utf8::is_ascii_chars(label@));
        vstd::utf8::is_ascii_chars_encode_utf8(label@);
    }
    cols.saturating_sub(label.len())
}

/// Whether a click lands on the collapse button: the first row, at or right of its first
/// column.
pub fn is_collapse_button_click(row: isize, col: usize, cols: usize, collapsed: bool) -> (r: bool)
    ensures
        r == (row == 0 && col >= if cols > 3 {
            cols - 3
        } else {
            0
        }),
{
    row == 0 && col >= collapse_button_start_col(cols, collapsed)
}

} // verus!
