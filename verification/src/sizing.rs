//! How many panes a viewport of a given width holds.

use vstd::prelude::*;

verus! {

/// Width, in pixels, that one pane is given.
pub const PANE_WIDTH: i32 = 300;

/// The pane count for a viewport `width` pixels wide: one pane per full
/// `PANE_WIDTH` pixels and one more, and never fewer than one.
pub open spec fn target_count(width: int) -> int {
    let fitting = width / (PANE_WIDTH as int) + 1;
    if fitting < 1 {
        1
    } else {
        fitting
    }
}

/// Computes the pane count for a window `window_width` pixels wide.
pub fn calculate_column_count(window_width: i32) -> (count: i32)
    ensures
        count == target_count(window_width as int),
        count >= 1,
{
    if window_width < 0 {
        1
    } else {
        window_width / PANE_WIDTH + 1
    }
}

} // verus!
