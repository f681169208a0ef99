//! The cursor that every list view keeps: moving it down and up, and keeping
//! it inside the list when the list changes.
use vstd::prelude::*;

verus! {

/// The cursor after moving down: one further, but never past the last item;
/// unchanged in an empty list.
pub open spec fn next_index(selected: int, len: int) -> int {
    if len == 0 {
        selected
    } else if selected + 1 <= len - 1 {
        selected + 1
    } else {
        len - 1
    }
}

/// The cursor after moving up: one back, stopping at the first item.
pub open spec fn prev_index(selected: int) -> int {
    if selected == 0 {
        0
    } else {
        selected - 1
    }
}

/// The cursor kept inside a list of `len` items (0 for an empty list).
pub open spec fn clamp_index(selected: int, len: int) -> int {
    let last = if len == 0 {
        0
    } else {
        len - 1
    };
    if selected <= last {
        selected
    } else {
        last
    }
}

/// The cursor points at an item, or at 0 when there is none.
pub open spec fn in_bounds(selected: int, len: int) -> bool {
    selected < len || (len == 0 && selected == 0)
}

pub fn next_index_exec(selected: usize, len: usize) -> (r: usize)
    ensures
        r == next_index(selected as int, len as int),
{
    if len == 0 {
        selected
    } else if selected < len - 1 {
        selected + 1
    } else {
        len - 1
    }
}

pub fn prev_index_exec(selected: usize) -> (r: usize)
    ensures
        r == prev_index(selected as int),
{
    selected.saturating_sub(1)
}

pub fn clamp_index_exec(selected: usize, len: usize) -> (r: usize)
    ensures
        r == clamp_index(selected as int, len as int),
{
    let last = len.saturating_sub(1);
    if selected <= last {
        selected
    } else {
        last
    }
}

/// Moving the cursor down or up keeps it on an item, and keeping it inside
/// the list always puts it on an item.
pub proof fn law_cursor_stays_in_bounds(selected: int, len: int)
    requires
        0 <= selected,
        0 <= len,
    ensures
        in_bounds(selected, len) ==> in_bounds(next_index(selected, len), len),
        in_bounds(selected, len) ==> in_bounds(prev_index(selected), len),
        in_bounds(clamp_index(selected, len), len),
{
}

/// Moving down from the last item, or up from the first, stays put; keeping a
/// cursor that is already inside the list leaves it where it is.
pub proof fn law_cursor_ends(len: int)
    requires
        len > 0,
    ensures
        next_index(len - 1, len) == len - 1,
        prev_index(0) == 0,
        forall|s: int| 0 <= s < len ==> clamp_index(s, len) == s,
{
}


/// The first row a list view shows when `visible` rows fit: the cursor's row
/// at the top, except near the end of the list, where the last rows fill the
/// view; 0 when the whole list fits.
pub open spec fn view_offset(selected: int, len: int, visible: int) -> int {
    if len > visible {
        if selected <= len - visible {
            selected
        } else {
            len - visible
        }
    } else {
        0
    }
}

pub fn view_offset_exec(selected: usize, len: usize, visible: usize) -> (r: usize)
    ensures
        r == view_offset(selected as int, len as int, visible as int),
{
    if len > visible {
        if selected <= len - visible {
            selected
        } else {
            len - visible
        }
    } else {
        0
    }
}

/// The row under the cursor is always among the rows shown, and the rows
/// shown never run past the end of the list.
pub proof fn law_cursor_visible(selected: int, len: int, visible: int)
    requires
        0 <= selected < len,
        visible > 0,
    ensures
        view_offset(selected, len, visible) <= selected < view_offset(selected, len, visible)
            + visible,
        len > visible ==> view_offset(selected, len, visible) + visible <= len,
{
}

/// A scroll position kept so that the last of `lines` lines is at most at
/// the bottom of a view of `height` lines.
pub open spec fn clamp_scroll(offset: int, lines: int, height: int) -> int {
    let max = if lines > height {
        lines - height
    } else {
        0
    };
    if offset <= max {
        offset
    } else {
        max
    }
}

pub fn clamp_scroll_exec(offset: usize, lines: usize, height: usize) -> (r: usize)
    ensures
        r == clamp_scroll(offset as int, lines as int, height as int),
{
    let max = lines.saturating_sub(height);
    if offset <= max {
        offset
    } else {
        max
    }
}

} // verus!
