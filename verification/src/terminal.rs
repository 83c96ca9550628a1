//! What a terminal pane decides about its grid: positions, sizes and scrolling.
use vstd::prelude::*;

use crate::keyboard::TermMode;
use crate::pty_io::WindowSize;
use crate::session::ScrollTo;

verus! {

/// A position in the grid. Lines of the history have negative numbers.
#[derive(Clone, Copy, PartialEq, Eq, Debug, Structural)]
pub struct GridPoint {
    pub line: i32,
    pub column: usize,
}

/// The last index of a row or column of cells, or the first where there is none.
pub open spec fn last_index(count: usize) -> usize {
    if count == 0 {
        0
    } else {
        (count - 1) as usize
    }
}

/// The smaller of two numbers.
pub open spec fn at_most(n: usize, limit: usize) -> usize {
    if n <= limit {
        n
    } else {
        limit
    }
}

/// The last index of a row or column of cells.
fn last_of(count: usize) -> (r: usize)
    ensures
        r == last_index(count),
{
    if count == 0 {
        0
    } else {
        count - 1
    }
}

/// The smaller of two numbers.
fn capped(n: usize, limit: usize) -> (r: usize)
    ensures
        r == at_most(n, limit),
{
    if n <= limit {
        n
    } else {
        limit
    }
}

/// The grid position of a cell on screen, given by its column and row, while the
/// view is scrolled up by `display_offset` lines. A column past the end counts
/// as the last.
pub fn point_at(col: usize, row: u32, display_offset: u32, cols: usize) -> (r: GridPoint)
    requires
        row <= i32::MAX,
        display_offset <= i32::MAX,
    ensures
        r.line == row - display_offset,
        r.column == at_most(col, last_index(cols)),
        col < cols ==> r.column == col,
        0 < cols <= col ==> r.column == cols - 1,
        cols == 0 ==> r.column == 0,
{
    GridPoint {
        line: row as i32 - display_offset as i32,
        column: capped(col, last_of(cols)),
    }
}

/// The column and row of a cell on screen. What lies past the last column or row
/// counts as that.
pub fn cell_at(col: usize, row: usize, cols: usize, lines: usize) -> (r: (usize, usize))
    ensures
        r.0 == at_most(col, last_index(cols)),
        r.1 == at_most(row, last_index(lines)),
        col < cols ==> r.0 == col,
        0 < cols <= col ==> r.0 == cols - 1,
        cols == 0 ==> r.0 == 0,
        row < lines ==> r.1 == row,
        0 < lines <= row ==> r.1 == lines - 1,
        lines == 0 ==> r.1 == 0,
{
    (capped(col, last_of(cols)), capped(row, last_of(lines)))
}

/// The first and last position of the lines on screen, which are searched for
/// matches.
pub fn search_window(display_offset: u32, lines: u32, last_column: usize) -> (r: (
    GridPoint,
    GridPoint,
))
    requires
        display_offset <= i32::MAX,
        lines <= i32::MAX,
    ensures
        r.0 == (GridPoint { line: (-display_offset) as i32, column: 0 }),
        r.1 == (GridPoint {
            line: (lines - 1 - display_offset) as i32,
            column: last_column,
        }),
{
    let top: i32 = 0 - display_offset as i32;
    let bottom: i32 = (lines as i64 - 1 - display_offset as i64) as i32;
    (GridPoint { line: top, column: 0 }, GridPoint { line: bottom, column: last_column })
}

/// How the view is to be scrolled.
#[derive(Clone, Copy, PartialEq, Eq, Debug, Structural)]
pub enum ScrollRequest {
    /// Not at all.
    Ignore,
    /// Up by some lines; a negative number goes down.
    By(i64),
    /// To a number of lines above the prompt.
    To(u32),
}

/// How the view is to be scrolled.
pub open spec fn requested(to: ScrollTo, alt_screen: bool, lines: u32, history: u32) -> ScrollRequest {
    if alt_screen {
        ScrollRequest::Ignore
    } else {
        match to {
            ScrollTo::Lines(n) => ScrollRequest::By(n as i64),
            ScrollTo::PageUp => ScrollRequest::By(lines as i64),
            ScrollTo::PageDown => ScrollRequest::By((-lines) as i64),
            ScrollTo::Top => ScrollRequest::To(history),
            ScrollTo::Bottom => ScrollRequest::To(0),
        }
    }
}

/// Decide how to scroll the view. Programs on the alternate screen scroll
/// themselves.
pub fn scroll_request(to: ScrollTo, alt_screen: bool, lines: u32, history: u32) -> (r:
    ScrollRequest)
    ensures
        r == requested(to, alt_screen, lines, history),
        r is Ignore <==> alt_screen,
        !alt_screen ==> match to {
            ScrollTo::Lines(n) => r matches ScrollRequest::By(by) && by == n,
            ScrollTo::PageUp => r matches ScrollRequest::By(by) && by == lines,
            ScrollTo::PageDown => r matches ScrollRequest::By(by) && by == -lines,
            ScrollTo::Top => r == ScrollRequest::To(history),
            ScrollTo::Bottom => r == ScrollRequest::To(0),
        },
{
    if alt_screen {
        return ScrollRequest::Ignore;
    }
    match to {
        ScrollTo::Lines(n) => ScrollRequest::By(n as i64),
        ScrollTo::PageUp => ScrollRequest::By(lines as i64),
        ScrollTo::PageDown => ScrollRequest::By(0 - lines as i64),
        ScrollTo::Top => ScrollRequest::To(history),
        ScrollTo::Bottom => ScrollRequest::To(0),
    }
}

/// A program on the alternate screen is never scrolled.
pub proof fn law_alt_screen_is_not_scrolled(to: ScrollTo, lines: u32, history: u32)
    ensures
        requested(to, true, lines, history) == ScrollRequest::Ignore,
{
}

/// How many lines of history can be scrolled to: none on the alternate screen.
pub fn history_lines(mode: TermMode, history: usize) -> (r: usize)
    ensures
        r == (if mode.alt_screen {
            0
        } else {
            history
        }),
{
    if mode.alt_screen {
        0
    } else {
        history
    }
}

/// Whether a program wants to be told of mouse motion, not just of clicks.
pub fn mouse_motion_reports(mode: TermMode) -> (r: bool)
    ensures
        r == (mode.mouse_drag || mode.mouse_motion),
{
    mode.mouse_drag || mode.mouse_motion
}

/// The low 16 bits of a count.
fn low_half(n: usize) -> (r: u16)
    ensures
        r == n % 65536,
{
    (n % 65536) as u16
}

/// The size that a program is told, if it has changed. Counts that do not fit
/// are cut to sixteen bits.
pub fn resized(
    old_cols: usize,
    old_lines: usize,
    cols: usize,
    lines: usize,
    cell_w: u16,
    cell_h: u16,
) -> (r: Option<WindowSize>)
    ensures
        cols == old_cols && lines == old_lines ==> r is None,
        cols != old_cols || lines != old_lines ==> r == Some(
            WindowSize {
                num_lines: (lines % 65536) as u16,
                num_cols: (cols % 65536) as u16,
                cell_width: cell_w,
                cell_height: cell_h,
            },
        ),
{
    if cols == old_cols && lines == old_lines {
        return None;
    }
    Some(
        WindowSize {
            num_lines: low_half(lines),
            num_cols: low_half(cols),
            cell_width: cell_w,
            cell_height: cell_h,
        },
    )
}

/// A page up and a page down undo each other, and so do as many lines up and
/// down; the bottom is the prompt and the top the whole history above it.
pub proof fn law_scrolling_is_symmetric(n: i32, lines: u32, history: u32)
    requires
        n > i32::MIN,
    ensures
        ({
            let up = requested(ScrollTo::PageUp, false, lines, history);
            let down = requested(ScrollTo::PageDown, false, lines, history);
            up is By && down is By && up->By_0 == lines && up->By_0 + down->By_0 == 0
        }),
        ({
            let there = requested(ScrollTo::Lines(n), false, lines, history);
            let back = requested(ScrollTo::Lines((-n) as i32), false, lines, history);
            there is By && back is By && there->By_0 == n && there->By_0 + back->By_0 == 0
        }),
        requested(ScrollTo::Top, false, lines, history) == ScrollRequest::To(history),
        requested(ScrollTo::Bottom, false, lines, history) == ScrollRequest::To(0),
{
}

} // verus!
