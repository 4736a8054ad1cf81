//! Rectangles of the terminal.

use ratatui::layout::{Constraint, Direction, Layout};
use vstd::prelude::*;

verus! {

/// A rectangle of terminal cells.
#[derive(Clone, Copy, Debug, PartialEq, Eq, Structural)]
pub struct Rect {
    pub x: u16,
    pub y: u16,
    pub width: u16,
    pub height: u16,
}

/// The empty rectangle.
pub open spec fn no_rect() -> Rect {
    Rect { x: 0, y: 0, width: 0, height: 0 }
}

impl Rect {
    /// The empty rectangle.
    pub fn empty() -> (r: Rect)
        ensures
            r == no_rect(),
    {
        Rect { x: 0, y: 0, width: 0, height: 0 }
    }

    /// Whether a cell lies in the rectangle.
    pub open spec fn has(self, x: u16, y: u16) -> bool {
        self.x <= x < self.x + self.width && self.y <= y < self.y + self.height
    }

    /// Whether every cell of another rectangle lies in this one.
    pub open spec fn covers(self, other: Rect) -> bool {
        &&& self.x <= other.x
        &&& self.y <= other.y
        &&& other.x + other.width <= self.x + self.width
        &&& other.y + other.height <= self.y + self.height
    }
}

/// Whether a cell lies in a rectangle.
pub fn point_in_rect(x: u16, y: u16, rect: Rect) -> (r: bool)
    ensures
        r == rect.has(x, y),
{
    rect.x <= x && (x as u32) < rect.x as u32 + rect.width as u32 && rect.y <= y && (y as u32)
        < rect.y as u32 + rect.height as u32
}

/// Whether the pointer, where there is one, is in a rectangle.
pub open spec fn pointed(hover: Option<(u16, u16)>, rect: Rect) -> bool {
    match hover {
        Some((x, y)) => rect.has(x, y),
        None => false,
    }
}

/// Whether the pointer, where there is one, is in a rectangle.
pub fn is_pointed(hover: Option<(u16, u16)>, rect: Rect) -> (r: bool)
    ensures
        r == pointed(hover, rect),
{
    match hover {
        Some((x, y)) => point_in_rect(x, y, rect),
        None => false,
    }
}

/// The rectangle within a border; the empty one where the border leaves nothing.
pub open spec fn inner(area: Rect) -> Rect {
    if area.width <= 2 || area.height <= 2 || area.x == u16::MAX || area.y == u16::MAX {
        no_rect()
    } else {
        Rect {
            x: (area.x + 1) as u16,
            y: (area.y + 1) as u16,
            width: (area.width - 2) as u16,
            height: (area.height - 2) as u16,
        }
    }
}

/// The rectangle within a border.
pub fn inner_block_area(area: Rect) -> (r: Rect)
    ensures
        r == inner(area),
{
    if area.width <= 2 || area.height <= 2 || area.x == u16::MAX || area.y == u16::MAX {
        return Rect::empty();
    }
    Rect { x: area.x + 1, y: area.y + 1, width: area.width - 2, height: area.height - 2 }
}

// ---------------------------------------------------------------- buttons of received files

/// The width of " Abrir ".
pub const OPEN_WIDTH: u16 = 7;

/// The width of " Pasta ".
pub const FOLDER_WIDTH: u16 = 7;

/// Whether the buttons of a received file fit in row `row` of a list, and on the terminal.
pub open spec fn buttons_fit(list_area: Rect, row: int) -> bool {
    let area = inner(list_area);
    &&& area.width > OPEN_WIDTH + 1 + FOLDER_WIDTH
    &&& 0 <= row < area.height
    &&& area.x + area.width <= u16::MAX
    &&& area.y + row <= u16::MAX
}

/// The button that opens a received file, at the right end of its row.
pub open spec fn open_button(list_area: Rect, row: int) -> Rect {
    let area = inner(list_area);
    if buttons_fit(list_area, row) {
        Rect {
            x: (area.x + area.width - FOLDER_WIDTH - 1 - OPEN_WIDTH) as u16,
            y: (area.y + row) as u16,
            width: OPEN_WIDTH,
            height: 1,
        }
    } else {
        no_rect()
    }
}

/// The button that shows a received file in its folder, at the right end of its row.
pub open spec fn folder_button(list_area: Rect, row: int) -> Rect {
    let area = inner(list_area);
    if buttons_fit(list_area, row) {
        Rect {
            x: (area.x + area.width - FOLDER_WIDTH) as u16,
            y: (area.y + row) as u16,
            width: FOLDER_WIDTH,
            height: 1,
        }
    } else {
        no_rect()
    }
}

fn fits(area: Rect, row: usize) -> (r: bool)
    ensures
        r == ({
            &&& area.width > OPEN_WIDTH + 1 + FOLDER_WIDTH
            &&& row < area.height
            &&& area.x + area.width <= u16::MAX
            &&& area.y + row <= u16::MAX
        }),
{
    area.width > OPEN_WIDTH + 1 + FOLDER_WIDTH && row < area.height as usize && area.x <= u16::MAX
        - area.width && row as u16 <= u16::MAX - area.y
}

/// The button that opens a received file.
pub fn received_open_button_rect(list_area: Rect, row: usize) -> (r: Rect)
    ensures
        r == open_button(list_area, row as int),
{
    let area = inner_block_area(list_area);
    if !fits(area, row) {
        return Rect::empty();
    }
    Rect {
        x: area.x + (area.width - (OPEN_WIDTH + 1 + FOLDER_WIDTH)),
        y: area.y + row as u16,
        width: OPEN_WIDTH,
        height: 1,
    }
}

/// The button that shows a received file in its folder.
pub fn received_folder_button_rect(list_area: Rect, row: usize) -> (r: Rect)
    ensures
        r == folder_button(list_area, row as int),
{
    let area = inner_block_area(list_area);
    if !fits(area, row) {
        return Rect::empty();
    }
    Rect {
        x: area.x + (area.width - (OPEN_WIDTH + 1 + FOLDER_WIDTH)) + OPEN_WIDTH + 1,
        y: area.y + row as u16,
        width: FOLDER_WIDTH,
        height: 1,
    }
}

/// The two buttons of a received file lie within the list's border, and no cell is in both.
pub proof fn law_buttons_apart(list_area: Rect, row: int, x: u16, y: u16)
    requires
        buttons_fit(list_area, row),
    ensures
        inner(list_area).covers(open_button(list_area, row)),
        inner(list_area).covers(folder_button(list_area, row)),
        !(open_button(list_area, row).has(x, y) && folder_button(list_area, row).has(x, y)),
{
}

/// Buttons of different rows share no cell.
pub proof fn law_rows_apart(list_area: Rect, row: int, other: int, x: u16, y: u16)
    requires
        row != other,
    ensures
        !(open_button(list_area, row).has(x, y) && open_button(list_area, other).has(x, y)),
        !(open_button(list_area, row).has(x, y) && folder_button(list_area, other).has(x, y)),
        !(folder_button(list_area, row).has(x, y) && folder_button(list_area, other).has(x, y)),
{
}

// ---------------------------------------------------------------- splitting

/// How much of a row or column a part of it takes.
#[derive(Clone, Copy, Debug, PartialEq, Eq, Structural)]
pub enum Share {
    /// This many cells.
    Length(u16),
    /// At least this many cells.
    Min(u16),
    /// This part of a hundred.
    Percentage(u16),
}

/// How a rectangle is divided.
#[derive(Clone, Copy, Debug, PartialEq, Eq, Structural)]
pub enum Axis {
    /// One part below the other.
    Vertical,
    /// One part beside the other.
    Horizontal,
}

/// Whether `Layout::split` of `ratatui` may divide a rectangle like this. Its constraint solver
/// may have a choice, so one division need not be the only one.
pub uninterp spec fn may_split(area: Rect, axis: Axis, shares: Seq<Share>, parts: Seq<Rect>) -> bool;

/// Whether a rectangle may be divided like this, one part within it for each share.
pub open spec fn divides(area: Rect, axis: Axis, shares: Seq<Share>, parts: Seq<Rect>) -> bool {
    &&& parts.len() == shares.len()
    &&& may_split(area, axis, shares, parts)
    &&& forall|i: int| 0 <= i < parts.len() ==> area.covers(#[trigger] parts[i])
}

/// Whether the parts of a rectangle come one behind the other.
pub open spec fn in_turn(axis: Axis, parts: Seq<Rect>) -> bool {
    forall|i: int, j: int|
        0 <= i < j < parts.len() ==> match axis {
            Axis::Vertical => (#[trigger] parts[i]).y + parts[i].height <= (#[trigger] parts[j]).y,
            Axis::Horizontal => parts[i].x + parts[i].width <= parts[j].x,
        }
}

/// `Layout::split` of `ratatui`: one part for each share. The parts are a division that it may
/// choose; each lies within the rectangle and takes all of it across the axis. How large the
/// parts are along the axis is left to its constraint solver and is not stated. The solver is
/// asked to keep the ends of the parts in order, but it computes them in floating point and each
/// end is rounded by itself: that no part reaches into the next is not stated either.
#[verifier::external_body]
pub(crate) fn split_area(area: Rect, axis: Axis, shares: &Vec<Share>) -> (r: Vec<Rect>)
    ensures
        r@.len() == shares@.len(),
        may_split(area, axis, shares@, r@),
        forall|i: int| 0 <= i < r@.len() ==> area.covers(#[trigger] r@[i]),
        axis is Vertical ==> forall|i: int|
            0 <= i < r@.len() ==> (#[trigger] r@[i]).x == area.x && r@[i].width == area.width,
        axis is Horizontal ==> forall|i: int|
            0 <= i < r@.len() ==> (#[trigger] r@[i]).y == area.y && r@[i].height == area.height,
{
    let direction = match axis {
        Axis::Vertical => Direction::Vertical,
        Axis::Horizontal => Direction::Horizontal,
    };
    let constraints: Vec<Constraint> = shares.iter().map(|share| match share {
        Share::Length(n) => Constraint::Length(*n),
        Share::Min(n) => Constraint::Min(*n),
        Share::Percentage(n) => Constraint::Percentage(*n),
    }).collect();
    let whole = ratatui::layout::Rect { x: area.x, y: area.y, width: area.width, height: area.height };
    let parts = Layout::default().direction(direction).constraints(constraints).split(whole);
    parts.iter().map(|p| Rect { x: p.x, y: p.y, width: p.width, height: p.height }).collect()
}

// ---------------------------------------------------------------- laws

/// A cell lies within a place from its first column and row up to, and without, its end.
pub proof fn law_cells_lie_within(r: Rect, x: u16, y: u16)
    ensures
        r.has(x, y) <==> r.x <= x && x - r.x < r.width && r.y <= y && y - r.y < r.height,
        r.width == 0 || r.height == 0 ==> !r.has(x, y),
        pointed(Some((x, y)), r) <==> r.x <= x && x < r.x + r.width && r.y <= y && y < r.y
            + r.height,
        !pointed(None, r),
        no_rect() == (Rect { x: 0, y: 0, width: 0, height: 0 }),
{
}

/// A place covers another where every cell of the other lies within it.
pub proof fn law_covered_cells_lie_within(r: Rect, other: Rect, x: u16, y: u16)
    ensures
        r.covers(other) && other.has(x, y) ==> r.has(x, y),
        r.covers(other) <==> r.x <= other.x && r.y <= other.y && other.x + other.width <= r.x
            + r.width && other.y + other.height <= r.y + r.height,
{
}

/// Within its frame a place is a cell less on each side; one with nothing within its frame has none.
pub proof fn law_frame_takes_a_cell(area: Rect)
    ensures
        area.width > 2 && area.height > 2 && area.x < 65535 && area.y < 65535 ==> inner(area).x
            == area.x + 1 && inner(area).y == area.y + 1 && inner(area).width == area.width - 2
            && inner(area).height == area.height - 2,
        area.width <= 2 || area.height <= 2 || area.x == 65535 || area.y == 65535 ==> inner(area)
            == (Rect { x: 0, y: 0, width: 0, height: 0 }),
{
}

/// The buttons of a file stand at the right end of its row, seven cells each with one between them,
/// the one that opens it first; where they do not fit there are none.
pub proof fn law_buttons_stand_at_the_right(list_area: Rect, row: int)
    ensures
        ({
            let (l, o, f) = (
                inner(list_area),
                open_button(list_area, row),
                folder_button(list_area, row),
            );
            let fit = l.width > 15 && 0 <= row < l.height && l.x + l.width <= 65535 && l.y + row
                <= 65535;
            &&& fit ==> f.x + f.width == l.x + l.width && o.x + o.width + 1 == f.x
            &&& fit ==> o.y == l.y + row && f.y == l.y + row
            &&& fit ==> o.width == 7 && f.width == 7 && o.height == 1 && f.height == 1
            &&& !fit ==> o == no_rect() && f == no_rect()
        }),
{
}

/// Parts follow one another where each ends before the next begins.
pub proof fn law_parts_follow_one_another(axis: Axis, parts: Seq<Rect>, i: int, j: int)
    requires
        in_turn(axis, parts),
        0 <= i < j < parts.len(),
    ensures
        axis is Vertical ==> parts[i].y + parts[i].height <= parts[j].y,
        axis is Horizontal ==> parts[i].x + parts[i].width <= parts[j].x,
{
}

/// An area is divided into as many parts as there are shares, each within it.
pub proof fn law_parts_lie_within(
    area: Rect,
    axis: Axis,
    shares: Seq<Share>,
    parts: Seq<Rect>,
    i: int,
    x: u16,
    y: u16,
)
    requires
        divides(area, axis, shares, parts),
        0 <= i < parts.len(),
    ensures
        parts.len() == shares.len(),
        may_split(area, axis, shares, parts),
        parts[i].has(x, y) ==> area.has(x, y),
{
    assert(area.covers(parts[i]));
}

} // verus!
