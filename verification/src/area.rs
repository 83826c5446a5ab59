//! Rectangles of the screen, and how one is cut into rows.
use vstd::prelude::*;

verus! {

/// A rectangle of cells.
#[derive(Debug, Clone, Copy, PartialEq, Eq, Structural)]
pub struct Area {
    pub x: u16,
    pub y: u16,
    pub width: u16,
    pub height: u16,
}

/// A cell of the screen.
#[derive(Debug, Clone, Copy, PartialEq, Eq, Structural)]
pub struct Cell {
    pub x: u16,
    pub y: u16,
}

/// The height that a row asks for.
#[derive(Debug, Clone, Copy, PartialEq, Eq, Structural)]
pub enum RowHeight {
    /// So many cells, and what is left over.
    Min(u16),
    /// So many cells.
    Length(u16),
}

/// `a + b`, and no more than a cell number can be.
pub open spec fn saturated(a: u16, b: u16) -> u16 {
    if a + b <= u16::MAX {
        (a + b) as u16
    } else {
        u16::MAX
    }
}

/// What is left of `a` without `b`, if anything.
pub open spec fn reduced(a: u16, b: u16) -> u16 {
    if a >= b {
        (a - b) as u16
    } else {
        0
    }
}

/// The column behind the area.
pub open spec fn right_of(a: Area) -> u16 {
    saturated(a.x, a.width)
}

/// The row below the area.
pub open spec fn below(a: Area) -> u16 {
    saturated(a.y, a.height)
}

/// What a margin of so many cells on each side leaves of an area: nothing, where it does not fit.
pub open spec fn inside(a: Area, margin: u16) -> Area {
    if a.width < 2 * margin || a.height < 2 * margin {
        Area { x: 0, y: 0, width: 0, height: 0 }
    } else {
        Area {
            x: saturated(a.x, margin),
            y: saturated(a.y, margin),
            width: (a.width - 2 * margin) as u16,
            height: (a.height - 2 * margin) as u16,
        }
    }
}

/// The cells that a row asks for at least.
pub open spec fn asked(h: RowHeight) -> int {
    match h {
        RowHeight::Min(n) => n as int,
        RowHeight::Length(n) => n as int,
    }
}

/// The cells that all rows together ask for at least.
pub open spec fn asked_in_all(hs: Seq<RowHeight>) -> int
    decreases hs.len(),
{
    if hs.len() == 0 {
        0
    } else {
        asked_in_all(hs.drop_last()) + asked(hs.last())
    }
}

/// One of the rows takes what is left over.
pub open spec fn stretches(hs: Seq<RowHeight>) -> bool {
    exists|i: int| 0 <= i < hs.len() && #[trigger] hs[i] is Min
}

/// The rows of an area: they lie one below the other, each as wide as the area, and fill it from
/// top to bottom, with the heights that were asked for.
pub open spec fn rows_fill(whole: Area, hs: Seq<RowHeight>, rows: Seq<Area>) -> bool {
    &&& forall|i: int|
        0 <= i < hs.len() ==> match #[trigger] hs[i] {
            RowHeight::Min(n) => rows[i].height >= n,
            RowHeight::Length(n) => rows[i].height == n,
        }
    &&& hs.len() > 0 ==> rows[0].y == whole.y
    &&& hs.len() > 0 ==> rows.last().y + rows.last().height == whole.y + whole.height
    &&& forall|i: int, j: int|
        0 <= i && j == i + 1 && j < rows.len() ==> (#[trigger] rows[j]).y == (
        #[trigger] rows[i]).y + rows[i].height
}

/// The rows that are asked for have room in an area that has its place on the screen.
pub open spec fn rows_fit(whole: Area, hs: Seq<RowHeight>) -> bool {
    &&& asked_in_all(hs) <= whole.height
    &&& whole.height <= i16::MAX
    &&& whole.y + whole.height <= u16::MAX
}

/// A row lies between the top and the bottom of an area, from its left to its right.
pub open spec fn lies_in(row: Area, whole: Area) -> bool {
    &&& row.x == whole.x
    &&& row.width == whole.width
    &&& whole.y <= row.y
    &&& row.y + row.height <= below(whole)
}

/// `Layout::split` of a vertical layout cuts an area, less a margin, into rows. Each row lies
/// within the area inside the margin, from its left to its right: the solver has to keep to that.
/// Where the heights that are asked for have room and one row stretches, the rows have these
/// heights, lie one below the other without gaps, and fill the area within the margin. Where they
/// have no room, a solver of linear constraints decides which of them come short; nothing is said
/// here of the heights then.
#[verifier::external_body]
fn split_vertical(area: Area, margin: u16, heights: &Vec<RowHeight>) -> (rows: Vec<Area>)
    requires
        margin <= 1,
        heights@.len() <= 3,
    ensures
        rows@.len() == heights@.len(),
        forall|i: int| 0 <= i < rows@.len() ==> lies_in(#[trigger] rows@[i], inside(area, margin)),
        rows_fit(inside(area, margin), heights@) && stretches(heights@) ==> rows_fill(
            inside(area, margin),
            heights@,
            rows@,
        ),
{
    let constraints = heights.iter().map(
        |h| match h {
            RowHeight::Min(n) => ratatui::layout::Constraint::Min(*n),
            RowHeight::Length(n) => ratatui::layout::Constraint::Length(*n),
        },
    );
    let whole = ratatui::layout::Rect {
        x: area.x,
        y: area.y,
        width: area.width,
        height: area.height,
    };
    let rows = ratatui::layout::Layout::vertical(constraints).margin(margin).split(whole);
    rows.iter().map(|r| Area { x: r.x, y: r.y, width: r.width, height: r.height }).collect()
}

/// The area within a margin of one cell, or the whole area.
pub open spec fn framed(area: Area, margin: bool) -> Area {
    inside(
        area,
        if margin {
            1
        } else {
            0
        },
    )
}

/// What is known of the rows that an area is cut into.
pub open spec fn rows_of(
    area: Area,
    margin: bool,
    heights: Seq<RowHeight>,
    rows: Seq<Area>,
) -> bool {
    let whole = framed(area, margin);
    &&& rows.len() == heights.len()
    &&& forall|i: int| 0 <= i < rows.len() ==> lies_in(#[trigger] rows[i], whole)
    &&& rows_fit(whole, heights) && stretches(heights) ==> rows_fill(whole, heights, rows)
}

/// Cuts an area, less a margin of one cell where there is one, into up to three rows of the given
/// heights.
pub fn cut_into_rows(area: Area, margin: bool, heights: &Vec<RowHeight>) -> (rows: Vec<Area>)
    requires
        heights@.len() <= 3,
    ensures
        rows_of(area, margin, heights@, rows@),
{
    let cells: u16 = if margin {
        1
    } else {
        0
    };
    split_vertical(area, cells, heights)
}

impl Area {
    /// The column behind the area.
    pub fn right(&self) -> (r: u16)
        ensures
            r == right_of(*self),
    {
        self.x.saturating_add(self.width)
    }

    /// The row below the area.
    pub fn bottom(&self) -> (r: u16)
        ensures
            r == below(*self),
    {
        self.y.saturating_add(self.height)
    }
}

/// An area ends behind its last column and below its last row, as far as cells can be counted.
pub proof fn areas_end_behind_their_cells(a: Area)
    ensures
        a.x + a.width <= u16::MAX ==> right_of(a) == a.x + a.width,
        a.x + a.width > u16::MAX ==> right_of(a) == u16::MAX,
        a.y + a.height <= u16::MAX ==> below(a) == a.y + a.height,
        a.y + a.height > u16::MAX ==> below(a) == u16::MAX,
{
}

} // verus!
