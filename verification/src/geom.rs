//! Geometry primitives: dimensions, pane rectangles, the viewport, and the
//! derivation of integer cell coordinates from percent coordinates.
//!
//! A pane's position and extent on each axis are kept in two forms. The
//! authoritative form is a half-open interval in *percent space*: the viewport
//! axis is the interval `[0, FULL_PERCENT)` measured in hundredths of a
//! percent, and the percent intervals of the panes tile it exactly. The
//! derived form is the realized cell rectangle, recomputed from the percent
//! interval against the current viewport whenever the tab is laid out anew.
//! One cell between two horizontally or vertically adjacent panes is left to
//! the boundary line, so the realized rectangles of adjacent panes are
//! separated by one cell.
use vstd::prelude::*;

verus! {

/// One percent, in the units used for percent coordinates.
pub const ONE_PERCENT: u32 = 100;

/// The whole of an axis in percent units: 100%.
pub const FULL_PERCENT: u32 = 10000;

/// How much a single resize step grows or shrinks a pane: 3.5%.
pub const RESIZE_PERCENT: u32 = 350;

/// No pane may be narrower than this many cells.
pub const MIN_TERMINAL_WIDTH: usize = 5;

/// No pane may be shorter than this many cells.
pub const MIN_TERMINAL_HEIGHT: usize = 5;

/// Cells are roughly four times as tall as they are wide; pane areas are
/// compared with heights scaled by this factor.
pub const CURSOR_HEIGHT_WIDTH_RATIO: usize = 4;

/// Upper bound on the cells of a display axis; keeps all cell arithmetic
/// far away from overflow.
pub const MAX_AXIS_CELLS: usize = 65535;

/// How a dimension responds to layout: a fixed cell count, or a share of the
/// viewport axis in hundredths of a percent.
#[derive(Clone, Copy, PartialEq, Eq, Structural, Debug)]
pub enum Constraint {
    Fixed(usize),
    Percent(u32),
}

/// An extent on one axis: the constraint plus the realized cell count.
#[derive(Clone, Copy, PartialEq, Eq, Structural, Debug)]
pub struct Dimension {
    pub constraint: Constraint,
    pub inner: usize,
}

impl Dimension {
    /// The share of the axis, when the dimension is percent-sized.
    pub open spec fn spec_as_percent(self) -> Option<u32> {
        match self.constraint {
            Constraint::Percent(p) => Some(p),
            Constraint::Fixed(_) => None,
        }
    }

    pub open spec fn is_percent(self) -> bool {
        self.spec_as_percent() is Some
    }

    /// The percent share, defaulting to zero for fixed dimensions.
    pub open spec fn pct(self) -> u32 {
        match self.constraint {
            Constraint::Percent(p) => p,
            Constraint::Fixed(_) => 0,
        }
    }

    pub fn percent(p: u32) -> (r: Dimension)
        ensures
            r == (Dimension { constraint: Constraint::Percent(p), inner: 0 }),
    {
        Dimension { constraint: Constraint::Percent(p), inner: 0 }
    }

    pub fn fixed(n: usize) -> (r: Dimension)
        ensures
            r == (Dimension { constraint: Constraint::Fixed(n), inner: n }),
    {
        Dimension { constraint: Constraint::Fixed(n), inner: n }
    }

    /// The realized cell count.
    pub fn as_usize(&self) -> (r: usize)
        ensures
            r == self.inner,
    {
        self.inner
    }

    pub fn as_percent(&self) -> (r: Option<u32>)
        ensures
            r == self.spec_as_percent(),
    {
        match self.constraint {
            Constraint::Percent(p) => Some(p),
            Constraint::Fixed(_) => None,
        }
    }
}

/// A pane's rectangle: percent origin, constraints, and the realized cells.
///
/// `px` and `py` are the origin of the pane in percent space; they are
/// meaningful only while the matching constraint is percent-sized. `x`, `y`
/// and the two `inner` cell counts are derived from the percent interval by
/// `realize_start` / `realize_len` against the current viewport.
#[derive(Clone, Copy, PartialEq, Eq, Structural, Debug)]
pub struct PaneGeom {
    pub x: usize,
    pub y: usize,
    pub px: u32,
    pub py: u32,
    pub cols: Dimension,
    pub rows: Dimension,
}

impl PaneGeom {
    /// Percent width, zero when the columns are fixed.
    pub open spec fn pw(self) -> u32 {
        self.cols.pct()
    }

    /// Percent height, zero when the rows are fixed.
    pub open spec fn ph(self) -> u32 {
        self.rows.pct()
    }

    /// Both axes are percent-sized.
    pub open spec fn is_percent(self) -> bool {
        self.cols.is_percent() && self.rows.is_percent()
    }

    /// The percent rectangle sits inside percent space and is not empty.
    pub open spec fn pct_wf(self) -> bool {
        &&& self.px + self.pw() <= FULL_PERCENT
        &&& self.py + self.ph() <= FULL_PERCENT
        &&& self.pw() > 0
        &&& self.ph() > 0
    }

    /// The percent rectangle contains the percent-space point `(qx, qy)`.
    pub open spec fn pct_contains(self, qx: int, qy: int) -> bool {
        &&& self.px <= qx < self.px + self.pw()
        &&& self.py <= qy < self.py + self.ph()
    }

    /// The percent rectangles of `self` and `other` share no point.
    pub open spec fn pct_disjoint(self, other: PaneGeom) -> bool {
        ||| self.px + self.pw() <= other.px
        ||| other.px + other.pw() <= self.px
        ||| self.py + self.ph() <= other.py
        ||| other.py + other.ph() <= self.py
    }
}

/// The rectangle of the display that selectable panes share.
#[derive(Clone, Copy, PartialEq, Eq, Structural, Debug)]
pub struct Viewport {
    pub x: usize,
    pub y: usize,
    pub cols: usize,
    pub rows: usize,
}

/// The whole display area, status and tab bars included.
#[derive(Clone, Copy, PartialEq, Eq, Structural, Debug)]
pub struct Size {
    pub cols: usize,
    pub rows: usize,
}

/// Content insets of a pane, in cells from each edge.
#[derive(Clone, Copy, PartialEq, Eq, Structural, Debug, Default)]
pub struct Offset {
    pub top: usize,
    pub bottom: usize,
    pub left: usize,
    pub right: usize,
}

impl Offset {
    /// A uniform inset on all four sides, as a drawn frame needs.
    pub fn frame(n: usize) -> (r: Offset)
        ensures
            r == (Offset { top: n, bottom: n, left: n, right: n }),
    {
        Offset { top: n, bottom: n, left: n, right: n }
    }

    /// An inset only at the bottom and the right, where boundary lines run.
    pub fn shift(bottom: usize, right: usize) -> (r: Offset)
        ensures
            r == (Offset { top: 0, bottom: bottom, left: 0, right: right }),
    {
        Offset { top: 0, bottom: bottom, left: 0, right: right }
    }

    pub fn zero() -> (r: Offset)
        ensures
            r == (Offset { top: 0, bottom: 0, left: 0, right: 0 }),
    {
        Offset { top: 0, bottom: 0, left: 0, right: 0 }
    }
}

/// A point on the screen, in cells: a line and a column.
#[derive(Clone, Copy, PartialEq, Eq, Structural, Debug)]
pub struct Position {
    pub line: usize,
    pub column: usize,
}

impl Position {
    pub fn new(line: usize, column: usize) -> (r: Position)
        ensures
            r == (Position { line: line, column: column }),
    {
        Position { line, column }
    }

    /// This point expressed relative to a content origin, clamped at zero.
    pub fn relative_to(&self, y: usize, x: usize) -> (r: Position)
        ensures
            r.line == if self.line >= y { self.line - y } else { 0 },
            r.column == if self.column >= x { self.column - x } else { 0 },
    {
        Position {
            line: if self.line >= y { self.line - y } else { 0 },
            column: if self.column >= x { self.column - x } else { 0 },
        }
    }
}

/// The cell under the percent coordinate `q` on an axis of `t` cells.
pub open spec fn spec_cell_of(q: u32, t: usize) -> int {
    (q * t) / (FULL_PERCENT as int)
}

/// The first cell of a pane whose percent interval starts at `p0`, on an axis
/// starting at cell `s`; one cell is left for the boundary line when the pane
/// is not flush with the start of the axis.
pub open spec fn spec_realize_start(p0: u32, s: usize, t: usize) -> int {
    s + spec_cell_of(p0, t) + if p0 > 0 { 1int } else { 0int }
}

/// One past the last cell of a pane whose percent interval ends at `p1`.
pub open spec fn spec_realize_end(p1: u32, s: usize, t: usize) -> int {
    if p1 >= FULL_PERCENT {
        s + t
    } else {
        s + spec_cell_of(p1, t)
    }
}

/// The realized cell count of the percent interval `[p0, p0 + w)`.
pub open spec fn spec_realize_len(p0: u32, w: u32, s: usize, t: usize) -> int {
    let start = spec_realize_start(p0, s, t);
    let end = spec_realize_end((p0 + w) as u32, s, t);
    if end >= start {
        end - start
    } else {
        0int
    }
}

pub proof fn lemma_cell_of_bounds(q: u32, t: usize)
    requires
        q <= FULL_PERCENT,
        t <= MAX_AXIS_CELLS,
    ensures
        0 <= spec_cell_of(q, t) <= t,
        q < FULL_PERCENT ==> spec_cell_of(q, t) * FULL_PERCENT <= q * t,
{
    assert(0 <= spec_cell_of(q, t) <= t) by (nonlinear_arith)
        requires
            q <= FULL_PERCENT,
            t <= MAX_AXIS_CELLS,
    ;
    assert(spec_cell_of(q, t) * FULL_PERCENT <= q * t) by (nonlinear_arith)
        requires
            q >= 0,
            t >= 0,
    ;
}

/// The cell under a percent coordinate never decreases as the coordinate
/// grows.
pub proof fn lemma_cell_of_mono(q1: u32, q2: u32, t: usize)
    requires
        q1 <= q2,
    ensures
        spec_cell_of(q1, t) <= spec_cell_of(q2, t),
{
    assert(spec_cell_of(q1, t) <= spec_cell_of(q2, t)) by (nonlinear_arith)
        requires
            q1 <= q2,
            t >= 0,
    ;
}

/// A realized span stays inside its axis: it starts at or after the axis
/// start and ends at or before the axis end (one cell beyond it only for a
/// degenerate, zero-length span at the very end of percent space).
pub proof fn lemma_realize_in_viewport(p0: u32, w: u32, s: usize, t: usize)
    requires
        p0 + w <= FULL_PERCENT,
        s + t <= MAX_AXIS_CELLS,
    ensures
        s <= spec_realize_start(p0, s, t),
        spec_realize_start(p0, s, t) <= s + t + 1,
        0 <= spec_realize_len(p0, w, s, t) <= t,
        spec_realize_len(p0, w, s, t) > 0 ==> spec_realize_start(p0, s, t) + spec_realize_len(
            p0,
            w,
            s,
            t,
        ) <= s + t,
{
    lemma_cell_of_bounds(p0, t);
    lemma_cell_of_bounds((p0 + w) as u32, t);
    lemma_cell_of_mono(p0, (p0 + w) as u32, t);
}

pub fn cell_of(q: u32, t: usize) -> (r: usize)
    requires
        q <= FULL_PERCENT,
        t <= MAX_AXIS_CELLS,
    ensures
        r == spec_cell_of(q, t),
{
    proof {
        assert(q * t <= FULL_PERCENT * MAX_AXIS_CELLS) by (nonlinear_arith)
            requires
                q <= FULL_PERCENT,
                t <= MAX_AXIS_CELLS,
        ;
    }
    ((q as usize) * t) / (FULL_PERCENT as usize)
}

/// Realize one axis of a percent rectangle: the first cell and the cell count.
pub fn realize_span(p0: u32, w: u32, s: usize, t: usize) -> (r: (usize, usize))
    requires
        p0 + w <= FULL_PERCENT,
        s <= MAX_AXIS_CELLS,
        t <= MAX_AXIS_CELLS,
    ensures
        r.0 == spec_realize_start(p0, s, t),
        r.1 == spec_realize_len(p0, w, s, t),
{
    proof {
        assert(spec_cell_of(p0, t) <= t) by (nonlinear_arith)
            requires
                p0 <= FULL_PERCENT,
                t <= MAX_AXIS_CELLS,
        ;
        assert(spec_cell_of((p0 + w) as u32, t) <= t) by (nonlinear_arith)
            requires
                p0 + w <= FULL_PERCENT,
                t <= MAX_AXIS_CELLS,
        ;
    }
    let start: usize = s + cell_of(p0, t) + if p0 > 0 { 1 } else { 0 };
    let end: usize = if p0 + w >= FULL_PERCENT {
        s + t
    } else {
        s + cell_of(p0 + w, t)
    };
    let len: usize = if end >= start {
        end - start
    } else {
        0
    };
    (start, len)
}

/// Split a rectangle into a left and a right half of its percent width; the
/// left half keeps the odd percent unit. Fails on fixed columns.
pub fn split_vertically(rect: &PaneGeom) -> (r: Option<(PaneGeom, PaneGeom)>)
    requires
        rect.x < usize::MAX,
        rect.px + rect.pw() <= FULL_PERCENT,
    ensures
        match rect.cols.constraint {
            Constraint::Fixed(_) => r is None,
            Constraint::Percent(p) => r == Some(
                (
                    PaneGeom { cols: Dimension { constraint: Constraint::Percent((p - p / 2) as u32), ..rect.cols }, ..*rect },
                    PaneGeom {
                        x: (rect.x + 1) as usize,
                        px: (rect.px + (p - p / 2)) as u32,
                        cols: Dimension { constraint: Constraint::Percent(p / 2), ..rect.cols },
                        ..*rect
                    },
                ),
            ),
        },
{
    match rect.cols.constraint {
        Constraint::Fixed(_) => None,
        Constraint::Percent(p) => {
            let first_rect = PaneGeom {
                cols: Dimension { constraint: Constraint::Percent(p - p / 2), inner: rect.cols.inner },
                ..*rect
            };
            let second_rect = PaneGeom {
                x: rect.x + 1,
                px: rect.px + (p - p / 2),
                cols: Dimension { constraint: Constraint::Percent(p / 2), inner: rect.cols.inner },
                ..*rect
            };
            Some((first_rect, second_rect))
        }
    }
}

/// Split a rectangle into a top and a bottom half of its percent height; the
/// top half keeps the odd percent unit. Fails on fixed rows.
pub fn split_horizontally(rect: &PaneGeom) -> (r: Option<(PaneGeom, PaneGeom)>)
    requires
        rect.y < usize::MAX,
        rect.py + rect.ph() <= FULL_PERCENT,
    ensures
        match rect.rows.constraint {
            Constraint::Fixed(_) => r is None,
            Constraint::Percent(p) => r == Some(
                (
                    PaneGeom { rows: Dimension { constraint: Constraint::Percent((p - p / 2) as u32), ..rect.rows }, ..*rect },
                    PaneGeom {
                        y: (rect.y + 1) as usize,
                        py: (rect.py + (p - p / 2)) as u32,
                        rows: Dimension { constraint: Constraint::Percent(p / 2), ..rect.rows },
                        ..*rect
                    },
                ),
            ),
        },
{
    match rect.rows.constraint {
        Constraint::Fixed(_) => None,
        Constraint::Percent(p) => {
            let first_rect = PaneGeom {
                rows: Dimension { constraint: Constraint::Percent(p - p / 2), inner: rect.rows.inner },
                ..*rect
            };
            let second_rect = PaneGeom {
                y: rect.y + 1,
                py: rect.py + (p - p / 2),
                rows: Dimension { constraint: Constraint::Percent(p / 2), inner: rect.rows.inner },
                ..*rect
            };
            Some((first_rect, second_rect))
        }
    }
}

/// How many cells of a pane's content are reserved for the boundary line on
/// its right and bottom: one on each side where the pane is not flush with
/// the viewport edge.
pub fn pane_content_offset(position_and_size: &PaneGeom, viewport: &Viewport) -> (r: (usize, usize))
    requires
        position_and_size.x + position_and_size.cols.inner <= usize::MAX,
        position_and_size.y + position_and_size.rows.inner <= usize::MAX,
    ensures
        r.0 == if position_and_size.x + position_and_size.cols.inner < viewport.cols { 1int } else { 0int },
        r.1 == if position_and_size.y + position_and_size.rows.inner < viewport.rows { 1int } else { 0int },
{
    let columns_offset: usize = if position_and_size.x + position_and_size.cols.inner < viewport.cols {
        1
    } else {
        0
    };
    let rows_offset: usize = if position_and_size.y + position_and_size.rows.inner < viewport.rows {
        1
    } else {
        0
    };
    (columns_offset, rows_offset)
}

} // verus!
