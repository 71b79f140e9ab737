//! The pane: the entity a tab manages. A pane is a terminal or a plugin
//! surface; the engine sees only its identity, its geometry, and its flags.
//! The byte streams, scrollback and rendering of the surface itself belong to
//! the terminal emulator and the plugin host, which are outside collaborators.
use vstd::prelude::*;

use crate::geom::{Constraint, Dimension, Offset, PaneGeom, Position, Viewport, FULL_PERCENT};
use crate::geom::{MIN_TERMINAL_HEIGHT, MIN_TERMINAL_WIDTH};

verus! {

/// The identity of a pane: the file descriptor of a terminal's PTY, or the
/// id of a plugin instance. Terminal panes order before plugin panes.
#[derive(Clone, Copy, PartialEq, Eq, Structural, Debug, Hash)]
pub enum PaneId {
    Terminal(i32),
    Plugin(u32),
}

impl PaneId {
    /// A total order on pane ids: all terminals first, by descriptor, then
    /// all plugins, by plugin id.
    pub open spec fn spec_lt(self, other: PaneId) -> bool {
        match (self, other) {
            (PaneId::Terminal(a), PaneId::Terminal(b)) => a < b,
            (PaneId::Terminal(_), PaneId::Plugin(_)) => true,
            (PaneId::Plugin(_), PaneId::Terminal(_)) => false,
            (PaneId::Plugin(a), PaneId::Plugin(b)) => a < b,
        }
    }

    pub fn lt(self, other: PaneId) -> (r: bool)
        ensures
            r == self.spec_lt(other),
    {
        match (self, other) {
            (PaneId::Terminal(a), PaneId::Terminal(b)) => a < b,
            (PaneId::Terminal(_), PaneId::Plugin(_)) => true,
            (PaneId::Plugin(_), PaneId::Terminal(_)) => false,
            (PaneId::Plugin(a), PaneId::Plugin(b)) => a < b,
        }
    }

    pub fn eq_id(self, other: PaneId) -> (r: bool)
        ensures
            r == (self == other),
    {
        match (self, other) {
            (PaneId::Terminal(a), PaneId::Terminal(b)) => a == b,
            (PaneId::Plugin(a), PaneId::Plugin(b)) => a == b,
            _ => false,
        }
    }
}

/// The pane-id order is total: two ids are equal or one is less.
pub proof fn lemma_pane_id_order(a: PaneId, b: PaneId)
    ensures
        a == b || a.spec_lt(b) || b.spec_lt(a),
        !(a.spec_lt(b) && b.spec_lt(a)),
        !a.spec_lt(a),
{
}

/// The pane-id order is transitive.
pub proof fn lemma_pane_id_trans(a: PaneId, b: PaneId, c: PaneId)
    requires
        a.spec_lt(b),
        b.spec_lt(c),
    ensures
        a.spec_lt(c),
{
}

/// A colour of the palette, as the boundary renderer understands it.
#[derive(Clone, Copy, PartialEq, Eq, Structural, Debug)]
pub enum PaletteColor {
    Rgb(u8, u8, u8),
    EightBit(u8),
}

/// The palette colours the tab needs: the frame colours of the active pane.
#[derive(Clone, Copy, PartialEq, Eq, Structural, Debug)]
pub struct Palette {
    pub green: PaletteColor,
    pub orange: PaletteColor,
}

/// The input mode the user is in; it selects the active frame colour.
#[derive(Clone, Copy, PartialEq, Eq, Structural, Debug)]
pub enum InputMode {
    Normal,
    Locked,
    Resize,
    Pane,
    Tab,
    Scroll,
    RenameTab,
    Session,
}

/// What the user interface needs to know of the current mode.
#[derive(Clone, Copy, PartialEq, Eq, Structural, Debug)]
pub struct ModeInfo {
    pub mode: InputMode,
}

/// A pane of the tab: its identity, its rectangle, the temporary fullscreen
/// override of that rectangle, and its flags. `active_at` is a logical
/// timestamp, advanced by the tab on every render of the active pane.
#[derive(Clone, Copy, PartialEq, Eq, Structural, Debug)]
pub struct Pane {
    pub pid: PaneId,
    pub geom: PaneGeom,
    pub geom_override: Option<PaneGeom>,
    pub selectable: bool,
    pub invisible_borders: bool,
    pub frame: bool,
    pub content_offset: Offset,
    pub active_at: u64,
    pub boundary_color: Option<PaletteColor>,
    pub should_render: bool,
    pub pane_position: usize,
}

impl Pane {
    /// The rectangle the pane currently occupies: the override while one is
    /// installed, the saved base geometry otherwise.
    pub open spec fn current_geom(self) -> PaneGeom {
        match self.geom_override {
            Some(g) => g,
            None => self.geom,
        }
    }

    pub open spec fn spec_x(self) -> usize {
        self.current_geom().x
    }

    pub open spec fn spec_y(self) -> usize {
        self.current_geom().y
    }

    pub open spec fn spec_cols(self) -> usize {
        self.current_geom().cols.inner
    }

    pub open spec fn spec_rows(self) -> usize {
        self.current_geom().rows.inner
    }

    /// A fresh pane with the given rectangle; everything else is quiet.
    pub fn new(pid: PaneId, geom: PaneGeom, pane_position: usize) -> (r: Pane)
        ensures
            r == (Pane {
                pid,
                geom,
                geom_override: None,
                selectable: true,
                invisible_borders: false,
                frame: false,
                content_offset: (Offset { top: 0, bottom: 0, left: 0, right: 0 }),
                active_at: 0,
                boundary_color: None,
                should_render: true,
                pane_position,
            }),
    {
        Pane {
            pid,
            geom,
            geom_override: None,
            selectable: true,
            invisible_borders: false,
            frame: false,
            content_offset: Offset::zero(),
            active_at: 0,
            boundary_color: None,
            should_render: true,
            pane_position,
        }
    }

    pub fn x(&self) -> (r: usize)
        ensures
            r == self.spec_x(),
    {
        match self.geom_override {
            Some(g) => g.x,
            None => self.geom.x,
        }
    }

    pub fn y(&self) -> (r: usize)
        ensures
            r == self.spec_y(),
    {
        match self.geom_override {
            Some(g) => g.y,
            None => self.geom.y,
        }
    }

    pub fn cols(&self) -> (r: usize)
        ensures
            r == self.spec_cols(),
    {
        match self.geom_override {
            Some(g) => g.cols.inner,
            None => self.geom.cols.inner,
        }
    }

    pub fn rows(&self) -> (r: usize)
        ensures
            r == self.spec_rows(),
    {
        match self.geom_override {
            Some(g) => g.rows.inner,
            None => self.geom.rows.inner,
        }
    }

    /// Where the pane's content starts and how far it runs, after the frame
    /// or boundary insets.
    pub open spec fn spec_content_x(self) -> int {
        self.spec_x() + self.content_offset.left
    }

    pub open spec fn spec_content_y(self) -> int {
        self.spec_y() + self.content_offset.top
    }

    pub open spec fn spec_content_columns(self) -> int {
        self.spec_cols() - self.content_offset.left - self.content_offset.right
    }

    pub open spec fn spec_content_rows(self) -> int {
        self.spec_rows() - self.content_offset.top - self.content_offset.bottom
    }

    pub fn get_content_x(&self) -> (r: usize)
        requires
            self.spec_x() + self.content_offset.left <= usize::MAX,
        ensures
            r == self.spec_content_x(),
    {
        self.x() + self.content_offset.left
    }

    pub fn get_content_y(&self) -> (r: usize)
        requires
            self.spec_y() + self.content_offset.top <= usize::MAX,
        ensures
            r == self.spec_content_y(),
    {
        self.y() + self.content_offset.top
    }

    pub fn get_content_columns(&self) -> (r: usize)
        ensures
            r == if self.spec_content_columns() >= 0 { self.spec_content_columns() } else { 0int },
    {
        let c = self.cols();
        let inset = self.content_offset.left;
        if c >= inset {
            let c2 = c - inset;
            if c2 >= self.content_offset.right {
                c2 - self.content_offset.right
            } else {
                0
            }
        } else {
            0
        }
    }

    pub fn get_content_rows(&self) -> (r: usize)
        ensures
            r == if self.spec_content_rows() >= 0 { self.spec_content_rows() } else { 0int },
    {
        let c = self.rows();
        let inset = self.content_offset.top;
        if c >= inset {
            let c2 = c - inset;
            if c2 >= self.content_offset.bottom {
                c2 - self.content_offset.bottom
            } else {
                0
            }
        } else {
            0
        }
    }

    pub fn position_and_size(&self) -> (r: PaneGeom)
        ensures
            r == self.geom,
    {
        self.geom
    }

    pub fn position_and_size_override(&self) -> (r: Option<PaneGeom>)
        ensures
            r == self.geom_override,
    {
        self.geom_override
    }

    pub fn change_pos_and_size(&mut self, position_and_size: &PaneGeom)
        ensures
            *final(self) == (Pane { geom: *position_and_size, should_render: true, ..*old(self) }),
    {
        self.geom = *position_and_size;
        self.should_render = true;
    }

    pub fn override_size_and_position(&mut self, pane_geom: PaneGeom)
        ensures
            *final(self) == (Pane { geom_override: Some(pane_geom), should_render: true, ..*old(self) }),
    {
        self.geom_override = Some(pane_geom);
        self.should_render = true;
    }

    pub fn reset_size_and_position_override(&mut self)
        ensures
            *final(self) == (Pane { geom_override: None, should_render: true, ..*old(self) }),
    {
        self.geom_override = None;
        self.should_render = true;
    }

    pub fn set_should_render(&mut self, should_render: bool)
        ensures
            *final(self) == (Pane { should_render, ..*old(self) }),
    {
        self.should_render = should_render;
    }

    pub fn set_selectable(&mut self, selectable: bool)
        ensures
            *final(self) == (Pane { selectable, ..*old(self) }),
    {
        self.selectable = selectable;
    }

    pub fn set_invisible_borders(&mut self, invisible_borders: bool)
        ensures
            *final(self) == (Pane { invisible_borders, ..*old(self) }),
    {
        self.invisible_borders = invisible_borders;
    }

    pub fn set_frame(&mut self, frame: bool)
        ensures
            *final(self) == (Pane { frame, ..*old(self) }),
    {
        self.frame = frame;
    }

    pub fn set_content_offset(&mut self, offset: Offset)
        ensures
            *final(self) == (Pane { content_offset: offset, ..*old(self) }),
    {
        self.content_offset = offset;
    }

    pub fn set_active_at(&mut self, at: u64)
        ensures
            *final(self) == (Pane { active_at: at, ..*old(self) }),
    {
        self.active_at = at;
    }

    pub fn set_boundary_color(&mut self, color: Option<PaletteColor>)
        ensures
            *final(self) == (Pane { boundary_color: color, ..*old(self) }),
    {
        self.boundary_color = color;
    }

    pub fn active_at(&self) -> (r: u64)
        ensures
            r == self.active_at,
    {
        self.active_at
    }

    pub fn pid(&self) -> (r: PaneId)
        ensures
            r == self.pid,
    {
        self.pid
    }

    pub fn selectable(&self) -> (r: bool)
        ensures
            r == self.selectable,
    {
        self.selectable
    }

    pub fn invisible_borders(&self) -> (r: bool)
        ensures
            r == self.invisible_borders,
    {
        self.invisible_borders
    }

    pub fn min_width(&self) -> (r: usize)
        ensures
            r == MIN_TERMINAL_WIDTH,
    {
        MIN_TERMINAL_WIDTH
    }

    pub fn min_height(&self) -> (r: usize)
        ensures
            r == MIN_TERMINAL_HEIGHT,
    {
        MIN_TERMINAL_HEIGHT
    }

    /// The pane's current rectangle contains the screen position. Boundary
    /// cells between panes belong to no pane.
    pub open spec fn spec_contains(self, position: Position) -> bool {
        &&& self.spec_x() <= position.column < self.spec_x() + self.spec_cols()
        &&& self.spec_y() <= position.line < self.spec_y() + self.spec_rows()
    }

    pub fn contains(&self, position: &Position) -> (r: bool)
        requires
            self.spec_x() + self.spec_cols() <= usize::MAX,
            self.spec_y() + self.spec_rows() <= usize::MAX,
        ensures
            r == self.spec_contains(*position),
    {
        let g_x = self.x();
        let g_y = self.y();
        let g_cols = self.cols();
        let g_rows = self.rows();
        g_x <= position.column && position.column < g_x + g_cols && g_y <= position.line
            && position.line < g_y + g_rows
    }

    /// A screen position expressed in the pane's content coordinates: the
    /// content origin taken away, clamped at zero; the origin itself is
    /// clamped at the top of the coordinate space.
    pub open spec fn spec_relative_position(self, position_on_screen: Position) -> Position {
        let cx: int = if self.spec_x() + self.content_offset.left <= usize::MAX {
            self.spec_content_x()
        } else {
            usize::MAX as int
        };
        let cy: int = if self.spec_y() + self.content_offset.top <= usize::MAX {
            self.spec_content_y()
        } else {
            usize::MAX as int
        };
        Position {
            line: (if position_on_screen.line >= cy {
                position_on_screen.line - cy
            } else {
                0int
            }) as usize,
            column: (if position_on_screen.column >= cx {
                position_on_screen.column - cx
            } else {
                0int
            }) as usize,
        }
    }

    /// A screen position expressed in the pane's content coordinates.
    pub fn relative_position(&self, position_on_screen: &Position) -> (r: Position)
        ensures
            r == self.spec_relative_position(*position_on_screen),
    {
        let x = self.x();
        let y = self.y();
        let cx: usize = if self.content_offset.left <= usize::MAX - x {
            x + self.content_offset.left
        } else {
            usize::MAX
        };
        let cy: usize = if self.content_offset.top <= usize::MAX - y {
            y + self.content_offset.top
        } else {
            usize::MAX
        };
        position_on_screen.relative_to(cy, cx)
    }

    /// The two panes' percent y-ranges intersect: they share at least one
    /// horizontal line of the viewport.
    ///
    /// The overlap predicates and the adjacency predicates below read the
    /// percent rectangles, not the realized cell ranges: the realized
    /// rectangles of adjacent panes are separated by the one boundary cell,
    /// so cell-range adjacency would never hold, and a sliver of overlap
    /// narrower than one cell vanishes under rounding. On panes whose
    /// rectangles span whole cells the two readings agree.
    pub open spec fn spec_horizontally_overlaps_with(self, other: Pane) -> bool {
        let a = self.current_geom();
        let b = other.current_geom();
        a.py < b.py + b.ph() && b.py < a.py + a.ph()
    }

    pub fn horizontally_overlaps_with(&self, other: &Pane) -> (r: bool)
        requires
            self.current_geom().py + self.current_geom().ph() <= FULL_PERCENT,
            other.current_geom().py + other.current_geom().ph() <= FULL_PERCENT,
        ensures
            r == self.spec_horizontally_overlaps_with(*other),
    {
        let a = self.current_geom_exec();
        let b = other.current_geom_exec();
        let a_ph = match a.rows.constraint {
            Constraint::Percent(p) => p,
            Constraint::Fixed(_) => 0,
        };
        let b_ph = match b.rows.constraint {
            Constraint::Percent(p) => p,
            Constraint::Fixed(_) => 0,
        };
        a.py < b.py + b_ph && b.py < a.py + a_ph
    }

    /// The two panes' percent x-ranges intersect: they share at least one
    /// vertical line of the viewport.
    pub open spec fn spec_vertically_overlaps_with(self, other: Pane) -> bool {
        let a = self.current_geom();
        let b = other.current_geom();
        a.px < b.px + b.pw() && b.px < a.px + a.pw()
    }

    pub fn vertically_overlaps_with(&self, other: &Pane) -> (r: bool)
        requires
            self.current_geom().px + self.current_geom().pw() <= FULL_PERCENT,
            other.current_geom().px + other.current_geom().pw() <= FULL_PERCENT,
        ensures
            r == self.spec_vertically_overlaps_with(*other),
    {
        let a = self.current_geom_exec();
        let b = other.current_geom_exec();
        let a_pw = match a.cols.constraint {
            Constraint::Percent(p) => p,
            Constraint::Fixed(_) => 0,
        };
        let b_pw = match b.cols.constraint {
            Constraint::Percent(p) => p,
            Constraint::Fixed(_) => 0,
        };
        a.px < b.px + b_pw && b.px < a.px + a_pw
    }

    /// The pane's right percent edge abuts the other's left percent edge; on
    /// screen the two rectangles are separated by the one boundary column.
    pub open spec fn spec_is_directly_left_of(self, other: Pane) -> bool {
        let a = self.current_geom();
        let b = other.current_geom();
        a.px + a.pw() == b.px
    }

    pub fn is_directly_left_of(&self, other: &Pane) -> (r: bool)
        requires
            self.current_geom().px + self.current_geom().pw() <= FULL_PERCENT,
        ensures
            r == self.spec_is_directly_left_of(*other),
    {
        let a = self.current_geom_exec();
        let b = other.current_geom_exec();
        let a_pw = match a.cols.constraint {
            Constraint::Percent(p) => p,
            Constraint::Fixed(_) => 0,
        };
        a.px + a_pw == b.px
    }

    pub open spec fn spec_is_directly_right_of(self, other: Pane) -> bool {
        other.spec_is_directly_left_of(self)
    }

    pub fn is_directly_right_of(&self, other: &Pane) -> (r: bool)
        requires
            other.current_geom().px + other.current_geom().pw() <= FULL_PERCENT,
        ensures
            r == self.spec_is_directly_right_of(*other),
    {
        other.is_directly_left_of(self)
    }

    /// The pane's bottom percent edge abuts the other's top percent edge.
    pub open spec fn spec_is_directly_above(self, other: Pane) -> bool {
        let a = self.current_geom();
        let b = other.current_geom();
        a.py + a.ph() == b.py
    }

    pub fn is_directly_above(&self, other: &Pane) -> (r: bool)
        requires
            self.current_geom().py + self.current_geom().ph() <= FULL_PERCENT,
        ensures
            r == self.spec_is_directly_above(*other),
    {
        let a = self.current_geom_exec();
        let b = other.current_geom_exec();
        let a_ph = match a.rows.constraint {
            Constraint::Percent(p) => p,
            Constraint::Fixed(_) => 0,
        };
        a.py + a_ph == b.py
    }

    pub open spec fn spec_is_directly_below(self, other: Pane) -> bool {
        other.spec_is_directly_above(self)
    }

    pub fn is_directly_below(&self, other: &Pane) -> (r: bool)
        requires
            other.current_geom().py + other.current_geom().ph() <= FULL_PERCENT,
        ensures
            r == self.spec_is_directly_below(*other),
    {
        other.is_directly_above(self)
    }

    fn current_geom_exec(&self) -> (r: PaneGeom)
        ensures
            r == self.current_geom(),
    {
        match self.geom_override {
            Some(g) => g,
            None => self.geom,
        }
    }

    /// Grow the pane to the right: its right edge moves right by `by`
    /// percent units. Fixed columns ignore resizes; growth is capped at the
    /// end of the axis.
    pub fn increase_width_right(&mut self, by: u32)
        requires
            old(self).geom.px + old(self).geom.pw() <= FULL_PERCENT,
            old(self).geom.py <= FULL_PERCENT,
            old(self).geom.ph() <= FULL_PERCENT,
        ensures
            *final(self) == (Pane { geom: final(self).geom, ..*old(self) }),
            final(self).geom == match old(self).geom.cols.constraint {
                Constraint::Fixed(_) => old(self).geom,
                Constraint::Percent(p) => PaneGeom {
                    cols: Dimension {
                        constraint: Constraint::Percent(
                            if old(self).geom.px + p + by <= FULL_PERCENT {
                                (p + by) as u32
                            } else {
                                (FULL_PERCENT - old(self).geom.px) as u32
                            },
                        ),
                        ..old(self).geom.cols
                    },
                    ..old(self).geom
                },
            },
    {
        match self.geom.cols.constraint {
            Constraint::Fixed(_) => {},
            Constraint::Percent(p) => {
                let np: u32 = if by <= FULL_PERCENT - self.geom.px - p {
                    p + by
                } else {
                    FULL_PERCENT - self.geom.px
                };
                self.geom.cols.constraint = Constraint::Percent(np);
            }
        }
    }

    /// Grow the pane to the left: its left edge moves left by `by` percent
    /// units, clamped at the start of the axis.
    pub fn increase_width_left(&mut self, by: u32)
        requires
            old(self).geom.px <= FULL_PERCENT,
            old(self).geom.py <= FULL_PERCENT,
            old(self).geom.pw() <= FULL_PERCENT,
            old(self).geom.ph() <= FULL_PERCENT,
        ensures
            *final(self) == (Pane { geom: final(self).geom, ..*old(self) }),
            final(self).geom == match old(self).geom.cols.constraint {
                Constraint::Fixed(_) => old(self).geom,
                Constraint::Percent(p) => {
                    let shift = if old(self).geom.px >= by { by } else { old(self).geom.px };
                    PaneGeom {
                        px: (old(self).geom.px - shift) as u32,
                        cols: Dimension {
                            constraint: Constraint::Percent(
                                if p + shift <= FULL_PERCENT { (p + shift) as u32 } else { FULL_PERCENT },
                            ),
                            ..old(self).geom.cols
                        },
                        ..old(self).geom
                    }
                },
            },
    {
        match self.geom.cols.constraint {
            Constraint::Fixed(_) => {},
            Constraint::Percent(p) => {
                let shift: u32 = if self.geom.px >= by {
                    by
                } else {
                    self.geom.px
                };
                let np: u32 = if shift <= FULL_PERCENT - p {
                    p + shift
                } else {
                    FULL_PERCENT
                };
                self.geom.px = self.geom.px - shift;
                self.geom.cols.constraint = Constraint::Percent(np);
            }
        }
    }

    /// Shrink the pane from the right: its right edge moves left by `by`
    /// percent units, clamped at zero width.
    pub fn reduce_width_left(&mut self, by: u32)
        requires
            old(self).geom.px <= FULL_PERCENT,
            old(self).geom.py <= FULL_PERCENT,
            old(self).geom.pw() <= FULL_PERCENT,
            old(self).geom.ph() <= FULL_PERCENT,
        ensures
            *final(self) == (Pane { geom: final(self).geom, ..*old(self) }),
            final(self).geom == match old(self).geom.cols.constraint {
                Constraint::Fixed(_) => old(self).geom,
                Constraint::Percent(p) => PaneGeom {
                    cols: Dimension {
                        constraint: Constraint::Percent(if p >= by { (p - by) as u32 } else { 0u32 }),
                        ..old(self).geom.cols
                    },
                    ..old(self).geom
                },
            },
    {
        match self.geom.cols.constraint {
            Constraint::Fixed(_) => {},
            Constraint::Percent(p) => {
                let np: u32 = if p >= by {
                    p - by
                } else {
                    0
                };
                self.geom.cols.constraint = Constraint::Percent(np);
            }
        }
    }

    /// Shrink the pane from the left: its left edge moves right by `by`
    /// percent units, clamped at zero width.
    pub fn reduce_width_right(&mut self, by: u32)
        requires
            old(self).geom.px <= FULL_PERCENT,
            old(self).geom.py <= FULL_PERCENT,
            old(self).geom.pw() <= FULL_PERCENT,
            old(self).geom.ph() <= FULL_PERCENT,
        ensures
            *final(self) == (Pane { geom: final(self).geom, ..*old(self) }),
            final(self).geom == match old(self).geom.cols.constraint {
                Constraint::Fixed(_) => old(self).geom,
                Constraint::Percent(p) => {
                    let shift = if p >= by { by } else { p };
                    PaneGeom {
                        px: if old(self).geom.px + shift <= FULL_PERCENT {
                            (old(self).geom.px + shift) as u32
                        } else {
                            FULL_PERCENT
                        },
                        cols: Dimension {
                            constraint: Constraint::Percent((p - shift) as u32),
                            ..old(self).geom.cols
                        },
                        ..old(self).geom
                    }
                },
            },
    {
        match self.geom.cols.constraint {
            Constraint::Fixed(_) => {},
            Constraint::Percent(p) => {
                let shift: u32 = if p >= by {
                    by
                } else {
                    p
                };
                let npx: u32 = if shift <= FULL_PERCENT - self.geom.px {
                    self.geom.px + shift
                } else {
                    FULL_PERCENT
                };
                self.geom.px = npx;
                self.geom.cols.constraint = Constraint::Percent(p - shift);
            }
        }
    }

    /// Grow the pane downward: its bottom edge moves down by `by` percent
    /// units, capped at the end of the axis.
    pub fn increase_height_down(&mut self, by: u32)
        requires
            old(self).geom.py + old(self).geom.ph() <= FULL_PERCENT,
            old(self).geom.px <= FULL_PERCENT,
            old(self).geom.pw() <= FULL_PERCENT,
        ensures
            *final(self) == (Pane { geom: final(self).geom, ..*old(self) }),
            final(self).geom == match old(self).geom.rows.constraint {
                Constraint::Fixed(_) => old(self).geom,
                Constraint::Percent(p) => PaneGeom {
                    rows: Dimension {
                        constraint: Constraint::Percent(
                            if old(self).geom.py + p + by <= FULL_PERCENT {
                                (p + by) as u32
                            } else {
                                (FULL_PERCENT - old(self).geom.py) as u32
                            },
                        ),
                        ..old(self).geom.rows
                    },
                    ..old(self).geom
                },
            },
    {
        match self.geom.rows.constraint {
            Constraint::Fixed(_) => {},
            Constraint::Percent(p) => {
                let np: u32 = if by <= FULL_PERCENT - self.geom.py - p {
                    p + by
                } else {
                    FULL_PERCENT - self.geom.py
                };
                self.geom.rows.constraint = Constraint::Percent(np);
            }
        }
    }

    /// Grow the pane upward: its top edge moves up by `by` percent units,
    /// clamped at the start of the axis.
    pub fn increase_height_up(&mut self, by: u32)
        requires
            old(self).geom.px <= FULL_PERCENT,
            old(self).geom.py <= FULL_PERCENT,
            old(self).geom.pw() <= FULL_PERCENT,
            old(self).geom.ph() <= FULL_PERCENT,
        ensures
            *final(self) == (Pane { geom: final(self).geom, ..*old(self) }),
            final(self).geom == match old(self).geom.rows.constraint {
                Constraint::Fixed(_) => old(self).geom,
                Constraint::Percent(p) => {
                    let shift = if old(self).geom.py >= by { by } else { old(self).geom.py };
                    PaneGeom {
                        py: (old(self).geom.py - shift) as u32,
                        rows: Dimension {
                            constraint: Constraint::Percent(
                                if p + shift <= FULL_PERCENT { (p + shift) as u32 } else { FULL_PERCENT },
                            ),
                            ..old(self).geom.rows
                        },
                        ..old(self).geom
                    }
                },
            },
    {
        match self.geom.rows.constraint {
            Constraint::Fixed(_) => {},
            Constraint::Percent(p) => {
                let shift: u32 = if self.geom.py >= by {
                    by
                } else {
                    self.geom.py
                };
                let np: u32 = if shift <= FULL_PERCENT - p {
                    p + shift
                } else {
                    FULL_PERCENT
                };
                self.geom.py = self.geom.py - shift;
                self.geom.rows.constraint = Constraint::Percent(np);
            }
        }
    }

    /// Shrink the pane from the bottom: its bottom edge moves up by `by`
    /// percent units, clamped at zero height.
    pub fn reduce_height_up(&mut self, by: u32)
        requires
            old(self).geom.px <= FULL_PERCENT,
            old(self).geom.py <= FULL_PERCENT,
            old(self).geom.pw() <= FULL_PERCENT,
            old(self).geom.ph() <= FULL_PERCENT,
        ensures
            *final(self) == (Pane { geom: final(self).geom, ..*old(self) }),
            final(self).geom == match old(self).geom.rows.constraint {
                Constraint::Fixed(_) => old(self).geom,
                Constraint::Percent(p) => PaneGeom {
                    rows: Dimension {
                        constraint: Constraint::Percent(if p >= by { (p - by) as u32 } else { 0u32 }),
                        ..old(self).geom.rows
                    },
                    ..old(self).geom
                },
            },
    {
        match self.geom.rows.constraint {
            Constraint::Fixed(_) => {},
            Constraint::Percent(p) => {
                let np: u32 = if p >= by {
                    p - by
                } else {
                    0
                };
                self.geom.rows.constraint = Constraint::Percent(np);
            }
        }
    }

    /// Shrink the pane from the top: its top edge moves down by `by` percent
    /// units, clamped at zero height.
    pub fn reduce_height_down(&mut self, by: u32)
        requires
            old(self).geom.px <= FULL_PERCENT,
            old(self).geom.py <= FULL_PERCENT,
            old(self).geom.pw() <= FULL_PERCENT,
            old(self).geom.ph() <= FULL_PERCENT,
        ensures
            *final(self) == (Pane { geom: final(self).geom, ..*old(self) }),
            final(self).geom == match old(self).geom.rows.constraint {
                Constraint::Fixed(_) => old(self).geom,
                Constraint::Percent(p) => {
                    let shift = if p >= by { by } else { p };
                    PaneGeom {
                        py: if old(self).geom.py + shift <= FULL_PERCENT {
                            (old(self).geom.py + shift) as u32
                        } else {
                            FULL_PERCENT
                        },
                        rows: Dimension {
                            constraint: Constraint::Percent((p - shift) as u32),
                            ..old(self).geom.rows
                        },
                        ..old(self).geom
                    }
                },
            },
    {
        match self.geom.rows.constraint {
            Constraint::Fixed(_) => {},
            Constraint::Percent(p) => {
                let shift: u32 = if p >= by {
                    by
                } else {
                    p
                };
                let npy: u32 = if shift <= FULL_PERCENT - self.geom.py {
                    self.geom.py + shift
                } else {
                    FULL_PERCENT
                };
                self.geom.py = npy;
                self.geom.rows.constraint = Constraint::Percent(p - shift);
            }
        }
    }

    /// How many rows of the two panes' current cell ranges coincide.
    pub fn get_horizontal_overlap_with(&self, other: &Pane) -> (r: usize)
        requires
            self.spec_y() + self.spec_rows() <= usize::MAX,
            other.spec_y() + other.spec_rows() <= usize::MAX,
            self.spec_y() < other.spec_y() + other.spec_rows(),
            other.spec_y() < self.spec_y() + self.spec_rows(),
        ensures
            r == (if self.spec_y() + self.spec_rows() <= other.spec_y() + other.spec_rows() {
                self.spec_y() + self.spec_rows()
            } else {
                other.spec_y() + other.spec_rows()
            }) - (if self.spec_y() >= other.spec_y() {
                self.spec_y() as int
            } else {
                other.spec_y() as int
            }),
    {
        let self_end = self.y() + self.rows();
        let other_end = other.y() + other.rows();
        let end = if self_end <= other_end {
            self_end
        } else {
            other_end
        };
        let start = if self.y() >= other.y() {
            self.y()
        } else {
            other.y()
        };
        end - start
    }

    /// How many columns of the two panes' current cell ranges coincide.
    pub fn get_vertical_overlap_with(&self, other: &Pane) -> (r: usize)
        requires
            self.spec_x() + self.spec_cols() <= usize::MAX,
            other.spec_x() + other.spec_cols() <= usize::MAX,
            self.spec_x() < other.spec_x() + other.spec_cols(),
            other.spec_x() < self.spec_x() + self.spec_cols(),
        ensures
            r == (if self.spec_x() + self.spec_cols() <= other.spec_x() + other.spec_cols() {
                self.spec_x() + self.spec_cols()
            } else {
                other.spec_x() + other.spec_cols()
            }) - (if self.spec_x() >= other.spec_x() {
                self.spec_x() as int
            } else {
                other.spec_x() as int
            }),
    {
        let self_end = self.x() + self.cols();
        let other_end = other.x() + other.cols();
        let end = if self_end <= other_end {
            self_end
        } else {
            other_end
        };
        let start = if self.x() >= other.x() {
            self.x()
        } else {
            other.x()
        };
        end - start
    }

    /// The pane can give up `reduce_by` cells of height and stay legible.
    pub fn can_reduce_height_by(&self, reduce_by: usize) -> (r: bool)
        ensures
            r == (self.spec_rows() > reduce_by && self.spec_rows() - reduce_by
                >= MIN_TERMINAL_HEIGHT),
    {
        let rows = self.rows();
        rows > reduce_by && rows - reduce_by >= MIN_TERMINAL_HEIGHT
    }

    /// The pane can give up `reduce_by` cells of width and stay legible.
    pub fn can_reduce_width_by(&self, reduce_by: usize) -> (r: bool)
        ensures
            r == (self.spec_cols() > reduce_by && self.spec_cols() - reduce_by
                >= MIN_TERMINAL_WIDTH),
    {
        let cols = self.cols();
        cols > reduce_by && cols - reduce_by >= MIN_TERMINAL_WIDTH
    }
}

} // verus!
