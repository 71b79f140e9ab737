//! Creating a tab and applying an initial partition to it.
//!
//! The layout file parser is an outside collaborator: it hands the tab a
//! sequence of pane descriptions as plain percent rectangles. Applying them
//! installs one pane per description, borderless descriptions shrinking the
//! viewport instead.
use vstd::prelude::*;

use crate::fmt::{push_decimal, spec_decimal};
use crate::geom::{
    Constraint, Dimension, PaneGeom, Size, Viewport, FULL_PERCENT, MAX_AXIS_CELLS,
    spec_realize_start, spec_realize_len, realize_span,
};
use crate::pane::{ModeInfo, Palette, Pane, PaneId};
use crate::tab::{OutboundMessage, Tab, pane_bounded, pane_realized, geom_bounded};
use crate::layout::{spec_realize_geom};

verus! {

/// The geometry of a pane that has the whole viewport to itself.
pub open spec fn spec_full_viewport_geom(vp: Viewport) -> PaneGeom {
    spec_realize_geom(
        PaneGeom {
            x: 0,
            y: 0,
            px: 0,
            py: 0,
            cols: Dimension { constraint: Constraint::Percent(FULL_PERCENT), inner: 0 },
            rows: Dimension { constraint: Constraint::Percent(FULL_PERCENT), inner: 0 },
        },
        vp,
    )
}

impl Tab {
    /// A new tab over the given viewport. When a terminal pane id is handed
    /// in, that pane is installed filling the viewport and made active, and
    /// its size is reported for the PTY host; a tab created without a pane
    /// starts empty. An empty name becomes "Tab #" followed by the position,
    /// counted from one.
    pub fn new(
        index: usize,
        position: usize,
        name: String,
        viewport: Viewport,
        max_panes: Option<usize>,
        pane_id: Option<PaneId>,
        mode_info: ModeInfo,
        colors: Palette,
        draw_pane_frames: bool,
    ) -> (r: (Tab, Vec<OutboundMessage>))
        requires
            viewport.x == 0,
            viewport.y == 0,
            viewport.cols <= MAX_AXIS_CELLS,
            viewport.rows <= MAX_AXIS_CELLS,
            position < usize::MAX,
        ensures
            r.0.well_formed(),
            r.0.index == index,
            r.0.position == position,
            r.0.name@ == if name@.len() == 0 {
                "Tab #"@ + spec_decimal((position + 1) as nat)
            } else {
                name@
            },
            r.0.viewport == viewport,
            r.0.display_area == (Size { cols: viewport.cols, rows: viewport.rows }),
            r.0.max_panes == max_panes,
            r.0.mode_info == mode_info,
            r.0.colors == colors,
            r.0.draw_pane_frames == draw_pane_frames,
            !r.0.fullscreen_is_active,
            !r.0.synchronize_is_active,
            r.0.panes_to_hide@.len() == 0,
            match pane_id {
                Some(PaneId::Terminal(fd)) => {
                    &&& r.0.panes_s().len() == 1
                    &&& r.0.panes_s()[0] == (Pane {
                        pid: PaneId::Terminal(fd),
                        geom: spec_full_viewport_geom(viewport),
                        ..Pane::new_spec(PaneId::Terminal(fd), spec_full_viewport_geom(viewport), 1)
                    })
                    &&& r.0.active_terminal == Some(PaneId::Terminal(fd))
                    &&& r.1@ == seq![
                        OutboundMessage::SetTerminalSize(
                            fd,
                            spec_full_viewport_geom(viewport).cols.inner,
                            spec_full_viewport_geom(viewport).rows.inner,
                        ),
                    ]
                },
                _ => {
                    &&& r.0.panes_s().len() == 0
                    &&& r.0.active_terminal is None
                    &&& r.1@.len() == 0
                },
            },
    {
        let mut msgs: Vec<OutboundMessage> = Vec::new();
        let mut panes: Vec<Pane> = Vec::new();
        let mut active: Option<PaneId> = None;
        if let Some(PaneId::Terminal(fd)) = pane_id {
            let (x, len_x) = realize_span(0, FULL_PERCENT, viewport.x, viewport.cols);
            let (y, len_y) = realize_span(0, FULL_PERCENT, viewport.y, viewport.rows);
            let geom = PaneGeom {
                x,
                y,
                px: 0,
                py: 0,
                cols: Dimension { constraint: Constraint::Percent(FULL_PERCENT), inner: len_x },
                rows: Dimension { constraint: Constraint::Percent(FULL_PERCENT), inner: len_y },
            };
            let new_terminal = Pane::new(PaneId::Terminal(fd), geom, 1);
            msgs.push(OutboundMessage::SetTerminalSize(fd, len_x, len_y));
            panes.push(new_terminal);
            active = Some(PaneId::Terminal(fd));
        }
        let final_name: String = if name.as_str().is_empty() {
            let mut n = String::new();
            n.append("Tab #");
            push_decimal(&mut n, position + 1);
            proof {
                assert(n@ =~= "Tab #"@ + spec_decimal((position + 1) as nat));
            }
            n
        } else {
            name
        };
        let tab = Tab {
            index,
            position,
            name: final_name,
            panes,
            panes_to_hide: Vec::new(),
            active_terminal: active,
            max_panes,
            viewport,
            display_area: Size { cols: viewport.cols, rows: viewport.rows },
            fullscreen_is_active: false,
            synchronize_is_active: false,
            should_clear_display_before_rendering: false,
            mode_info,
            colors,
            draw_pane_frames,
        };
        proof {
            crate::geom::lemma_realize_in_viewport(0, FULL_PERCENT, viewport.x, viewport.cols);
            crate::geom::lemma_realize_in_viewport(0, FULL_PERCENT, viewport.y, viewport.rows);
        }
        (tab, msgs)
    }

    /// Apply an initial partition to a fresh tab: the parsed layout hands
    /// over one percent rectangle per pane, and the PTY host one descriptor
    /// per pane, in ascending order. Descriptors beyond the layout's room are
    /// handed back for closing. The first pane takes focus.
    ///
    /// Every rectangle must share both axes by percent: fixed-size surfaces
    /// (the status and tab bars) do not join the viewport's partition — they
    /// carve their space out of it through `offset_viewport` instead, before
    /// the layout is applied.
    pub fn apply_layout(&mut self, positions: &Vec<PaneGeom>, new_pids: &Vec<i32>) -> (msgs: Vec<
        OutboundMessage,
    >)
        requires
            old(self).well_formed(),
            old(self).panes_s().len() == 0,
            positions@.len() <= new_pids@.len(),
            forall|k: int, l: int| 0 <= k < l < new_pids@.len() ==> new_pids@[k] < new_pids@[l],
            forall|k: int|
                0 <= k < positions@.len() ==> {
                    let g = #[trigger] positions@[k];
                    &&& g.px + g.pw() <= FULL_PERCENT
                    &&& g.py + g.ph() <= FULL_PERCENT
                    &&& g.is_percent()
                },
        ensures
            final(self).well_formed(),
            final(self).panes_s().len() == positions@.len(),
            forall|k: int|
                0 <= k < positions@.len() ==> {
                    let p = #[trigger] final(self).panes_s()[k];
                    &&& p.pid == PaneId::Terminal(new_pids@[k])
                    &&& p.geom == spec_realize_geom(positions@[k], old(self).viewport)
                    &&& p.selectable
                    &&& p.geom_override is None
                },
            final(self).active_terminal == (if positions@.len() > 0 {
                Some(PaneId::Terminal(new_pids@[0]))
            } else {
                None::<PaneId>
            }),
            *final(self) == (Tab {
                panes: final(self).panes,
                active_terminal: final(self).active_terminal,
                ..*old(self)
            }),
    {
        let ghost a = *old(self);
        let vp = self.viewport;
        let mut msgs: Vec<OutboundMessage> = Vec::new();
        let mut i: usize = 0;
        while i < positions.len()
            invariant
                *self == (Tab {
                    panes: self.panes,
                    active_terminal: self.active_terminal,
                    ..a
                }),
                a.well_formed(),
                a.panes_s().len() == 0,
                vp == a.viewport,
                positions@.len() <= new_pids@.len(),
                forall|k: int, l: int| 0 <= k < l < new_pids@.len() ==> new_pids@[k] < new_pids@[l],
                forall|k: int|
                    0 <= k < positions@.len() ==> {
                        let g = #[trigger] positions@[k];
                        &&& g.px + g.pw() <= FULL_PERCENT
                        &&& g.py + g.ph() <= FULL_PERCENT
                        &&& g.is_percent()
                    },
                i <= positions@.len(),
                self.panes@.len() == i,
                forall|k: int|
                    0 <= k < i ==> {
                        let p = #[trigger] self.panes@[k];
                        &&& p.pid == PaneId::Terminal(new_pids@[k])
                        &&& p.geom == spec_realize_geom(positions@[k], vp)
                        &&& p.selectable
                        &&& p.geom_override is None
                        &&& pane_bounded(p)
                        &&& pane_realized(p, vp)
                    },
                self.active_terminal == (if i > 0 {
                    Some(PaneId::Terminal(new_pids@[0]))
                } else {
                    None::<PaneId>
                }),
            decreases positions@.len() - i,
        {
            let g0 = positions[i];
            let pw = match g0.cols.constraint {
                Constraint::Percent(p) => p,
                Constraint::Fixed(_) => 0,
            };
            let ph = match g0.rows.constraint {
                Constraint::Percent(p) => p,
                Constraint::Fixed(_) => 0,
            };
            let (x, len_x) = realize_span(g0.px, pw, vp.x, vp.cols);
            let (y, len_y) = realize_span(g0.py, ph, vp.y, vp.rows);
            let geom = PaneGeom {
                x,
                y,
                cols: Dimension { constraint: g0.cols.constraint, inner: len_x },
                rows: Dimension { constraint: g0.rows.constraint, inner: len_y },
                ..g0
            };
            let fd = new_pids[i];
            let position = if i < usize::MAX {
                i + 1
            } else {
                i
            };
            let pane = Pane::new(PaneId::Terminal(fd), geom, position);
            msgs.push(OutboundMessage::SetTerminalSize(fd, len_x, len_y));
            self.panes.push(pane);
            if i == 0 {
                self.active_terminal = Some(PaneId::Terminal(fd));
            }
            proof {
                crate::geom::lemma_realize_in_viewport(g0.px, g0.pw(), vp.x, vp.cols);
                crate::geom::lemma_realize_in_viewport(g0.py, g0.ph(), vp.y, vp.rows);
                assert(self.panes@[i as int].geom == spec_realize_geom(positions@[i as int], vp));
            }
            i = i + 1;
        }
        // Descriptors the layout had no room for go back to the PTY host.
        let mut j: usize = positions.len();
        while j < new_pids.len()
            invariant
                *self == (Tab {
                    panes: self.panes,
                    active_terminal: self.active_terminal,
                    ..a
                }),
                positions@.len() <= j <= new_pids@.len(),
            decreases new_pids@.len() - j,
        {
            msgs.push(OutboundMessage::PtyClose(PaneId::Terminal(new_pids[j])));
            j = j + 1;
        }
        proof {
            assert forall|k: int, l: int|
                0 <= k < l < self.panes@.len() implies (#[trigger] self.panes@[k].pid).spec_lt(
                #[trigger] self.panes@[l].pid,
            ) by {
                assert(new_pids@[k] < new_pids@[l]);
            }
            if self.panes@.len() > 0 {
                assert(Tab::seq_has_id(self.panes_s(), PaneId::Terminal(new_pids@[0]))) by {
                    assert(self.panes_s()[0].pid == PaneId::Terminal(new_pids@[0]));
                }
            }
            if exists|k: int|
                0 <= k < self.panes_s().len() && (#[trigger] self.panes_s()[k].geom_override)
                    is Some {
                let k = choose|k: int|
                    0 <= k < self.panes_s().len() && (
                    #[trigger] self.panes_s()[k].geom_override) is Some;
                assert(false);
            }
            assert(self.well_formed());
        }
        msgs
    }

    /// The pane's base rectangle lies inside the viewport, on both axes.
    pub fn is_inside_viewport(&self, pane_id: PaneId) -> (r: bool)
        requires
            self.well_formed(),
            self.has_pane(pane_id),
        ensures
            r == {
                let g = self.pane_of(pane_id).geom;
                &&& g.y >= self.viewport.y
                &&& g.y + g.rows.inner <= self.viewport.y + self.viewport.rows
                &&& g.x >= self.viewport.x
                &&& g.x + g.cols.inner <= self.viewport.x + self.viewport.cols
            },
    {
        let i = match self.find_pane(pane_id) {
            Some(i) => i,
            None => {
                proof {
                    assert(false);
                }
                0
            }
        };
        proof {
            self.lemma_idx_unique(i as int, pane_id);
            assert(pane_bounded(self.panes_s()[i as int]));
        }
        let g = self.panes[i].position_and_size();
        g.y >= self.viewport.y && g.y + g.rows.inner <= self.viewport.y + self.viewport.rows
            && g.x >= self.viewport.x && g.x + g.cols.inner <= self.viewport.x + self.viewport.cols
    }

    /// Carve a borderless pane's rectangle out of the viewport: a full-width
    /// band at the top or the bottom, or a full-height band at the left or
    /// the right, moves the viewport edge inward by the band's extent.
    pub fn offset_viewport(&mut self, position_and_size: Viewport)
        requires
            position_and_size.x + position_and_size.cols <= MAX_AXIS_CELLS,
            position_and_size.y + position_and_size.rows <= MAX_AXIS_CELLS,
            old(self).viewport.x + old(self).viewport.cols <= MAX_AXIS_CELLS,
            old(self).viewport.y + old(self).viewport.rows <= MAX_AXIS_CELLS,
        ensures
            *final(self) == (Tab { viewport: final(self).viewport, ..*old(self) }),
            final(self).viewport == {
                let vp0 = old(self).viewport;
                let vp1 = if position_and_size.x == vp0.x && position_and_size.x
                    + position_and_size.cols == vp0.x + vp0.cols {
                    if position_and_size.y == vp0.y && position_and_size.rows <= vp0.rows {
                        Viewport {
                            y: (vp0.y + position_and_size.rows) as usize,
                            rows: (vp0.rows - position_and_size.rows) as usize,
                            ..vp0
                        }
                    } else if position_and_size.y + position_and_size.rows == vp0.y + vp0.rows
                        && position_and_size.rows <= vp0.rows {
                        Viewport { rows: (vp0.rows - position_and_size.rows) as usize, ..vp0 }
                    } else {
                        vp0
                    }
                } else {
                    vp0
                };
                if position_and_size.y == vp1.y && position_and_size.y + position_and_size.rows
                    == vp1.y + vp1.rows {
                    if position_and_size.x == vp1.x && position_and_size.cols <= vp1.cols {
                        Viewport {
                            x: (vp1.x + position_and_size.cols) as usize,
                            cols: (vp1.cols - position_and_size.cols) as usize,
                            ..vp1
                        }
                    } else if position_and_size.x + position_and_size.cols == vp1.x + vp1.cols
                        && position_and_size.cols <= vp1.cols {
                        Viewport { cols: (vp1.cols - position_and_size.cols) as usize, ..vp1 }
                    } else {
                        vp1
                    }
                } else {
                    vp1
                }
            },
    {
        if position_and_size.x == self.viewport.x && position_and_size.x + position_and_size.cols
            == self.viewport.x + self.viewport.cols {
            if position_and_size.y == self.viewport.y && position_and_size.rows
                <= self.viewport.rows {
                self.viewport.y = self.viewport.y + position_and_size.rows;
                self.viewport.rows = self.viewport.rows - position_and_size.rows;
            } else if position_and_size.y + position_and_size.rows == self.viewport.y
                + self.viewport.rows && position_and_size.rows <= self.viewport.rows {
                self.viewport.rows = self.viewport.rows - position_and_size.rows;
            }
        }
        if position_and_size.y == self.viewport.y && position_and_size.y + position_and_size.rows
            == self.viewport.y + self.viewport.rows {
            if position_and_size.x == self.viewport.x && position_and_size.cols
                <= self.viewport.cols {
                self.viewport.x = self.viewport.x + position_and_size.cols;
                self.viewport.cols = self.viewport.cols - position_and_size.cols;
            } else if position_and_size.x + position_and_size.cols == self.viewport.x
                + self.viewport.cols && position_and_size.cols <= self.viewport.cols {
                self.viewport.cols = self.viewport.cols - position_and_size.cols;
            }
        }
    }
}

impl Pane {
    /// The value `Pane::new` yields, for use in specifications.
    pub open spec fn new_spec(pid: PaneId, geom: PaneGeom, pane_position: usize) -> Pane {
        Pane {
            pid,
            geom,
            geom_override: None,
            selectable: true,
            invisible_borders: false,
            frame: false,
            content_offset: crate::geom::Offset { top: 0, bottom: 0, left: 0, right: 0 },
            active_at: 0,
            boundary_color: None,
            should_render: true,
            pane_position,
        }
    }
}

} // verus!
