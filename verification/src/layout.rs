//! Laying the tab out: the cell rectangles of all percent-sized panes are
//! recomputed from their percent rectangles against the viewport, content
//! offsets and frames are refreshed, and a display-area change moves the
//! viewport with it.
//!
//! Because the percent rectangles tile percent space exactly, the percent
//! shares of the panes crossing any cut of the viewport always sum to the
//! full axis; laying out therefore never has a shortfall or surplus to
//! redistribute and only derives cells.
use vstd::prelude::*;

use crate::geom::{
    Constraint, Dimension, Offset, PaneGeom, Size, Viewport, FULL_PERCENT, MAX_AXIS_CELLS,
    spec_realize_start, spec_realize_len, realize_span, lemma_realize_in_viewport,
};
use crate::pane::{Pane, PaneId};
use crate::tab::{
    Direction, OutboundMessage, Tab, geom_bounded, geom_realized, pane_bounded, pane_realized,
    spec_fullscreen_geom, fullscreen_geom,
};

verus! {

/// A percent-sized geometry realized against the viewport; any other
/// geometry is left as it stands.
pub open spec fn spec_realize_geom(g: PaneGeom, vp: Viewport) -> PaneGeom {
    if g.is_percent() {
        PaneGeom {
            x: spec_realize_start(g.px, vp.x, vp.cols) as usize,
            y: spec_realize_start(g.py, vp.y, vp.rows) as usize,
            cols: Dimension {
                constraint: g.cols.constraint,
                inner: spec_realize_len(g.px, g.pw(), vp.x, vp.cols) as usize,
            },
            rows: Dimension {
                constraint: g.rows.constraint,
                inner: spec_realize_len(g.py, g.ph(), vp.y, vp.rows) as usize,
            },
            ..g
        }
    } else {
        g
    }
}

/// A pane after a relayout: its base geometry realized, and its override,
/// when present, renewed to the viewport.
pub open spec fn spec_relayout_pane(p: Pane, vp: Viewport) -> Pane {
    Pane {
        geom: spec_realize_geom(p.geom, vp),
        geom_override: match p.geom_override {
            Some(_) => Some(spec_fullscreen_geom(vp)),
            None => None,
        },
        ..p
    }
}

/// The content offset a pane receives: a uniform frame inset when frames are
/// drawn, otherwise room at the bottom and the right for the boundary lines,
/// and nothing at all for unselectable panes.
pub open spec fn spec_pane_offset(p: Pane, vp: Viewport, draw: bool) -> Offset {
    if !p.selectable {
        Offset { top: 0, bottom: 0, left: 0, right: 0 }
    } else if draw {
        Offset { top: 1, bottom: 1, left: 1, right: 1 }
    } else {
        let g = p.current_geom();
        Offset {
            top: 0,
            left: 0,
            bottom: if g.y + g.rows.inner < vp.rows {
                1nat as usize
            } else {
                0nat as usize
            },
            right: if g.x + g.cols.inner < vp.cols {
                1nat as usize
            } else {
                0nat as usize
            },
        }
    }
}

/// A pane after `set_pane_frames`: the frame flag and the content offset.
pub open spec fn spec_frames_pane(p: Pane, vp: Viewport, draw: bool) -> Pane {
    Pane { frame: draw, content_offset: spec_pane_offset(p, vp, draw), ..p }
}

/// The pane's content columns, clamped at zero.
pub open spec fn spec_content_columns_clamped(p: Pane) -> int {
    if p.spec_content_columns() >= 0 {
        p.spec_content_columns()
    } else {
        0
    }
}

/// The pane's content rows, clamped at zero.
pub open spec fn spec_content_rows_clamped(p: Pane) -> int {
    if p.spec_content_rows() >= 0 {
        p.spec_content_rows()
    } else {
        0
    }
}

/// The sizes reported after frames are refreshed: one message per terminal
/// pane from index `i` on, in pane order, carrying its content columns and
/// rows.
pub open spec fn spec_frame_msgs(s: Seq<Pane>, i: int) -> Seq<OutboundMessage>
    decreases s.len() - i,
{
    if i < 0 || i >= s.len() {
        Seq::empty()
    } else {
        (match s[i].pid {
            PaneId::Terminal(fd) => seq![
                OutboundMessage::SetTerminalSize(
                    fd,
                    spec_content_columns_clamped(s[i]) as usize,
                    spec_content_rows_clamped(s[i]) as usize,
                ),
            ],
            PaneId::Plugin(_) => Seq::empty(),
        }) + spec_frame_msgs(s, i + 1)
    }
}

impl Tab {
    /// Realizing any bounded geometry against the tab's viewport yields a
    /// bounded, realized geometry.
    pub proof fn lemma_realize_geom_good(self, g: PaneGeom)
        requires
            geom_bounded(g),
            self.viewport.x + self.viewport.cols <= MAX_AXIS_CELLS,
            self.viewport.y + self.viewport.rows <= MAX_AXIS_CELLS,
        ensures
            geom_bounded(spec_realize_geom(g, self.viewport)),
            geom_realized(spec_realize_geom(g, self.viewport), self.viewport),
    {
        if g.is_percent() {
            lemma_realize_in_viewport(g.px, g.pw(), self.viewport.x, self.viewport.cols);
            lemma_realize_in_viewport(g.py, g.ph(), self.viewport.y, self.viewport.rows);
        }
    }

    /// Laying out a geometry whose cells are already current changes nothing.
    pub proof fn lemma_realize_idempotent(g: PaneGeom, vp: Viewport)
        requires
            geom_realized(g, vp),
        ensures
            spec_realize_geom(g, vp) == g,
    {
        if g.is_percent() {
            assert(spec_realize_geom(g, vp) == g) by {
                assert(spec_realize_geom(g, vp).x == g.x);
                assert(spec_realize_geom(g, vp).y == g.y);
                assert(spec_realize_geom(g, vp).cols == g.cols);
                assert(spec_realize_geom(g, vp).rows == g.rows);
            }
        }
    }

    /// Recompute the cell rectangle of every pane from its percent rectangle.
    pub fn relayout_all(&mut self)
        requires
            old(self).viewport.x + old(self).viewport.cols <= MAX_AXIS_CELLS,
            old(self).viewport.y + old(self).viewport.rows <= MAX_AXIS_CELLS,
            forall|i: int|
                0 <= i < old(self).panes_s().len() ==> pane_bounded(#[trigger] old(self).panes_s()[i]),
        ensures
            final(self).panes_s() == old(self).panes_s().map(
                |i: int, p: Pane| spec_relayout_pane(p, old(self).viewport),
            ),
            *final(self) == (Tab { panes: final(self).panes, ..*old(self) }),
            forall|i: int|
                0 <= i < final(self).panes_s().len() ==> pane_bounded(
                    #[trigger] final(self).panes_s()[i],
                ) && pane_realized(final(self).panes_s()[i], final(self).viewport),
    {
        let ghost orig = self.panes@;
        proof {
            assert forall|k: int| 0 <= k < orig.len() implies pane_bounded(#[trigger] orig[k]) by {
                assert(pane_bounded(old(self).panes_s()[k]));
            }
        }
        let vp = self.viewport;
        let mut i: usize = 0;
        while i < self.panes.len()
            invariant
                *self == (Tab { panes: self.panes, ..*old(self) }),
                vp == old(self).viewport,
                vp.x + vp.cols <= MAX_AXIS_CELLS,
                vp.y + vp.rows <= MAX_AXIS_CELLS,
                i <= self.panes@.len(),
                self.panes@.len() == orig.len(),
                forall|k: int| 0 <= k < orig.len() ==> pane_bounded(#[trigger] orig[k]),
                forall|k: int| i <= k < orig.len() ==> self.panes@[k] == orig[k],
                forall|k: int|
                    0 <= k < i ==> self.panes@[k] == spec_relayout_pane(orig[k], vp),
            decreases self.panes@.len() - i,
        {
            let p = self.panes[i];
            let mut g = p.geom;
            let is_pct = match (g.cols.constraint, g.rows.constraint) {
                (Constraint::Percent(_), Constraint::Percent(_)) => true,
                _ => false,
            };
            if is_pct {
                let pw = match g.cols.constraint {
                    Constraint::Percent(w) => w,
                    Constraint::Fixed(_) => 0,
                };
                let ph = match g.rows.constraint {
                    Constraint::Percent(h) => h,
                    Constraint::Fixed(_) => 0,
                };
                let (x, len_x) = realize_span(g.px, pw, vp.x, vp.cols);
                let (y, len_y) = realize_span(g.py, ph, vp.y, vp.rows);
                g = PaneGeom {
                    x,
                    y,
                    cols: Dimension { constraint: g.cols.constraint, inner: len_x },
                    rows: Dimension { constraint: g.rows.constraint, inner: len_y },
                    ..g
                };
            }
            let new_override = match p.geom_override {
                Some(_) => Some(fullscreen_geom(vp)),
                None => None,
            };
            let np = Pane { geom: g, geom_override: new_override, ..p };
            let slot = &mut self.panes[i];
            *slot = np;
            proof {
                assert(self.panes@[i as int] == spec_relayout_pane(orig[i as int], vp));
            }
            i = i + 1;
        }
        proof {
            assert(self.panes@ =~= orig.map(|k: int, p: Pane| spec_relayout_pane(p, vp)));
            assert forall|k: int|
                0 <= k < self.panes@.len() implies pane_bounded(#[trigger] self.panes@[k])
                && pane_realized(self.panes@[k], self.viewport) by {
                self.lemma_realize_geom_good(orig[k].geom);
                lemma_realize_in_viewport(0, FULL_PERCENT, vp.x, vp.cols);
                lemma_realize_in_viewport(0, FULL_PERCENT, vp.y, vp.rows);
            }
        }
    }

    /// Refresh every pane's frame flag and content offset, and report the new
    /// content sizes of the terminal panes so the PTY host can push them.
    pub fn set_pane_frames(&mut self, draw_pane_frames: bool) -> (msgs: Vec<OutboundMessage>)
        requires
            forall|i: int|
                0 <= i < old(self).panes_s().len() ==> pane_bounded(#[trigger] old(self).panes_s()[i]),
        ensures
            final(self).panes_s() == old(self).panes_s().map(
                |i: int, p: Pane| spec_frames_pane(p, old(self).viewport, draw_pane_frames),
            ),
            *final(self) == (Tab {
                panes: final(self).panes,
                draw_pane_frames: draw_pane_frames,
                ..*old(self)
            }),
            msgs@ == spec_frame_msgs(
                old(self).panes_s().map(
                    |i: int, p: Pane| spec_frames_pane(p, old(self).viewport, draw_pane_frames),
                ),
                0,
            ),
    {
        let ghost orig = self.panes@;
        let ghost target = orig.map(
            |k: int, p: Pane| spec_frames_pane(p, old(self).viewport, draw_pane_frames),
        );
        proof {
            assert forall|k: int| 0 <= k < orig.len() implies pane_bounded(#[trigger] orig[k]) by {
                assert(pane_bounded(old(self).panes_s()[k]));
            }
        }
        self.draw_pane_frames = draw_pane_frames;
        let vp = self.viewport;
        let mut msgs: Vec<OutboundMessage> = Vec::new();
        let mut i: usize = 0;
        while i < self.panes.len()
            invariant
                *self == (Tab { panes: self.panes, draw_pane_frames: draw_pane_frames, ..*old(self) }),
                vp == old(self).viewport,
                i <= self.panes@.len(),
                self.panes@.len() == orig.len(),
                target == orig.map(
                    |k: int, p: Pane| spec_frames_pane(p, vp, draw_pane_frames),
                ),
                forall|k: int| 0 <= k < orig.len() ==> pane_bounded(#[trigger] orig[k]),
                forall|k: int| i <= k < orig.len() ==> self.panes@[k] == orig[k],
                forall|k: int|
                    0 <= k < i ==> self.panes@[k] == spec_frames_pane(orig[k], vp, draw_pane_frames),
                msgs@ + spec_frame_msgs(target, i as int) == spec_frame_msgs(target, 0),
            decreases self.panes@.len() - i,
        {
            let p = self.panes[i];
            let offset: Offset = if !p.selectable {
                Offset::zero()
            } else if draw_pane_frames {
                Offset::frame(1)
            } else {
                let g = match p.geom_override {
                    Some(o) => o,
                    None => p.geom,
                };
                let (cols_offset, rows_offset) = crate::geom::pane_content_offset(&g, &vp);
                Offset::shift(rows_offset, cols_offset)
            };
            let np = Pane { frame: draw_pane_frames, content_offset: offset, ..p };
            let slot = &mut self.panes[i];
            *slot = np;
            proof {
                assert(self.panes@[i as int] == spec_frames_pane(orig[i as int], vp, draw_pane_frames));
            }
            proof {
                assert(target[i as int] == np);
            }
            match np.pid {
                PaneId::Terminal(fd) => {
                    let cc = np.get_content_columns();
                    let cr = np.get_content_rows();
                    let ghost msgs_before = msgs@;
                    msgs.push(OutboundMessage::SetTerminalSize(fd, cc, cr));
                    proof {
                        assert(msgs@ =~= msgs_before + seq![
                            OutboundMessage::SetTerminalSize(
                                fd,
                                spec_content_columns_clamped(target[i as int]) as usize,
                                spec_content_rows_clamped(target[i as int]) as usize,
                            ),
                        ]);
                        assert(msgs@ + spec_frame_msgs(target, i + 1) =~= spec_frame_msgs(
                            target,
                            0,
                        ));
                    }
                }
                PaneId::Plugin(_) => {
                    proof {
                        assert(msgs@ + spec_frame_msgs(target, i + 1) =~= spec_frame_msgs(
                            target,
                            0,
                        ));
                    }
                }
            }
            i = i + 1;
        }
        proof {
            assert(self.panes@ =~= orig.map(
                |k: int, p: Pane| spec_frames_pane(p, vp, draw_pane_frames),
            ));
            assert(msgs@ =~= spec_frame_msgs(target, 0));
        }
        msgs
    }

    /// The tab after frames are refreshed, as a whole.
    pub open spec fn spec_after_frames(self, draw: bool) -> Tab {
        Tab {
            panes: self.panes,
            draw_pane_frames: draw,
            ..self
        }
    }

    /// Refreshing frames and offsets preserves the tab invariant.
    pub proof fn lemma_frames_preserve_wf(a: Tab, b: Tab, draw: bool)
        requires
            a.well_formed(),
            b.panes_s() == a.panes_s().map(|i: int, p: Pane| spec_frames_pane(p, a.viewport, draw)),
            b == (Tab { panes: b.panes, draw_pane_frames: draw, ..a }),
        ensures
            b.well_formed(),
    {
        Tab::lemma_wf_same_structure(a, b);
    }

    /// Re-derive every cell rectangle along one axis of the display. Both
    /// axes are derived from the same percent state, so the realization runs
    /// over the whole geometry whichever axis changed.
    pub fn relayout_tab(&mut self, direction: Direction) -> (msgs: Vec<OutboundMessage>)
        requires
            old(self).well_formed_except_cells(),
        ensures
            final(self).well_formed(),
            final(self).panes_s() == old(self).panes_s().map(
                |i: int, p: Pane| spec_frames_pane(
                    spec_relayout_pane(p, old(self).viewport),
                    old(self).viewport,
                    old(self).draw_pane_frames,
                ),
            ),
            *final(self) == (Tab { panes: final(self).panes, ..*old(self) }),
    {
        let ghost mid_target = Tab {
            panes: self.panes,
            ..*old(self)
        };
        let draw = self.draw_pane_frames;
        self.relayout_all();
        let msgs = self.set_pane_frames(draw);
        proof {
            let a = *old(self);
            assert(self.panes@ =~= a.panes@.map(
                |i: int, p: Pane| spec_frames_pane(
                    spec_relayout_pane(p, a.viewport),
                    a.viewport,
                    a.draw_pane_frames,
                ),
            ));
            Tab::lemma_wf_relaid(a, *self);
        }
        let _ = direction;
        msgs
    }

    /// Resize the whole tab to a new display size: the viewport keeps its
    /// origin and its fixed surroundings and takes up the change, every cell
    /// rectangle is re-derived, and the next render clears the display first.
    ///
    /// The new size must leave room for the fixed surroundings of the
    /// viewport (the registered bars): a display smaller than its own insets
    /// cannot be laid out, and the caller keeps the previous size instead of
    /// asking for one.
    pub fn resize_whole_tab(&mut self, new_screen_size: Size) -> (msgs: Vec<OutboundMessage>)
        requires
            old(self).well_formed_except_cells(),
            new_screen_size.cols <= MAX_AXIS_CELLS,
            new_screen_size.rows <= MAX_AXIS_CELLS,
            new_screen_size.cols >= old(self).display_area.cols - old(self).viewport.cols,
            new_screen_size.rows >= old(self).display_area.rows - old(self).viewport.rows,
        ensures
            final(self).well_formed(),
            final(self).display_area == new_screen_size,
            final(self).viewport.x == old(self).viewport.x,
            final(self).viewport.y == old(self).viewport.y,
            final(self).viewport.cols == new_screen_size.cols - (old(self).display_area.cols
                - old(self).viewport.cols),
            final(self).viewport.rows == new_screen_size.rows - (old(self).display_area.rows
                - old(self).viewport.rows),
            final(self).should_clear_display_before_rendering,
            final(self).panes_s() == old(self).panes_s().map(
                |i: int, p: Pane| spec_frames_pane(
                    spec_relayout_pane(p, final(self).viewport),
                    final(self).viewport,
                    old(self).draw_pane_frames,
                ),
            ),
            *final(self) == (Tab {
                panes: final(self).panes,
                viewport: final(self).viewport,
                display_area: new_screen_size,
                should_clear_display_before_rendering: true,
                ..*old(self)
            }),
    {
        let col_inset = self.display_area.cols - self.viewport.cols;
        let row_inset = self.display_area.rows - self.viewport.rows;
        let new_vp = Viewport {
            x: self.viewport.x,
            y: self.viewport.y,
            cols: new_screen_size.cols - col_inset,
            rows: new_screen_size.rows - row_inset,
        };
        proof {
            assert(new_vp.x + new_vp.cols <= new_screen_size.cols);
            assert(new_vp.y + new_vp.rows <= new_screen_size.rows);
        }
        self.viewport = new_vp;
        self.display_area = new_screen_size;
        self.should_clear_display_before_rendering = true;
        let draw = self.draw_pane_frames;
        self.relayout_all();
        let msgs = self.set_pane_frames(draw);
        proof {
            let a = *old(self);
            assert(self.panes@ =~= a.panes@.map(
                |i: int, p: Pane| spec_frames_pane(
                    spec_relayout_pane(p, new_vp),
                    new_vp,
                    a.draw_pane_frames,
                ),
            ));
            Tab::lemma_wf_relaid(a, *self);
        }
        msgs
    }
}

} // verus!
