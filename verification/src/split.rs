//! Splitting: a new pane takes half of an existing pane's percent extent.
//! The explicit splits halve the active pane; `new_pane` picks the largest
//! splittable pane and chooses the axis by the pane's proportions.
use vstd::prelude::*;

use crate::geom::{
    Constraint, Dimension, PaneGeom, FULL_PERCENT, MIN_TERMINAL_HEIGHT, MIN_TERMINAL_WIDTH,
    CURSOR_HEIGHT_WIDTH_RATIO, split_vertically, split_horizontally,
};
use crate::layout::spec_realize_geom;
use crate::pane::{Pane, PaneId};
use crate::tab::{Direction, OutboundMessage, Tab, pane_bounded};

verus! {

/// The left/top half an even split leaves to the split pane.
pub open spec fn spec_first_half_v(g: PaneGeom) -> PaneGeom {
    let p = g.pw();
    PaneGeom {
        cols: Dimension { constraint: Constraint::Percent((p - p / 2) as u32), ..g.cols },
        ..g
    }
}

/// The right/bottom half an even split gives to the new pane.
pub open spec fn spec_second_half_v(g: PaneGeom) -> PaneGeom {
    let p = g.pw();
    PaneGeom {
        x: (g.x + 1) as usize,
        px: (g.px + (p - p / 2)) as u32,
        cols: Dimension { constraint: Constraint::Percent(p / 2), ..g.cols },
        ..g
    }
}

pub open spec fn spec_first_half_h(g: PaneGeom) -> PaneGeom {
    let p = g.ph();
    PaneGeom {
        rows: Dimension { constraint: Constraint::Percent((p - p / 2) as u32), ..g.rows },
        ..g
    }
}

pub open spec fn spec_second_half_h(g: PaneGeom) -> PaneGeom {
    let p = g.ph();
    PaneGeom {
        y: (g.y + 1) as usize,
        py: (g.py + (p - p / 2)) as u32,
        rows: Dimension { constraint: Constraint::Percent(p / 2), ..g.rows },
        ..g
    }
}

/// `b` is `a` after the pane `aid` was split along the given axis and the new
/// pane `newid` took the second half: every other pane stands where it stood,
/// and the new pane has focus.
pub open spec fn splits_pane(a: Tab, b: Tab, aid: PaneId, newid: PaneId, horizontal: bool) -> bool {
    let g = a.pane_of(aid).geom;
    let g1 = if horizontal {
        spec_first_half_h(g)
    } else {
        spec_first_half_v(g)
    };
    let g2 = if horizontal {
        spec_second_half_h(g)
    } else {
        spec_second_half_v(g)
    };
    &&& b.panes_s().len() == a.panes_s().len() + 1
    &&& b.active_terminal == Some(newid)
    &&& b.viewport == a.viewport
    &&& b.display_area == a.display_area
    &&& !b.fullscreen_is_active
    &&& b.has_pane(newid)
    &&& forall|pid: PaneId| a.has_pane(pid) ==> b.has_pane(pid)
    &&& forall|pid: PaneId| #[trigger] b.has_pane(pid) ==> pid == newid || a.has_pane(pid)
    &&& b.pane_of(newid).geom == spec_realize_geom(g2, a.viewport)
    &&& b.pane_of(newid).selectable
    &&& b.pane_of(newid).geom_override is None
    &&& b.pane_of(aid).geom == spec_realize_geom(g1, a.viewport)
    &&& b.pane_of(aid).selectable == a.pane_of(aid).selectable
    &&& forall|pid: PaneId|
        #[trigger] a.has_pane(pid) && pid != aid && pid != newid ==> {
            &&& b.pane_of(pid).geom == spec_realize_geom(a.pane_of(pid).geom, a.viewport)
            &&& b.pane_of(pid).selectable == a.pane_of(pid).selectable
        }
}

impl Tab {
    /// Insert a pane at its place in the id order.
    fn insert_pane_sorted(&mut self, p: Pane) -> (pos: usize)
        requires
            old(self).ids_sorted(),
            !old(self).has_pane(p.pid),
        ensures
            pos <= old(self).panes_s().len(),
            final(self).panes_s() == old(self).panes_s().insert(pos as int, p),
            final(self).ids_sorted(),
            *final(self) == (Tab { panes: final(self).panes, ..*old(self) }),
    {
        let mut pos: usize = 0;
        while pos < self.panes.len() && self.panes[pos].pid.lt(p.pid)
            invariant
                *self == *old(self),
                pos <= self.panes_s().len(),
                forall|k: int| 0 <= k < pos ==> (#[trigger] self.panes_s()[k].pid).spec_lt(p.pid),
            decreases self.panes_s().len() - pos,
        {
            pos = pos + 1;
        }
        proof {
            if (pos as int) < self.panes_s().len() {
                let q = self.panes_s()[pos as int].pid;
                assert(q != p.pid) by {
                    if q == p.pid {
                        assert(Tab::seq_has_id(self.panes_s(), p.pid));
                    }
                }
                assert(p.pid.spec_lt(q) || q.spec_lt(p.pid) || p.pid == q) by {
                    crate::pane::lemma_pane_id_order(p.pid, q);
                }
            }
        }
        let ghost before = self.panes@;
        self.panes.insert(pos, p);
        proof {
            assert forall|k: int, l: int|
                0 <= k < l < self.panes@.len() implies (#[trigger] self.panes@[k].pid).spec_lt(
                #[trigger] self.panes@[l].pid,
            ) by {
                if k < pos as int && l == pos as int {
                    assert(self.panes@[k] == before[k]);
                } else if k == pos as int && l > pos as int {
                    assert(self.panes@[l] == before[l - 1]);
                    assert(!before[l - 1].pid.spec_lt(p.pid));
                    assert(before[l - 1].pid != p.pid) by {
                        if before[l - 1].pid == p.pid {
                            assert(Tab::seq_has_id(before, p.pid));
                        }
                    }
                    crate::pane::lemma_pane_id_order(p.pid, before[l - 1].pid);
                } else if k < pos as int && l > pos as int {
                    assert(self.panes@[k] == before[k]);
                    assert(self.panes@[l] == before[l - 1]);
                    if l - 1 == k {
                        assert(false);
                    }
                } else if k > pos as int {
                    assert(self.panes@[k] == before[k - 1]);
                    assert(self.panes@[l] == before[l - 1]);
                } else {
                    assert(self.panes@[k] == before[k]);
                    assert(self.panes@[l] == before[l]);
                }
            }
        }
        pos
    }

    /// Install the given pane as the only content of an empty tab.
    fn install_first_pane(&mut self, term_pid: i32) -> (msgs: Vec<OutboundMessage>)
        requires
            old(self).well_formed(),
            old(self).panes_s().len() == 0,
        ensures
            final(self).well_formed(),
            final(self).panes_s().len() == 1,
            final(self).panes_s()[0].pid == PaneId::Terminal(term_pid),
            final(self).active_terminal == Some(PaneId::Terminal(term_pid)),
            final(self).panes_s()[0].geom == spec_realize_geom(
                crate::construct::spec_full_viewport_geom(old(self).viewport),
                old(self).viewport,
            ),
            *final(self) == (Tab {
                panes: final(self).panes,
                active_terminal: Some(PaneId::Terminal(term_pid)),
                ..*old(self)
            }),
    {
        let vp = self.viewport;
        let (x, len_x) = crate::geom::realize_span(0, FULL_PERCENT, vp.x, vp.cols);
        let (y, len_y) = crate::geom::realize_span(0, FULL_PERCENT, vp.y, vp.rows);
        let geom = PaneGeom {
            x,
            y,
            px: 0,
            py: 0,
            cols: Dimension { constraint: Constraint::Percent(FULL_PERCENT), inner: len_x },
            rows: Dimension { constraint: Constraint::Percent(FULL_PERCENT), inner: len_y },
        };
        let position = self.get_next_selectable_pane_position();
        let new_terminal = Pane::new(PaneId::Terminal(term_pid), geom, position);
        let mut msgs: Vec<OutboundMessage> = Vec::new();
        msgs.push(OutboundMessage::SetTerminalSize(term_pid, len_x, len_y));
        self.panes.push(new_terminal);
        self.active_terminal = Some(PaneId::Terminal(term_pid));
        proof {
            crate::geom::lemma_realize_in_viewport(0, FULL_PERCENT, vp.x, vp.cols);
            crate::geom::lemma_realize_in_viewport(0, FULL_PERCENT, vp.y, vp.rows);
            assert(self.panes_s()[0].pid == PaneId::Terminal(term_pid));
            assert(self.panes_s() =~= seq![new_terminal]);
        }
        msgs
    }

    /// Split the given pane along the given axis, installing a new terminal
    /// pane in the second half and focusing it. The caller has checked the
    /// pane is percent-sized and large enough.
    fn split_and_install(
        &mut self,
        victim_idx: usize,
        term_pid: i32,
        horizontal: bool,
    ) -> (msgs: Vec<OutboundMessage>)
        requires
            old(self).well_formed(),
            !old(self).fullscreen_is_active,
            victim_idx < old(self).panes_s().len(),
            !old(self).has_pane(PaneId::Terminal(term_pid)),
            old(self).panes_s()[victim_idx as int].geom.is_percent(),
        ensures
            final(self).well_formed(),
            splits_pane(
                *old(self),
                *final(self),
                old(self).panes_s()[victim_idx as int].pid,
                PaneId::Terminal(term_pid),
                horizontal,
            ),
    {
        let ghost a = *old(self);
        let ghost aid = a.panes_s()[victim_idx as int].pid;
        let newid = PaneId::Terminal(term_pid);
        proof {
            a.lemma_idx_unique(victim_idx as int, aid);
            assert(pane_bounded(a.panes_s()[victim_idx as int]));
        }
        let victim = self.panes[victim_idx];
        let g = victim.geom;
        let halves = if horizontal {
            split_horizontally(&g)
        } else {
            split_vertically(&g)
        };
        let (first, second) = match halves {
            Some(pair) => pair,
            None => {
                proof {
                    assert(false);
                }
                (g, g)
            }
        };
        let position = self.get_next_selectable_pane_position();
        let slot = &mut self.panes[victim_idx];
        slot.geom = first;
        slot.should_render = true;
        let new_pane = Pane::new(newid, second, position);
        let pos = self.insert_pane_sorted(new_pane);
        self.active_terminal = Some(newid);
        let ghost s2 = *self;
        proof {
            let mid = a.panes_s().update(victim_idx as int, Pane { geom: first, should_render: true, ..a.panes_s()[victim_idx as int] });
            assert(s2.panes_s() == mid.insert(pos as int, new_pane));
            assert forall|k: int|
                0 <= k < s2.panes_s().len() implies pane_bounded(#[trigger] s2.panes_s()[k]) && (
            s2.panes_s()[k].geom_override) is None by {
                if k == pos as int {
                    assert(s2.panes_s()[k] == new_pane);
                    assert(crate::tab::pane_realized(a.panes_s()[victim_idx as int], a.viewport));
                    crate::geom::lemma_realize_in_viewport(g.px, g.pw(), a.viewport.x, a.viewport.cols);
                    crate::geom::lemma_realize_in_viewport(g.py, g.ph(), a.viewport.y, a.viewport.rows);
                    assert(pane_bounded(a.panes_s()[victim_idx as int]));
                } else {
                    let k0: int = if k < pos as int {
                        k
                    } else {
                        k - 1
                    };
                    assert(s2.panes_s()[k] == mid[k0]);
                    assert(pane_bounded(a.panes_s()[k0]));
                    assert((a.panes_s()[k0].geom_override) is None) by {
                        if (a.panes_s()[k0].geom_override) is Some {
                            assert(a.fullscreen_is_active);
                        }
                    }
                }
            }
            assert(Tab::seq_has_id(s2.panes_s(), newid)) by {
                assert(s2.panes_s()[pos as int].pid == newid);
            }
            assert(self.well_formed_except_cells());
        }
        let msgs = self.relayout_tab(
            if horizontal {
                Direction::Vertical
            } else {
                Direction::Horizontal
            },
        );
        proof {
            Self::lemma_split_shape(a, s2, *self, victim_idx as int, pos as int, first, second, new_pane, horizontal);
        }
        msgs
    }

    /// The tab holds fewer panes than its cap asks for, so nothing is
    /// trimmed before a split.
    pub open spec fn under_pane_cap(self) -> bool {
        match self.max_panes {
            Some(max) => self.panes_s().len() < max,
            None => true,
        }
    }

    /// Split the active pane in half along one axis and hand the second half
    /// to a new terminal pane, which takes focus. The split is refused — and
    /// the spawned child handed back for closing — when the active pane is
    /// too small on the split axis, is not percent-sized, or when no pane can
    /// take the new one.
    fn explicit_split(&mut self, pid: PaneId, horizontal: bool) -> (msgs: Vec<OutboundMessage>)
        requires
            old(self).well_formed(),
        ensures
            final(self).well_formed(),
            ({
                &&& !old(self).fullscreen_is_active
                &&& old(self).under_pane_cap()
                &&& old(self).panes_s().len() > 0
                &&& pid matches PaneId::Terminal(_)
                &&& !old(self).has_pane(pid)
                &&& old(self).active_terminal matches Some(aid) && old(self).has_pane(aid)
                    && old(self).pane_of(aid).geom.is_percent() && (if horizontal {
                    old(self).pane_of(aid).geom.rows.inner >= 2 * MIN_TERMINAL_HEIGHT
                } else {
                    old(self).pane_of(aid).geom.cols.inner >= 2 * MIN_TERMINAL_WIDTH
                })
            }) ==> splits_pane(
                *old(self),
                *final(self),
                old(self).active_terminal.unwrap(),
                pid,
                horizontal,
            ),
            ({
                &&& !old(self).fullscreen_is_active
                &&& old(self).under_pane_cap()
                &&& old(self).panes_s().len() > 0
                &&& pid matches PaneId::Terminal(_)
                &&& !old(self).has_pane(pid)
                &&& match old(self).active_terminal {
                    Some(aid) => old(self).has_pane(aid) && !(old(self).pane_of(
                        aid,
                    ).geom.is_percent() && (if horizontal {
                        old(self).pane_of(aid).geom.rows.inner >= 2 * MIN_TERMINAL_HEIGHT
                    } else {
                        old(self).pane_of(aid).geom.cols.inner >= 2 * MIN_TERMINAL_WIDTH
                    })),
                    None => true,
                }
            }) ==> *final(self) == *old(self) && msgs@ == seq![
                crate::tab::OutboundMessage::PtyClose(pid),
            ],
            ({
                &&& !old(self).fullscreen_is_active
                &&& old(self).under_pane_cap()
                &&& pid matches PaneId::Plugin(_)
            }) ==> *final(self) == *old(self) && msgs@.len() == 0,
            ({
                &&& !old(self).fullscreen_is_active
                &&& old(self).under_pane_cap()
                &&& pid matches PaneId::Terminal(_)
                &&& old(self).has_pane(pid)
            }) ==> *final(self) == *old(self) && msgs@.len() == 0,
    {
        let mut msgs = self.close_down_to_max_terminals();
        if self.fullscreen_is_active {
            let mut m = self.toggle_active_pane_fullscreen();
            msgs.append(&mut m);
        }
        let term_pid = match pid {
            PaneId::Terminal(fd) => fd,
            PaneId::Plugin(_) => {
                return msgs;
            }
        };
        if self.has_terminal_pid(term_pid) {
            return msgs;
        }
        if !self.has_panes() {
            let mut m = self.install_first_pane(term_pid);
            msgs.append(&mut m);
            return msgs;
        }
        let aid = match self.active_terminal {
            Some(aid) => aid,
            None => {
                msgs.push(OutboundMessage::PtyClose(pid));
                return msgs;
            }
        };
        let i = match self.find_pane(aid) {
            Some(i) => i,
            None => {
                msgs.push(OutboundMessage::PtyClose(pid));
                return msgs;
            }
        };
        proof {
            self.lemma_idx_unique(i as int, aid);
        }
        let g = self.panes[i].geom;
        let is_pct = match (g.cols.constraint, g.rows.constraint) {
            (Constraint::Percent(_), Constraint::Percent(_)) => true,
            _ => false,
        };
        let axis_ok = if horizontal {
            g.rows.inner >= 2 * MIN_TERMINAL_HEIGHT
        } else {
            g.cols.inner >= 2 * MIN_TERMINAL_WIDTH
        };
        if !is_pct || !axis_ok {
            msgs.push(OutboundMessage::PtyClose(pid));
            return msgs;
        }
        let mut m = self.split_and_install(i, term_pid, horizontal);
        msgs.append(&mut m);
        msgs
    }

    /// Split the active pane top and bottom; the new pane takes the bottom.
    pub fn horizontal_split(&mut self, pid: PaneId) -> (msgs: Vec<OutboundMessage>)
        requires
            old(self).well_formed(),
        ensures
            final(self).well_formed(),
            ({
                &&& !old(self).fullscreen_is_active
                &&& old(self).under_pane_cap()
                &&& old(self).panes_s().len() > 0
                &&& pid matches PaneId::Terminal(_)
                &&& !old(self).has_pane(pid)
                &&& old(self).active_terminal matches Some(aid) && old(self).has_pane(aid)
                    && old(self).pane_of(aid).geom.is_percent() && old(self).pane_of(
                    aid,
                ).geom.rows.inner >= 2 * MIN_TERMINAL_HEIGHT
            }) ==> splits_pane(
                *old(self),
                *final(self),
                old(self).active_terminal.unwrap(),
                pid,
                true,
            ),
            ({
                &&& !old(self).fullscreen_is_active
                &&& old(self).under_pane_cap()
                &&& old(self).panes_s().len() > 0
                &&& pid matches PaneId::Terminal(_)
                &&& !old(self).has_pane(pid)
                &&& match old(self).active_terminal {
                    Some(aid) => old(self).has_pane(aid) && !(old(self).pane_of(
                        aid,
                    ).geom.is_percent() && old(self).pane_of(aid).geom.rows.inner >= 2 * MIN_TERMINAL_HEIGHT),
                    None => true,
                }
            }) ==> *final(self) == *old(self) && msgs@ == seq![
                crate::tab::OutboundMessage::PtyClose(pid),
            ],
            ({
                &&& !old(self).fullscreen_is_active
                &&& old(self).under_pane_cap()
                &&& pid matches PaneId::Plugin(_)
            }) ==> *final(self) == *old(self) && msgs@.len() == 0,
            ({
                &&& !old(self).fullscreen_is_active
                &&& old(self).under_pane_cap()
                &&& pid matches PaneId::Terminal(_)
                &&& old(self).has_pane(pid)
            }) ==> *final(self) == *old(self) && msgs@.len() == 0,
    {
        self.explicit_split(pid, true)
    }

    /// Split the active pane left and right; the new pane takes the right.
    pub fn vertical_split(&mut self, pid: PaneId) -> (msgs: Vec<OutboundMessage>)
        requires
            old(self).well_formed(),
        ensures
            final(self).well_formed(),
            ({
                &&& !old(self).fullscreen_is_active
                &&& old(self).under_pane_cap()
                &&& old(self).panes_s().len() > 0
                &&& pid matches PaneId::Terminal(_)
                &&& !old(self).has_pane(pid)
                &&& old(self).active_terminal matches Some(aid) && old(self).has_pane(aid)
                    && old(self).pane_of(aid).geom.is_percent() && old(self).pane_of(
                    aid,
                ).geom.cols.inner >= 2 * MIN_TERMINAL_WIDTH
            }) ==> splits_pane(
                *old(self),
                *final(self),
                old(self).active_terminal.unwrap(),
                pid,
                false,
            ),
            ({
                &&& !old(self).fullscreen_is_active
                &&& old(self).under_pane_cap()
                &&& old(self).panes_s().len() > 0
                &&& pid matches PaneId::Terminal(_)
                &&& !old(self).has_pane(pid)
                &&& match old(self).active_terminal {
                    Some(aid) => old(self).has_pane(aid) && !(old(self).pane_of(
                        aid,
                    ).geom.is_percent() && old(self).pane_of(aid).geom.cols.inner >= 2 * MIN_TERMINAL_WIDTH),
                    None => true,
                }
            }) ==> *final(self) == *old(self) && msgs@ == seq![
                crate::tab::OutboundMessage::PtyClose(pid),
            ],
            ({
                &&& !old(self).fullscreen_is_active
                &&& old(self).under_pane_cap()
                &&& pid matches PaneId::Plugin(_)
            }) ==> *final(self) == *old(self) && msgs@.len() == 0,
            ({
                &&& !old(self).fullscreen_is_active
                &&& old(self).under_pane_cap()
                &&& pid matches PaneId::Terminal(_)
                &&& old(self).has_pane(pid)
            }) ==> *final(self) == *old(self) && msgs@.len() == 0,
    {
        self.explicit_split(pid, false)
    }

    /// The pane is big enough to be halved on some axis and shares its space
    /// by percent.
    pub open spec fn spec_can_be_split(p: Pane) -> bool {
        &&& p.geom.cols.inner >= MIN_TERMINAL_WIDTH
        &&& p.geom.rows.inner >= MIN_TERMINAL_HEIGHT
        &&& (p.geom.cols.inner > 2 * MIN_TERMINAL_WIDTH || p.geom.rows.inner > 2
            * MIN_TERMINAL_HEIGHT)
        &&& p.geom.is_percent()
    }

    /// The figure by which panes compete for a split: the cell area, with
    /// rows scaled by the height-to-width ratio of a cell.
    pub open spec fn spec_split_score(p: Pane) -> int {
        p.geom.rows.inner * CURSOR_HEIGHT_WIDTH_RATIO * p.geom.cols.inner
    }

    /// A pane that is much taller than wide is stacked; otherwise it is
    /// split side by side.
    pub open spec fn spec_split_horizontally_chosen(p: Pane) -> bool {
        p.geom.rows.inner * CURSOR_HEIGHT_WIDTH_RATIO > p.geom.cols.inner && p.geom.rows.inner > 2
            * MIN_TERMINAL_HEIGHT
    }

    /// Open a new pane: the largest splittable pane is halved, along the axis
    /// its proportions suggest, and the new pane takes the freed half and the
    /// focus. With nothing splittable the spawned child is handed back for
    /// closing.
    pub fn new_pane(&mut self, pid: PaneId) -> (msgs: Vec<OutboundMessage>)
        requires
            old(self).well_formed(),
        ensures
            final(self).well_formed(),
            ({
                &&& !old(self).fullscreen_is_active
                &&& old(self).under_pane_cap()
                &&& pid matches PaneId::Plugin(_)
            }) ==> *final(self) == *old(self) && msgs@.len() == 0,
            ({
                &&& !old(self).fullscreen_is_active
                &&& old(self).under_pane_cap()
                &&& pid matches PaneId::Terminal(_)
                &&& old(self).has_pane(pid)
            }) ==> *final(self) == *old(self) && msgs@.len() == 0,
            ({
                &&& !old(self).fullscreen_is_active
                &&& old(self).under_pane_cap()
                &&& old(self).panes_s().len() > 0
                &&& pid matches PaneId::Terminal(_)
                &&& !old(self).has_pane(pid)
            }) ==> if exists|k: int|
                0 <= k < old(self).panes_s().len() && Self::spec_can_be_split(
                    #[trigger] old(self).panes_s()[k],
                ) {
                exists|vi: int|
                    {
                        &&& 0 <= vi < old(self).panes_s().len()
                        &&& Self::spec_can_be_split(#[trigger] old(self).panes_s()[vi])
                        &&& forall|k: int|
                            0 <= k < old(self).panes_s().len() && Self::spec_can_be_split(
                                #[trigger] old(self).panes_s()[k],
                            ) ==> Self::spec_split_score(old(self).panes_s()[k])
                                <= Self::spec_split_score(old(self).panes_s()[vi])
                        &&& splits_pane(
                            *old(self),
                            *final(self),
                            old(self).panes_s()[vi].pid,
                            pid,
                            Self::spec_split_horizontally_chosen(old(self).panes_s()[vi]),
                        )
                    }
            } else {
                *final(self) == *old(self) && msgs@ == seq![OutboundMessage::PtyClose(pid)]
            },
    {
        let mut msgs = self.close_down_to_max_terminals();
        if self.fullscreen_is_active {
            let mut m = self.toggle_active_pane_fullscreen();
            msgs.append(&mut m);
        }
        let term_pid = match pid {
            PaneId::Terminal(fd) => fd,
            PaneId::Plugin(_) => {
                return msgs;
            }
        };
        if self.has_terminal_pid(term_pid) {
            return msgs;
        }
        if !self.has_panes() {
            let mut m = self.install_first_pane(term_pid);
            msgs.append(&mut m);
            return msgs;
        }
        // Pick the largest splittable pane.
        let mut best: Option<usize> = None;
        let mut best_score: u64 = 0;
        let mut i: usize = 0;
        while i < self.panes.len()
            invariant
                self.well_formed(),
                i <= self.panes_s().len(),
                match best {
                    Some(b) => b < i && Self::spec_can_be_split(self.panes_s()[b as int])
                        && best_score == Self::spec_split_score(self.panes_s()[b as int]) && forall|
                        k: int,
                    |
                        0 <= k < i && Self::spec_can_be_split(#[trigger] self.panes_s()[k])
                            ==> Self::spec_split_score(self.panes_s()[k]) <= best_score,
                    None => best_score == 0 && forall|k: int|
                        0 <= k < i ==> !Self::spec_can_be_split(#[trigger] self.panes_s()[k]),
                },
            decreases self.panes_s().len() - i,
        {
            let p = self.panes[i];
            proof {
                assert(pane_bounded(self.panes_s()[i as int]));
            }
            let cols = p.geom.cols.inner;
            let rows = p.geom.rows.inner;
            let is_pct = match (p.geom.cols.constraint, p.geom.rows.constraint) {
                (Constraint::Percent(_), Constraint::Percent(_)) => true,
                _ => false,
            };
            let can_split = cols >= MIN_TERMINAL_WIDTH && rows >= MIN_TERMINAL_HEIGHT && (cols > 2
                * MIN_TERMINAL_WIDTH || rows > 2 * MIN_TERMINAL_HEIGHT) && is_pct;
            if can_split {
                proof {
                    assert((rows as int) * (CURSOR_HEIGHT_WIDTH_RATIO as int) * (cols as int)
                        < 0x1000000000000) by (nonlinear_arith)
                        requires
                            0 <= rows <= 2 * crate::geom::MAX_AXIS_CELLS,
                            0 <= cols <= 2 * crate::geom::MAX_AXIS_CELLS,
                            CURSOR_HEIGHT_WIDTH_RATIO == 4,
                    ;
                }
                let score: u64 = (rows as u64) * (CURSOR_HEIGHT_WIDTH_RATIO as u64) * (
                cols as u64);
                let take = match best {
                    None => true,
                    Some(_) => score > best_score,
                };
                if take {
                    best = Some(i);
                    best_score = score;
                }
            }
            i = i + 1;
        }
        let vi = match best {
            Some(vi) => vi,
            None => {
                msgs.push(OutboundMessage::PtyClose(pid));
                proof {
                    if exists|k: int|
                        0 <= k < self.panes_s().len() && Self::spec_can_be_split(
                            #[trigger] self.panes_s()[k],
                        ) {
                        let k = choose|k: int|
                            0 <= k < self.panes_s().len() && Self::spec_can_be_split(
                                #[trigger] self.panes_s()[k],
                            );
                        assert(false);
                    }
                }
                return msgs;
            }
        };
        let victim = self.panes[vi];
        let horizontal = victim.geom.rows.inner * CURSOR_HEIGHT_WIDTH_RATIO > victim.geom.cols.inner
            && victim.geom.rows.inner > 2 * MIN_TERMINAL_HEIGHT;
        proof {
            assert(pane_bounded(self.panes_s()[vi as int]));
        }
        let mut m = self.split_and_install(vi, term_pid, horizontal);
        msgs.append(&mut m);
        msgs
    }

    /// After the halves are installed and the tab relaid, the split relation
    /// holds between the original and the final tab.
    proof fn lemma_split_shape(
        a: Tab,
        s2: Tab,
        b: Tab,
        victim_idx: int,
        pos: int,
        first: PaneGeom,
        second: PaneGeom,
        new_pane: Pane,
        horizontal: bool,
    )
        requires
            a.well_formed(),
            !a.fullscreen_is_active,
            0 <= victim_idx < a.panes_s().len(),
            0 <= pos <= a.panes_s().len(),
            !a.has_pane(new_pane.pid),
            a.panes_s()[victim_idx].geom.is_percent(),
            first == (if horizontal {
                spec_first_half_h(a.panes_s()[victim_idx].geom)
            } else {
                spec_first_half_v(a.panes_s()[victim_idx].geom)
            }),
            second == (if horizontal {
                spec_second_half_h(a.panes_s()[victim_idx].geom)
            } else {
                spec_second_half_v(a.panes_s()[victim_idx].geom)
            }),
            new_pane.geom == second,
            new_pane.selectable,
            new_pane.geom_override is None,
            s2.panes_s() == a.panes_s().update(
                victim_idx,
                Pane { geom: first, should_render: true, ..a.panes_s()[victim_idx] },
            ).insert(pos, new_pane),
            s2.ids_sorted(),
            b.panes_s() == s2.panes_s().map(
                |i: int, p: Pane| crate::layout::spec_frames_pane(
                    crate::layout::spec_relayout_pane(p, a.viewport),
                    a.viewport,
                    a.draw_pane_frames,
                ),
            ),
            b.ids_sorted(),
            b.active_terminal == Some(new_pane.pid),
            b.viewport == a.viewport,
            b.display_area == a.display_area,
            !b.fullscreen_is_active,
        ensures
            splits_pane(a, b, a.panes_s()[victim_idx].pid, new_pane.pid, horizontal),
    {
        let aid = a.panes_s()[victim_idx].pid;
        let newid = new_pane.pid;
        let mid = a.panes_s().update(
            victim_idx,
            Pane { geom: first, should_render: true, ..a.panes_s()[victim_idx] },
        );
        a.lemma_idx_unique(victim_idx, aid);
        assert forall|pid: PaneId| a.has_pane(pid) implies b.has_pane(pid) by {
            let k = choose|k: int| 0 <= k < a.panes_s().len() && a.panes_s()[k].pid == pid;
            let k2: int = if k < pos {
                k
            } else {
                k + 1
            };
            assert(s2.panes_s()[k2].pid == pid);
            assert(b.panes_s()[k2].pid == pid);
        }
        assert(b.has_pane(newid)) by {
            assert(b.panes_s()[pos].pid == newid);
        }
        assert forall|pid: PaneId| #[trigger] b.has_pane(pid) && pid != newid implies a.has_pane(
            pid,
        ) by {
            let k = choose|k: int| 0 <= k < b.panes_s().len() && b.panes_s()[k].pid == pid;
            if k != pos {
                let k0: int = if k < pos {
                    k
                } else {
                    k - 1
                };
                assert(a.panes_s()[k0].pid == pid);
            }
        }
        b.lemma_idx_unique(pos, newid);
        assert(b.pane_of(newid).geom == spec_realize_geom(second, a.viewport));
        let vi2: int = if victim_idx < pos {
            victim_idx
        } else {
            victim_idx + 1
        };
        assert(s2.panes_s()[vi2].pid == aid);
        b.lemma_idx_unique(vi2, aid);
        assert(b.pane_of(aid).geom == spec_realize_geom(first, a.viewport));
        assert forall|pid: PaneId|
            #[trigger] a.has_pane(pid) && pid != aid && pid != newid implies {
                &&& b.pane_of(pid).geom == spec_realize_geom(a.pane_of(pid).geom, a.viewport)
                &&& b.pane_of(pid).selectable == a.pane_of(pid).selectable
            } by {
            let k = choose|k: int| 0 <= k < a.panes_s().len() && a.panes_s()[k].pid == pid;
            a.lemma_idx_unique(k, pid);
            let k2: int = if k < pos {
                k
            } else {
                k + 1
            };
            assert(s2.panes_s()[k2].pid == pid);
            assert(s2.panes_s()[k2] == mid[k]);
            b.lemma_idx_unique(k2, pid);
        }
    }
}

} // verus!
