//! The laws of the partition, stated and proved over the same specification
//! functions the operations' contracts use: disjointness and coverage of the
//! visible panes, exact percent integrity of splits and resize steps, and
//! the round-trip identities of fullscreen, sequential focus, and resizing.
use vstd::prelude::*;

use crate::focus::row_major_lt;
use crate::fullscreen::{enters_fullscreen, exits_fullscreen};
use crate::geom::{PaneGeom, FULL_PERCENT};
use crate::pane::{Pane, PaneId};
use crate::queries::edge_rel_holds;
use crate::resize::{spec_resize_pane, PaneResize};
use crate::split::{
    splits_pane, spec_first_half_v, spec_second_half_v, spec_first_half_h, spec_second_half_h,
};
use crate::tab::Tab;

verus! {

impl Tab {
    /// The pane at index `i` takes part in the visible partition: it is
    /// selectable and not hidden.
    pub open spec fn sel_vis(self, i: int) -> bool {
        &&& 0 <= i < self.panes_s().len()
        &&& self.panes_s()[i].selectable
        &&& !self.hidden(self.panes_s()[i].pid)
    }

    /// Disjointness: the current rectangles of the visible selectable panes
    /// share no percent-space point.
    pub open spec fn panes_disjoint(self) -> bool {
        forall|i: int, j: int|
            #![trigger self.panes_s()[i], self.panes_s()[j]]
            self.sel_vis(i) && self.sel_vis(j) && i != j ==> self.panes_s()[i].current_geom().pct_disjoint(
                self.panes_s()[j].current_geom(),
            )
    }

    /// Some visible selectable pane's current rectangle holds the point.
    pub open spec fn covered_at(self, qx: int, qy: int) -> bool {
        exists|i: int|
            self.sel_vis(i) && (#[trigger] self.panes_s()[i]).current_geom().pct_contains(qx, qy)
    }

    /// Coverage: every percent-space point of the viewport lies in the
    /// current rectangle of some visible selectable pane.
    pub open spec fn panes_cover(self) -> bool {
        forall|qx: int, qy: int|
            0 <= qx < FULL_PERCENT && 0 <= qy < FULL_PERCENT ==> #[trigger] self.covered_at(qx, qy)
    }

    /// The same two predicates over the saved base rectangles of all
    /// selectable panes, fullscreen overrides and hiding set aside.
    pub open spec fn base_disjoint(self) -> bool {
        forall|i: int, j: int|
            #![trigger self.panes_s()[i], self.panes_s()[j]]
            0 <= i < self.panes_s().len() && 0 <= j < self.panes_s().len() && i != j
                && self.panes_s()[i].selectable && self.panes_s()[j].selectable ==> self.panes_s()[i].geom.pct_disjoint(
                self.panes_s()[j].geom,
            )
    }

    /// Some selectable pane's base rectangle holds the point.
    pub open spec fn base_covered_at(self, qx: int, qy: int) -> bool {
        exists|i: int|
            0 <= i < self.panes_s().len() && (#[trigger] self.panes_s()[i]).selectable
                && self.panes_s()[i].geom.pct_contains(qx, qy)
    }

    pub open spec fn base_covers(self) -> bool {
        forall|qx: int, qy: int|
            0 <= qx < FULL_PERCENT && 0 <= qy < FULL_PERCENT ==> #[trigger] self.base_covered_at(
                qx,
                qy,
            )
    }

    /// Outside fullscreen the visible partition is the base partition: base
    /// disjointness and coverage give the visible ones.
    pub proof fn lemma_tiling_without_fullscreen(self)
        requires
            self.well_formed(),
            !self.fullscreen_is_active,
            self.base_disjoint(),
            self.base_covers(),
        ensures
            self.panes_disjoint(),
            self.panes_cover(),
    {
        assert forall|i: int, j: int|
            #![trigger self.panes_s()[i], self.panes_s()[j]]
            self.sel_vis(i) && self.sel_vis(j) && i != j implies self.panes_s()[i].current_geom().pct_disjoint(
            self.panes_s()[j].current_geom(),
        ) by {
            assert((self.panes_s()[i].geom_override) is None) by {
                if (self.panes_s()[i].geom_override) is Some {
                    assert(self.fullscreen_is_active);
                }
            }
            assert((self.panes_s()[j].geom_override) is None) by {
                if (self.panes_s()[j].geom_override) is Some {
                    assert(self.fullscreen_is_active);
                }
            }
        }
        assert forall|qx: int, qy: int|
            0 <= qx < FULL_PERCENT && 0 <= qy < FULL_PERCENT implies #[trigger] self.covered_at(
            qx,
            qy,
        ) by {
            assert(self.base_covered_at(qx, qy));
            let i = choose|i: int|
                0 <= i < self.panes_s().len() && (#[trigger] self.panes_s()[i]).selectable
                    && self.panes_s()[i].geom.pct_contains(qx, qy);
            assert((self.panes_s()[i].geom_override) is None) by {
                if (self.panes_s()[i].geom_override) is Some {
                    assert(self.fullscreen_is_active);
                }
            }
            assert(self.sel_vis(i) && self.panes_s()[i].current_geom().pct_contains(qx, qy));
        }
    }

    /// In fullscreen the visible partition is the single fullscreen pane,
    /// which takes the whole viewport: disjointness and coverage hold by
    /// themselves.
    pub proof fn lemma_tiling_in_fullscreen(self)
        requires
            self.well_formed(),
            self.fullscreen_is_active,
            self.active_terminal matches Some(aid) && self.has_pane(aid) && self.pane_of(
                aid,
            ).selectable,
        ensures
            self.panes_disjoint(),
            self.panes_cover(),
    {
        let aid = self.active_terminal.unwrap();
        let ai = self.idx_of(aid);
        assert forall|i: int, j: int|
            #![trigger self.panes_s()[i], self.panes_s()[j]]
            self.sel_vis(i) && self.sel_vis(j) && i != j implies self.panes_s()[i].current_geom().pct_disjoint(
            self.panes_s()[j].current_geom(),
        ) by {
            if self.panes_s()[i].pid != aid {
                assert(self.hidden(self.panes_s()[i].pid));
            }
            if self.panes_s()[j].pid != aid {
                assert(self.hidden(self.panes_s()[j].pid));
            }
            self.lemma_idx_unique(i, self.panes_s()[i].pid);
            self.lemma_idx_unique(j, self.panes_s()[j].pid);
        }
        assert forall|qx: int, qy: int|
            0 <= qx < FULL_PERCENT && 0 <= qy < FULL_PERCENT implies #[trigger] self.covered_at(
            qx,
            qy,
        ) by {
            assert(self.panes_s()[ai].geom_override is Some) by {
                if self.panes_s()[ai].geom_override is None {
                    if exists|k: int|
                        0 <= k < self.panes_s().len() && (
                        #[trigger] self.panes_s()[k].geom_override) is Some {
                        let k = choose|k: int|
                            0 <= k < self.panes_s().len() && (
                            #[trigger] self.panes_s()[k].geom_override) is Some;
                        assert(Some(self.panes_s()[k].pid) == self.active_terminal);
                        self.lemma_idx_unique(k, aid);
                        assert(false);
                    }
                    assert(!self.fullscreen_is_active);
                }
            }
            assert(crate::tab::pane_realized(self.panes_s()[ai], self.viewport));
            assert(!self.hidden(aid));
            assert(self.sel_vis(ai) && self.panes_s()[ai].current_geom().pct_contains(qx, qy));
        }
    }
    /// Toggling fullscreen twice returns the partition to its former state:
    /// every pane keeps its saved geometry, nothing stays hidden or
    /// overridden, and the focus and the viewport are as they were.
    pub proof fn lemma_fullscreen_round_trip(a: Tab, b: Tab, c: Tab, aid: PaneId)
        requires
            a.well_formed(),
            !a.fullscreen_is_active,
            enters_fullscreen(a, b, aid),
            exits_fullscreen(b, c),
        ensures
            c.panes_s().len() == a.panes_s().len(),
            forall|k: int|
                0 <= k < a.panes_s().len() ==> {
                    &&& (#[trigger] c.panes_s()[k]).pid == a.panes_s()[k].pid
                    &&& c.panes_s()[k].geom == a.panes_s()[k].geom
                    &&& c.panes_s()[k].geom_override == a.panes_s()[k].geom_override
                    &&& c.panes_s()[k].selectable == a.panes_s()[k].selectable
                },
            c.panes_to_hide@.len() == a.panes_to_hide@.len(),
            c.active_terminal == a.active_terminal,
            c.fullscreen_is_active == a.fullscreen_is_active,
            c.viewport == a.viewport,
            c.display_area == a.display_area,
    {
        assert forall|k: int|
            0 <= k < a.panes_s().len() implies (#[trigger] a.panes_s()[k].geom_override)
            is None by {
            if (a.panes_s()[k].geom_override) is Some {
                assert(a.fullscreen_is_active);
            }
        }
    }

    /// Stepping focus forward and then backward in row-major order returns
    /// it to the pane it started from.
    pub proof fn lemma_focus_cycle_round_trip(a: Tab, ai: int, j: int, k: int)
        requires
            a.well_formed(),
            0 <= ai < a.panes_s().len(),
            a.panes_s()[ai].selectable,
            a.spec_focus_next(a.panes_s()[ai], j),
            a.spec_focus_previous(a.panes_s()[j], k),
        ensures
            k == ai,
    {
        let s = a.panes_s();
        let active = s[ai];
        let n = s[j];
        let p = s[k];
        a.lemma_sorted_distinct();
        if exists|w: int|
            0 <= w < s.len() && (#[trigger] s[w]).selectable && row_major_lt(active, s[w]) {
            // Forward went to the least pane above; backward looks below it.
            assert(row_major_lt(active, n));
            assert(exists|w: int|
                0 <= w < s.len() && (#[trigger] s[w]).selectable && row_major_lt(s[w], n)) by {
                assert(s[ai].selectable && row_major_lt(s[ai], n));
            }
            assert(row_major_lt(p, n));
            if k != ai {
                crate::focus::lemma_row_major_total(p, active);
                if row_major_lt(active, p) {
                    // Then p sits strictly between the start and its successor.
                    assert(!row_major_lt(p, n));
                    assert(false);
                } else {
                    // p below the start contradicts p being the greatest below n.
                    assert(row_major_lt(p, active));
                    assert(!row_major_lt(p, active));
                    assert(false);
                }
            }
        } else {
            // Forward wrapped to the least selectable pane of all.
            assert(forall|w: int|
                0 <= w < s.len() && (#[trigger] s[w]).selectable ==> !row_major_lt(s[w], n));
            if exists|w: int|
                0 <= w < s.len() && (#[trigger] s[w]).selectable && row_major_lt(s[w], n) {
                let w = choose|w: int|
                    0 <= w < s.len() && (#[trigger] s[w]).selectable && row_major_lt(s[w], n);
                assert(false);
            }
            // Backward therefore wraps to the greatest selectable pane.
            assert(forall|w: int|
                0 <= w < s.len() && (#[trigger] s[w]).selectable ==> !row_major_lt(p, s[w]));
            if k != ai {
                crate::focus::lemma_row_major_total(p, active);
                if row_major_lt(active, p) {
                    // A pane above the start contradicts the wrap-around case.
                    assert(!row_major_lt(active, p));
                    assert(false);
                } else {
                    assert(row_major_lt(p, active));
                    assert(!row_major_lt(p, active));
                    assert(false);
                }
            }
        }
    }

    /// Splitting a pane redistributes its percent share exactly: the two
    /// halves tile the split pane's percent rectangle, so the shares along
    /// any cut through it still sum as before.
    pub proof fn lemma_split_percent_integrity(g: PaneGeom)
        requires
            g.is_percent(),
            g.px + g.pw() <= FULL_PERCENT,
            g.py + g.ph() <= FULL_PERCENT,
        ensures
            spec_first_half_v(g).pw() + spec_second_half_v(g).pw() == g.pw(),
            spec_first_half_v(g).px == g.px,
            spec_second_half_v(g).px == g.px + spec_first_half_v(g).pw(),
            spec_first_half_v(g).py == g.py && spec_first_half_v(g).ph() == g.ph(),
            spec_second_half_v(g).py == g.py && spec_second_half_v(g).ph() == g.ph(),
            spec_first_half_h(g).ph() + spec_second_half_h(g).ph() == g.ph(),
            spec_first_half_h(g).py == g.py,
            spec_second_half_h(g).py == g.py + spec_first_half_h(g).ph(),
            spec_first_half_h(g).px == g.px && spec_first_half_h(g).pw() == g.pw(),
            spec_second_half_h(g).px == g.px && spec_second_half_h(g).pw() == g.pw(),
    {
    }

    /// One resize step moves percent share, it does not create or destroy
    /// it: the growing pane and a shrinking neighbour change by the same
    /// step, so the shares along any cut through them still sum as before.
    pub proof fn lemma_resize_percent_integrity(p: Pane, q: Pane, by: u32)
        requires
            p.geom.cols.is_percent(),
            q.geom.cols.is_percent(),
            p.geom.px + p.geom.pw() + by <= FULL_PERCENT,
            q.geom.pw() >= by,
        ensures
            spec_resize_pane(p, PaneResize::GrowRight, by).geom.pw() + spec_resize_pane(
                q,
                PaneResize::ShrinkFromLeft,
                by,
            ).geom.pw() == p.geom.pw() + q.geom.pw(),
    {
    }

    /// A resize step and its opposite cancel on the pane they both touch.
    pub proof fn lemma_resize_step_inverse(p: Pane, by: u32)
        requires
            p.geom.cols.is_percent(),
            p.geom.px + p.geom.pw() + by <= FULL_PERCENT,
        ensures
            spec_resize_pane(
                spec_resize_pane(p, PaneResize::GrowRight, by),
                PaneResize::ShrinkFromRight,
                by,
            ) == p,
    {
        let mid = spec_resize_pane(p, PaneResize::GrowRight, by);
        assert(spec_resize_pane(mid, PaneResize::ShrinkFromRight, by).geom == p.geom);
        assert(spec_resize_pane(mid, PaneResize::ShrinkFromRight, by) == p);
    }

    /// The same cancellation on the neighbour that gave the space up.
    pub proof fn lemma_resize_neighbour_inverse(q: Pane, by: u32)
        requires
            q.geom.cols.is_percent(),
            q.geom.pw() >= by,
            q.geom.px + q.geom.pw() <= FULL_PERCENT,
        ensures
            spec_resize_pane(
                spec_resize_pane(q, PaneResize::ShrinkFromLeft, by),
                PaneResize::GrowLeft,
                by,
            ) == q,
    {
        let mid = spec_resize_pane(q, PaneResize::ShrinkFromLeft, by);
        assert(spec_resize_pane(mid, PaneResize::GrowLeft, by).geom == q.geom);
        assert(spec_resize_pane(mid, PaneResize::GrowLeft, by) == q);
    }

    /// A split preserves disjointness and coverage of the base partition:
    /// the two halves tile the split pane's rectangle and every other pane
    /// stands where it stood.
    pub proof fn lemma_split_preserves_tiling(
        a: Tab,
        b: Tab,
        aid: PaneId,
        newid: PaneId,
        horizontal: bool,
    )
        requires
            a.well_formed(),
            b.well_formed(),
            !a.fullscreen_is_active,
            a.has_pane(aid),
            a.pane_of(aid).geom.is_percent(),
            a.pane_of(aid).selectable,
            !a.has_pane(newid),
            splits_pane(a, b, aid, newid, horizontal),
            a.base_disjoint(),
            a.base_covers(),
        ensures
            b.base_disjoint(),
            b.base_covers(),
    {
        let g = a.pane_of(aid).geom;
        let g1 = if horizontal {
            spec_first_half_h(g)
        } else {
            spec_first_half_v(g)
        };
        let g2 = if horizontal {
            spec_second_half_h(g)
        } else {
            spec_second_half_v(g)
        };
        a.lemma_sorted_distinct();
        b.lemma_sorted_distinct();
        // The percent rectangle of each pane of b, by its id.
        assert forall|k: int| 0 <= k < b.panes_s().len() implies {
            let pid = (#[trigger] b.panes_s()[k]).pid;
            &&& b.idx_of(pid) == k
            &&& (pid == newid ==> crate::resize::same_pct(b.panes_s()[k].geom, g2))
            &&& (pid == aid ==> crate::resize::same_pct(b.panes_s()[k].geom, g1))
            &&& (pid != aid && pid != newid ==> a.has_pane(pid) && crate::resize::same_pct(
                b.panes_s()[k].geom,
                a.pane_of(pid).geom,
            ) && b.panes_s()[k].selectable == a.pane_of(pid).selectable)
        } by {
            let pid = b.panes_s()[k].pid;
            b.lemma_idx_unique(k, pid);
            assert(b.has_pane(pid));
        }
        assert(g1.px + g1.pw() <= FULL_PERCENT && g1.py + g1.ph() <= FULL_PERCENT) by {
            assert(crate::tab::pane_bounded(a.panes_s()[a.idx_of(aid)]));
        }
        // Disjointness.
        assert forall|i: int, j: int|
            #![trigger b.panes_s()[i], b.panes_s()[j]]
            0 <= i < b.panes_s().len() && 0 <= j < b.panes_s().len() && i != j
                && b.panes_s()[i].selectable && b.panes_s()[j].selectable implies b.panes_s()[i].geom.pct_disjoint(
            b.panes_s()[j].geom,
        ) by {
            let pi = b.panes_s()[i].pid;
            let pj = b.panes_s()[j].pid;
            assert(pi != pj);
            if pi != aid && pi != newid && pj != aid && pj != newid {
                let i0 = a.idx_of(pi);
                let j0 = a.idx_of(pj);
                a.lemma_idx_unique(i0, pi);
                a.lemma_idx_unique(j0, pj);
                assert(a.panes_s()[i0].geom.pct_disjoint(a.panes_s()[j0].geom));
            } else if (pi == aid && pj == newid) || (pi == newid && pj == aid) {
                assert(g1.pct_disjoint(g2) || g2.pct_disjoint(g1));
            } else {
                // One side is a half of the split pane, the other an
                // untouched pane: the half sits inside the original
                // rectangle, which is disjoint from the untouched pane.
                let other: int = if pi == aid || pi == newid {
                    j
                } else {
                    i
                };
                let po = b.panes_s()[other].pid;
                let o0 = a.idx_of(po);
                a.lemma_idx_unique(o0, po);
                let ai0 = a.idx_of(aid);
                a.lemma_idx_unique(ai0, aid);
                assert(a.panes_s()[o0].geom.pct_disjoint(g) || g.pct_disjoint(
                    a.panes_s()[o0].geom,
                )) by {
                    assert(a.panes_s()[o0].selectable);
                    assert(a.panes_s()[ai0].geom.pct_disjoint(a.panes_s()[o0].geom));
                }
            }
        }
        // Coverage.
        assert forall|qx: int, qy: int|
            0 <= qx < FULL_PERCENT && 0 <= qy < FULL_PERCENT implies #[trigger] b.base_covered_at(
            qx,
            qy,
        ) by {
            assert(a.base_covered_at(qx, qy));
            let i = choose|i: int|
                0 <= i < a.panes_s().len() && (#[trigger] a.panes_s()[i]).selectable
                    && a.panes_s()[i].geom.pct_contains(qx, qy);
            let pid = a.panes_s()[i].pid;
            a.lemma_idx_unique(i, pid);
            if pid == aid {
                let covers_first = if horizontal {
                    qy < g.py + g1.ph()
                } else {
                    qx < g.px + g1.pw()
                };
                if covers_first {
                    let k = b.idx_of(aid);
                    assert(b.has_pane(aid));
                    b.lemma_idx_unique(k, aid);
                    assert(b.panes_s()[k].selectable) by {
                        assert(b.pane_of(aid).selectable == a.pane_of(aid).selectable || b.pane_of(
                            aid,
                        ) == b.pane_of(aid));
                        assert(a.pane_of(aid).selectable);
                        assert(b.pane_of(aid).geom == crate::layout::spec_realize_geom(
                            g1,
                            a.viewport,
                        ));
                    }
                    assert(b.panes_s()[k].geom.pct_contains(qx, qy));
                } else {
                    let k = b.idx_of(newid);
                    assert(b.has_pane(newid));
                    b.lemma_idx_unique(k, newid);
                    assert(b.panes_s()[k].selectable);
                    assert(b.panes_s()[k].geom.pct_contains(qx, qy));
                }
            } else {
                let k = b.idx_of(pid);
                assert(b.has_pane(pid));
                b.lemma_idx_unique(k, pid);
                assert(b.panes_s()[k].selectable && b.panes_s()[k].geom.pct_contains(qx, qy));
            }
        }
    }
    /// A difference of percent coordinates spans at least as many cells as
    /// its share of the axis, short of one cell of rounding at each end.
    pub proof fn lemma_cell_span_lower(a: u32, b: u32, t: usize)
        requires
            a <= b,
            b <= FULL_PERCENT,
            t <= crate::geom::MAX_AXIS_CELLS,
        ensures
            (crate::geom::spec_cell_of(b, t) - crate::geom::spec_cell_of(a, t)) * FULL_PERCENT
                > (b - a) * t - FULL_PERCENT,
    {
        let ca = crate::geom::spec_cell_of(a, t);
        let cb = crate::geom::spec_cell_of(b, t);
        assert(ca * FULL_PERCENT <= a * t && a * t < ca * FULL_PERCENT + FULL_PERCENT && cb
            * FULL_PERCENT <= b * t && b * t < cb * FULL_PERCENT + FULL_PERCENT) by (nonlinear_arith)
            requires
                ca == (a * t) / (FULL_PERCENT as int),
                cb == (b * t) / (FULL_PERCENT as int),
                a >= 0,
                b >= 0,
                t >= 0,
        ;
        assert((b - a) * t == b * t - a * t) by (nonlinear_arith);
    }

    /// The halves of a vertical split keep the width floor, provided half
    /// the split pane's percent share spans two cells more than the floor on
    /// the viewport. The floor is not kept for arbitrarily narrow panes: at
    /// eighty columns a pane ten cells wide splits into five and four.
    pub proof fn lemma_split_cell_minimums(g: PaneGeom, vp: crate::geom::Viewport)
        requires
            g.is_percent(),
            g.px + g.pw() <= FULL_PERCENT,
            vp.x + vp.cols <= crate::geom::MAX_AXIS_CELLS,
            (g.pw() / 2) * vp.cols >= (crate::geom::MIN_TERMINAL_WIDTH + 2) * FULL_PERCENT,
        ensures
            crate::geom::spec_realize_len(
                spec_first_half_v(g).px,
                spec_first_half_v(g).pw(),
                vp.x,
                vp.cols,
            ) >= crate::geom::MIN_TERMINAL_WIDTH,
            crate::geom::spec_realize_len(
                spec_second_half_v(g).px,
                spec_second_half_v(g).pw(),
                vp.x,
                vp.cols,
            ) >= crate::geom::MIN_TERMINAL_WIDTH,
    {
        let t = vp.cols;
        let s = vp.x;
        let lo = g.px;
        let mid = (g.px + (g.pw() - g.pw() / 2)) as u32;
        let hi = (g.px + g.pw()) as u32;
        let floor = crate::geom::MIN_TERMINAL_WIDTH as int;
        crate::geom::lemma_cell_of_bounds(lo, t);
        crate::geom::lemma_cell_of_bounds(mid, t);
        crate::geom::lemma_cell_of_bounds(hi, t);
        crate::geom::lemma_cell_of_mono(lo, mid, t);
        crate::geom::lemma_cell_of_mono(mid, hi, t);
        Self::lemma_cell_span_lower(lo, mid, t);
        Self::lemma_cell_span_lower(mid, hi, t);
        assert((mid - lo) * t >= (floor + 2) * FULL_PERCENT) by (nonlinear_arith)
            requires
                mid - lo >= g.pw() / 2,
                t >= 0,
                (g.pw() / 2) * t >= (floor + 2) * FULL_PERCENT,
        ;
        assert((hi - mid) * t >= (floor + 2) * FULL_PERCENT) by (nonlinear_arith)
            requires
                hi - mid == g.pw() / 2,
                t >= 0,
                (g.pw() / 2) * t >= (floor + 2) * FULL_PERCENT,
        ;
        let c_lo = crate::geom::spec_cell_of(lo, t);
        let c_mid = crate::geom::spec_cell_of(mid, t);
        let c_hi = crate::geom::spec_cell_of(hi, t);
        assert(c_mid - c_lo >= floor + 2) by (nonlinear_arith)
            requires
                (c_mid - c_lo) * FULL_PERCENT > (mid - lo) * t - FULL_PERCENT,
                (mid - lo) * t >= (floor + 2) * FULL_PERCENT,
                FULL_PERCENT > 0,
        ;
        assert(c_hi - c_mid >= floor + 2) by (nonlinear_arith)
            requires
                (c_hi - c_mid) * FULL_PERCENT > (hi - mid) * t - FULL_PERCENT,
                (hi - mid) * t >= (floor + 2) * FULL_PERCENT,
                FULL_PERCENT > 0,
        ;
        assert(crate::geom::spec_cell_of(hi, t) <= t);
    }

    /// The percent width the panes from index `i` on contribute to the
    /// horizontal grid line at height `qy`: each selectable pane whose
    /// percent y-range holds the line contributes its share.
    pub open spec fn spec_row_share_sum(s: Seq<Pane>, qy: int, i: int) -> int
        decreases s.len() - i,
    {
        if i < 0 || i >= s.len() {
            0
        } else {
            (if s[i].selectable && s[i].geom.py <= qy < s[i].geom.py + s[i].geom.ph() {
                s[i].geom.pw() as int
            } else {
                0
            }) + Self::spec_row_share_sum(s, qy, i + 1)
        }
    }

    /// The percent height contributed to the vertical grid line at `qx`.
    pub open spec fn spec_column_share_sum(s: Seq<Pane>, qx: int, i: int) -> int
        decreases s.len() - i,
    {
        if i < 0 || i >= s.len() {
            0
        } else {
            (if s[i].selectable && s[i].geom.px <= qx < s[i].geom.px + s[i].geom.pw() {
                s[i].geom.ph() as int
            } else {
                0
            }) + Self::spec_column_share_sum(s, qx, i + 1)
        }
    }

    /// Two pane maps that agree pane for pane on selectability and percent
    /// rectangles contribute the same shares to every grid line.
    pub proof fn lemma_same_pct_same_row_sum(a: Seq<Pane>, b: Seq<Pane>, qy: int, i: int)
        requires
            a.len() == b.len(),
            forall|k: int|
                0 <= k < a.len() ==> (#[trigger] b[k]).selectable == a[k].selectable
                    && crate::resize::same_pct(b[k].geom, a[k].geom),
            0 <= i <= a.len(),
        ensures
            Self::spec_row_share_sum(b, qy, i) == Self::spec_row_share_sum(a, qy, i),
        decreases a.len() - i,
    {
        if i < a.len() {
            Self::lemma_same_pct_same_row_sum(a, b, qy, i + 1);
        }
    }

    pub proof fn lemma_same_pct_same_column_sum(a: Seq<Pane>, b: Seq<Pane>, qx: int, i: int)
        requires
            a.len() == b.len(),
            forall|k: int|
                0 <= k < a.len() ==> (#[trigger] b[k]).selectable == a[k].selectable
                    && crate::resize::same_pct(b[k].geom, a[k].geom),
            0 <= i <= a.len(),
        ensures
            Self::spec_column_share_sum(b, qx, i) == Self::spec_column_share_sum(a, qx, i),
        decreases a.len() - i,
    {
        if i < a.len() {
            Self::lemma_same_pct_same_column_sum(a, b, qx, i + 1);
        }
    }

    /// Laying the whole tab out anew — what `resize_whole_tab` and
    /// `relayout_tab` do to the pane map — preserves the percent shares along
    /// every horizontal and vertical grid line: the relayout derives cells
    /// and touches no share.
    pub proof fn lemma_relayout_preserves_line_sums(
        a: Tab,
        b: Tab,
        vp: crate::geom::Viewport,
        draw: bool,
    )
        requires
            b.panes_s() == a.panes_s().map(
                |i: int, p: Pane| crate::layout::spec_frames_pane(
                    crate::layout::spec_relayout_pane(p, vp),
                    vp,
                    draw,
                ),
            ),
        ensures
            forall|qy: int| #[trigger] Self::spec_row_share_sum(b.panes_s(), qy, 0)
                == Self::spec_row_share_sum(a.panes_s(), qy, 0),
            forall|qx: int| #[trigger] Self::spec_column_share_sum(b.panes_s(), qx, 0)
                == Self::spec_column_share_sum(a.panes_s(), qx, 0),
    {
        assert forall|k: int|
            0 <= k < a.panes_s().len() implies (#[trigger] b.panes_s()[k]).selectable
            == a.panes_s()[k].selectable && crate::resize::same_pct(
            b.panes_s()[k].geom,
            a.panes_s()[k].geom,
        ) by {
            assert(b.panes_s()[k] == crate::layout::spec_frames_pane(
                crate::layout::spec_relayout_pane(a.panes_s()[k], vp),
                vp,
                draw,
            ));
        }
        assert forall|qy: int| #[trigger] Self::spec_row_share_sum(b.panes_s(), qy, 0)
            == Self::spec_row_share_sum(a.panes_s(), qy, 0) by {
            Self::lemma_same_pct_same_row_sum(a.panes_s(), b.panes_s(), qy, 0);
        }
        assert forall|qx: int| #[trigger] Self::spec_column_share_sum(b.panes_s(), qx, 0)
            == Self::spec_column_share_sum(a.panes_s(), qx, 0) by {
            Self::lemma_same_pct_same_column_sum(a.panes_s(), b.panes_s(), qx, 0);
        }
    }

    /// Every pane of the tab shares its space by percent, has positive
    /// extent, and overlaps no other: the partition is proper.
    pub open spec fn proper_partition(self) -> bool {
        &&& forall|k: int|
            0 <= k < self.panes_s().len() ==> {
                let g = (#[trigger] self.panes_s()[k]).geom;
                g.is_percent() && g.pw() > 0 && g.ph() > 0
            }
        &&& forall|i: int, j: int|
            #![trigger self.panes_s()[i], self.panes_s()[j]]
            0 <= i < self.panes_s().len() && 0 <= j < self.panes_s().len() && i != j
                ==> self.panes_s()[i].geom.pct_disjoint(self.panes_s()[j].geom)
    }

    /// After a vertical split, the left reclaim band of the new pane is
    /// available and holds exactly the split pane: closing the new pane will
    /// hand the freed width back to it.
    #[verifier::rlimit(100)]
    #[verifier::spinoff_prover]
    pub proof fn lemma_split_close_band(a: Tab, b: Tab, aid: PaneId, newid: PaneId)
        requires
            a.well_formed(),
            b.well_formed(),
            !a.fullscreen_is_active,
            a.has_pane(aid),
            !a.has_pane(newid),
            a.proper_partition(),
            a.pane_of(aid).geom.pw() >= 2,
            splits_pane(a, b, aid, newid, false),
        ensures
            b.reclaim_band_available(crate::close::ReclaimSide::Left, b.pane_of(newid)),
            forall|j: int|
                0 <= j < b.panes_s().len() ==> (crate::close::reclaim_band_pred(
                    crate::close::ReclaimSide::Left,
                    #[trigger] b.panes_s()[j],
                    b.pane_of(newid),
                ) <==> b.panes_s()[j].pid == aid),
    {
        let g = a.pane_of(aid).geom;
        let g1 = spec_first_half_v(g);
        let g2 = spec_second_half_v(g);
        let t = b.pane_of(newid);
        let ai0 = a.idx_of(aid);
        a.lemma_idx_unique(ai0, aid);
        assert(crate::tab::pane_bounded(a.panes_s()[ai0]));
        let bn = b.idx_of(newid);
        b.lemma_idx_unique(bn, newid);
        let ba = b.idx_of(aid);
        assert(b.has_pane(aid));
        b.lemma_idx_unique(ba, aid);
        assert(crate::resize::same_pct(t.geom, g2));
        assert(crate::resize::same_pct(b.panes_s()[ba].geom, g1));
        // Availability: the split pane abuts the new pane on the left and
        // matches both of its horizontal borders.
        assert(edge_rel_holds(
            crate::queries::EdgeRel::DirectlyLeftOf,
            b.panes_s()[ba],
            t,
        ));
        assert(t.geom.px != 0);
        assert(b.reclaim_band_available(crate::close::ReclaimSide::Left, t));
        // Uniqueness: no third pane reaches the new pane's left edge inside
        // its vertical span.
        assert forall|j: int|
            0 <= j < b.panes_s().len() implies (crate::close::reclaim_band_pred(
            crate::close::ReclaimSide::Left,
            #[trigger] b.panes_s()[j],
            t,
        ) <==> b.panes_s()[j].pid == aid) by {
            let q = b.panes_s()[j];
            b.lemma_idx_unique(j, q.pid);
            if q.pid == aid {
                assert(crate::close::reclaim_band_pred(
                    crate::close::ReclaimSide::Left,
                    q,
                    t,
                ));
            } else if crate::close::reclaim_band_pred(crate::close::ReclaimSide::Left, q, t) {
                if q.pid == newid {
                    assert(q.geom.px + q.geom.pw() == g2.px + g2.pw());
                    assert(g2.pw() > 0);
                    assert(false);
                } else {
                    // The pane's rectangle would overlap the split pane's
                    // original rectangle.
                    assert(a.has_pane(q.pid));
                    let qa = a.idx_of(q.pid);
                    a.lemma_idx_unique(qa, q.pid);
                    assert(crate::resize::same_pct(q.geom, a.panes_s()[qa].geom));
                    assert(a.panes_s()[qa].geom.pw() > 0 && a.panes_s()[qa].geom.ph() > 0);
                    assert(qa != ai0);
                    assert(a.panes_s()[qa].geom.pct_disjoint(a.panes_s()[ai0].geom));
                    assert(q.geom.px + q.geom.pw() == g.px + g1.pw());
                    assert(g1.pw() >= 1 && g2.pw() >= 1) by {
                        assert(g.pw() >= 2);
                    }
                    assert(false);
                }
            }
        }
    }

    /// Splitting a pane and closing the new pane returns the partition: the
    /// panes, their percent rectangles and their selectability are as they
    /// were.
    #[verifier::rlimit(100)]
    #[verifier::spinoff_prover]
    pub proof fn lemma_split_close_round_trip(
        a: Tab,
        b: Tab,
        c: Tab,
        aid: PaneId,
        newid: PaneId,
        band: Seq<PaneId>,
    )
        requires
            a.well_formed(),
            b.well_formed(),
            !a.fullscreen_is_active,
            a.has_pane(aid),
            !a.has_pane(newid),
            a.proper_partition(),
            a.pane_of(aid).geom.pw() >= 2,
            splits_pane(a, b, aid, newid, false),
            b.band_ids_exact(crate::close::ReclaimSide::Left, b.pane_of(newid), band),
            c.panes_s() == Tab::spec_reclaimed_panes(
                b,
                b.idx_of(newid),
                crate::close::ReclaimSide::Left,
                band,
            ),
        ensures
            c.panes_s().len() == a.panes_s().len(),
            forall|pid: PaneId| Tab::seq_has_id(c.panes_s(), pid) <==> a.has_pane(pid),
            forall|k: int|
                0 <= k < c.panes_s().len() ==> {
                    let p = #[trigger] c.panes_s()[k];
                    &&& a.has_pane(p.pid)
                    &&& crate::resize::same_pct(p.geom, a.pane_of(p.pid).geom)
                    &&& p.selectable == a.pane_of(p.pid).selectable
                    &&& p.geom_override is None
                },
    {
        let g = a.pane_of(aid).geom;
        let g1 = spec_first_half_v(g);
        let g2 = spec_second_half_v(g);
        let t = b.pane_of(newid);
        let bn = b.idx_of(newid);
        b.lemma_idx_unique(bn, newid);
        let ai0 = a.idx_of(aid);
        a.lemma_idx_unique(ai0, aid);
        assert(crate::tab::pane_bounded(a.panes_s()[ai0]));
        Self::lemma_split_close_band(a, b, aid, newid);
        // The band holds exactly the split pane.
        assert forall|j: int|
            0 <= j < b.panes_s().len() implies (band.contains((#[trigger] b.panes_s()[j]).pid)
            <==> b.panes_s()[j].pid == aid) by {
            assert(crate::close::reclaim_band_pred(
                crate::close::ReclaimSide::Left,
                b.panes_s()[j],
                t,
            ) <==> band.contains(b.panes_s()[j].pid));
        }
        let grown = Tab::grown_mid(b, bn, crate::close::ReclaimSide::Left, band);
        b.lemma_sorted_distinct();
        // Pointwise: growing restores the split pane, everything else stands.
        assert forall|k: int|
            0 <= k < grown.len() implies (#[trigger] grown[k]).pid == b.panes_s()[k].pid
            && grown[k].selectable == b.panes_s()[k].selectable && grown[k].geom_override
            == b.panes_s()[k].geom_override && crate::resize::same_pct(
            grown[k].geom,
            if b.panes_s()[k].pid == aid {
                g
            } else {
                b.panes_s()[k].geom
            },
        ) by {
            if b.panes_s()[k].pid == aid {
                assert(band.contains(b.panes_s()[k].pid));
                let ba = b.idx_of(aid);
                assert(b.has_pane(aid));
                b.lemma_idx_unique(ba, aid);
                assert(ba == k);
                assert(crate::resize::same_pct(b.panes_s()[k].geom, g1));
                assert(t.geom.pw() == g2.pw());
                assert(g1.px + g1.pw() + g2.pw() <= FULL_PERCENT);
            } else {
                assert(!band.contains(b.panes_s()[k].pid));
            }
        }
        let mid = grown.remove(bn);
        assert forall|k: int, l: int|
            0 <= k < l < grown.len() implies (#[trigger] grown[k]).pid != (
        #[trigger] grown[l]).pid by {
            assert(b.panes_s()[k].pid != b.panes_s()[l].pid);
        }
        Tab::lemma_has_pane_remove(grown, bn);
        Tab::lemma_has_pane_pointwise(b.panes_s(), grown);
        Tab::lemma_has_pane_pointwise(mid, c.panes_s());
        // Ids: c holds the ids of b short of the closed pane, which are the
        // ids of a.
        assert forall|pid: PaneId| Tab::seq_has_id(c.panes_s(), pid) implies a.has_pane(pid) by {
            assert(Tab::seq_has_id(mid, pid));
            assert(pid != grown[bn].pid);
            assert(Tab::seq_has_id(b.panes_s(), pid));
            assert(b.has_pane(pid));
        }
        assert forall|pid: PaneId| a.has_pane(pid) implies Tab::seq_has_id(c.panes_s(), pid) by {
            assert(b.has_pane(pid));
            assert(pid != newid);
            assert(Tab::seq_has_id(grown, pid));
            assert(Tab::seq_has_id(mid, pid));
        }
        // Geometry: each pane of c carries the percent rectangle it had in a.
        assert forall|k: int|
            0 <= k < c.panes_s().len() implies {
            let p = #[trigger] c.panes_s()[k];
            &&& a.has_pane(p.pid)
            &&& crate::resize::same_pct(p.geom, a.pane_of(p.pid).geom)
            &&& p.selectable == a.pane_of(p.pid).selectable
            &&& p.geom_override is None
        } by {
            let k0: int = if k < bn {
                k
            } else {
                k + 1
            };
            assert(mid[k] == grown[k0]);
            let p0 = b.panes_s()[k0];
            let pid = p0.pid;
            assert(pid != newid) by {
                if pid == newid {
                    b.lemma_idx_unique(k0, newid);
                    assert(k0 == bn);
                    assert(false);
                }
            }
            assert(b.has_pane(pid));
            assert(a.has_pane(pid));
            b.lemma_idx_unique(k0, pid);
            assert((b.panes_s()[k0].geom_override) is None) by {
                if (b.panes_s()[k0].geom_override) is Some {
                    assert(b.fullscreen_is_active);
                }
            }
            if pid == aid {
                assert(crate::resize::same_pct(grown[k0].geom, g));
                assert(b.pane_of(aid).selectable == a.pane_of(aid).selectable);
            } else {
                assert(crate::resize::same_pct(b.panes_s()[k0].geom, a.pane_of(pid).geom));
                assert(b.pane_of(pid).selectable == a.pane_of(pid).selectable);
            }
        }
    }
    /// Splitting a pane and closing the new pane also returns the partition
    /// laws: a tab whose selectable panes tiled the viewport before the
    /// round trip tiles it after.
    pub proof fn lemma_split_close_keeps_tiling(
        a: Tab,
        b: Tab,
        c: Tab,
        aid: PaneId,
        newid: PaneId,
        band: Seq<PaneId>,
    )
        requires
            a.well_formed(),
            b.well_formed(),
            c.ids_sorted(),
            !a.fullscreen_is_active,
            a.has_pane(aid),
            !a.has_pane(newid),
            a.proper_partition(),
            a.pane_of(aid).geom.pw() >= 2,
            splits_pane(a, b, aid, newid, false),
            b.band_ids_exact(crate::close::ReclaimSide::Left, b.pane_of(newid), band),
            c.panes_s() == Tab::spec_reclaimed_panes(
                b,
                b.idx_of(newid),
                crate::close::ReclaimSide::Left,
                band,
            ),
            a.base_disjoint(),
            a.base_covers(),
        ensures
            c.base_disjoint(),
            c.base_covers(),
    {
        Self::lemma_split_close_round_trip(a, b, c, aid, newid, band);
        a.lemma_sorted_distinct();
        c.lemma_sorted_distinct();
        // Disjointness carries over pane by pane: percent rectangles and
        // selectability are as they were.
        assert forall|i: int, j: int|
            #![trigger c.panes_s()[i], c.panes_s()[j]]
            0 <= i < c.panes_s().len() && 0 <= j < c.panes_s().len() && i != j
                && c.panes_s()[i].selectable && c.panes_s()[j].selectable implies c.panes_s()[i].geom.pct_disjoint(
            c.panes_s()[j].geom,
        ) by {
            let pi = c.panes_s()[i].pid;
            let pj = c.panes_s()[j].pid;
            assert(pi != pj);
            let i0 = a.idx_of(pi);
            let j0 = a.idx_of(pj);
            a.lemma_idx_unique(i0, pi);
            a.lemma_idx_unique(j0, pj);
            assert(crate::resize::same_pct(c.panes_s()[i].geom, a.panes_s()[i0].geom));
            assert(crate::resize::same_pct(c.panes_s()[j].geom, a.panes_s()[j0].geom));
            assert(a.panes_s()[i0].geom.pct_disjoint(a.panes_s()[j0].geom));
        }
        // Coverage too: the covering pane of any point is still there with
        // the same rectangle.
        assert forall|qx: int, qy: int|
            0 <= qx < FULL_PERCENT && 0 <= qy < FULL_PERCENT implies #[trigger] c.base_covered_at(
            qx,
            qy,
        ) by {
            assert(a.base_covered_at(qx, qy));
            let i = choose|i: int|
                0 <= i < a.panes_s().len() && (#[trigger] a.panes_s()[i]).selectable
                    && a.panes_s()[i].geom.pct_contains(qx, qy);
            let pid = a.panes_s()[i].pid;
            a.lemma_idx_unique(i, pid);
            assert(Tab::seq_has_id(c.panes_s(), pid));
            let k = choose|k: int| 0 <= k < c.panes_s().len() && c.panes_s()[k].pid == pid;
            assert(a.has_pane(c.panes_s()[k].pid));
            assert(crate::resize::same_pct(c.panes_s()[k].geom, a.pane_of(pid).geom));
            assert(c.panes_s()[k].selectable && c.panes_s()[k].geom.pct_contains(qx, qy));
        }
    }
}

} // verus!