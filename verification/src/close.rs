//! Closing a pane: the freed rectangle is reclaimed by the band of
//! neighbours on one side whose outer borders match its orthogonal span; the
//! sides are tried left, right, above, below. When no such band exists the
//! pane is removed and the tab relaid as a whole.
use vstd::prelude::*;

use crate::geom::{Constraint, PaneGeom, FULL_PERCENT};
use crate::pane::{Pane, PaneId};
use crate::queries::{EdgeRel, edge_rel_holds};
use crate::tab::{Direction, OutboundMessage, Tab, pane_bounded};

verus! {

/// A side of the closed pane from which neighbours may reclaim its space.
#[derive(Clone, Copy, PartialEq, Eq, Structural, Debug)]
pub enum ReclaimSide {
    Left,
    Right,
    Above,
    Below,
}

/// The direct-adjacency relation belonging to a reclaim side.
pub open spec fn side_rel(side: ReclaimSide) -> EdgeRel {
    match side {
        ReclaimSide::Left => EdgeRel::DirectlyLeftOf,
        ReclaimSide::Right => EdgeRel::DirectlyRightOf,
        ReclaimSide::Above => EdgeRel::DirectlyAbove,
        ReclaimSide::Below => EdgeRel::DirectlyBelow,
    }
}

/// The pane `p` belongs to the reclaim band of `t` on the given side: it is
/// directly adjacent there and lies within `t`'s span on the other axis.
pub open spec fn reclaim_band_pred(side: ReclaimSide, p: Pane, t: Pane) -> bool {
    edge_rel_holds(side_rel(side), p, t) && match side {
        ReclaimSide::Left | ReclaimSide::Right => p.geom.py >= t.geom.py && p.geom.py
            + p.geom.ph() <= t.geom.py + t.geom.ph(),
        ReclaimSide::Above | ReclaimSide::Below => p.geom.px >= t.geom.px && p.geom.px
            + p.geom.pw() <= t.geom.px + t.geom.pw(),
    }
}

/// An arbitrary side, for reusing the reclaim lemmas with an empty band.
pub open spec fn side_dummy() -> ReclaimSide {
    ReclaimSide::Left
}

impl Tab {
    /// The band on the given side can reclaim the freed rectangle: there are
    /// direct neighbours there, and among them some pane edge meets each of
    /// the two orthogonal borders of the target.
    pub open spec fn reclaim_band_available(self, side: ReclaimSide, t: Pane) -> bool {
        &&& (side == ReclaimSide::Left ==> t.geom.px != 0)
        &&& exists|j: int|
            0 <= j < self.panes_s().len() && edge_rel_holds(
                side_rel(side),
                #[trigger] self.panes_s()[j],
                t,
            )
        &&& match side {
            ReclaimSide::Left | ReclaimSide::Right => {
                &&& exists|j: int|
                    0 <= j < self.panes_s().len() && edge_rel_holds(
                        side_rel(side),
                        #[trigger] self.panes_s()[j],
                        t,
                    ) && (self.panes_s()[j].geom.py == t.geom.py || self.panes_s()[j].geom.py
                        + self.panes_s()[j].geom.ph() == t.geom.py)
                &&& exists|j: int|
                    0 <= j < self.panes_s().len() && edge_rel_holds(
                        side_rel(side),
                        #[trigger] self.panes_s()[j],
                        t,
                    ) && (self.panes_s()[j].geom.py == t.geom.py + t.geom.ph()
                        || self.panes_s()[j].geom.py + self.panes_s()[j].geom.ph() == t.geom.py
                            + t.geom.ph())
            },
            ReclaimSide::Above | ReclaimSide::Below => {
                &&& exists|j: int|
                    0 <= j < self.panes_s().len() && edge_rel_holds(
                        side_rel(side),
                        #[trigger] self.panes_s()[j],
                        t,
                    ) && (self.panes_s()[j].geom.px == t.geom.px || self.panes_s()[j].geom.px
                        + self.panes_s()[j].geom.pw() == t.geom.px)
                &&& exists|j: int|
                    0 <= j < self.panes_s().len() && edge_rel_holds(
                        side_rel(side),
                        #[trigger] self.panes_s()[j],
                        t,
                    ) && (self.panes_s()[j].geom.px == t.geom.px + t.geom.pw()
                        || self.panes_s()[j].geom.px + self.panes_s()[j].geom.pw() == t.geom.px
                            + t.geom.pw())
            },
        }
    }

    /// Exactly the panes of the reclaim band, in pane order.
    pub open spec fn band_ids_exact(self, side: ReclaimSide, t: Pane, ids: Seq<PaneId>) -> bool {
        &&& forall|j: int|
            0 <= j < self.panes_s().len() ==> (reclaim_band_pred(
                side,
                #[trigger] self.panes_s()[j],
                t,
            ) <==> ids.contains(self.panes_s()[j].pid))
        &&& forall|k: int|
            0 <= k < ids.len() ==> self.has_pane(#[trigger] ids[k]) && reclaim_band_pred(
                side,
                self.pane_of(ids[k]),
                t,
            )
        &&& forall|k: int, l: int| 0 <= k < l < ids.len() ==> (#[trigger] ids[k]).spec_lt(
            #[trigger] ids[l],
        )
    }

    /// The reclaim band of the pane on the given side, when its outer borders
    /// align with the pane's span.
    pub fn reclaim_band(&self, id: PaneId, side: ReclaimSide) -> (r: Option<Vec<PaneId>>)
        requires
            self.well_formed_except_cells(),
            self.has_pane(id),
        ensures
            match r {
                Some(ids) => self.reclaim_band_available(side, self.pane_of(id))
                    && self.band_ids_exact(side, self.pane_of(id), ids@),
                None => !self.reclaim_band_available(side, self.pane_of(id)),
            },
    {
        let ghost t = self.pane_of(id);
        let adjacent = match side {
            ReclaimSide::Left => self.pane_ids_directly_left_of(id),
            ReclaimSide::Right => self.pane_ids_directly_right_of(id),
            ReclaimSide::Above => self.pane_ids_directly_above(id),
            ReclaimSide::Below => self.pane_ids_directly_below(id),
        };
        let adj = match adjacent {
            Some(adj) => adj,
            None => {
                return None;
            }
        };
        let i = match self.find_pane(id) {
            Some(i) => i,
            None => {
                proof {
                    assert(false);
                }
                0
            }
        };
        proof {
            self.lemma_idx_unique(i as int, id);
            assert(pane_bounded(self.panes_s()[i as int]));
        }
        let g = self.panes[i].geom;
        let (lo, hi): (u32, u32) = match side {
            ReclaimSide::Left | ReclaimSide::Right => {
                let ph = match g.rows.constraint {
                    Constraint::Percent(p) => p,
                    Constraint::Fixed(_) => 0,
                };
                (g.py, g.py + ph)
            },
            ReclaimSide::Above | ReclaimSide::Below => {
                let pw = match g.cols.constraint {
                    Constraint::Percent(p) => p,
                    Constraint::Fixed(_) => 0,
                };
                (g.px, g.px + pw)
            },
        };
        let borders = match side {
            ReclaimSide::Left | ReclaimSide::Right => self.horizontal_borders(&adj),
            ReclaimSide::Above | ReclaimSide::Below => self.vertical_borders(&adj),
        };
        if !crate::queries::borders_contain(&borders, lo) || !crate::queries::borders_contain(
            &borders,
            hi,
        ) {
            proof {
                if self.reclaim_band_available(side, t) {
                    match side {
                        ReclaimSide::Left | ReclaimSide::Right => {
                            let j1 = choose|j: int|
                                0 <= j < self.panes_s().len() && edge_rel_holds(
                                    side_rel(side),
                                    #[trigger] self.panes_s()[j],
                                    t,
                                ) && (self.panes_s()[j].geom.py == t.geom.py
                                    || self.panes_s()[j].geom.py + self.panes_s()[j].geom.ph()
                                        == t.geom.py);
                            assert(adj@.contains(self.panes_s()[j1].pid));
                            let k1 = choose|k: int|
                                0 <= k < adj@.len() && adj@[k] == self.panes_s()[j1].pid;
                            self.lemma_idx_unique(j1, self.panes_s()[j1].pid);
                            assert(borders@.contains(lo));
                            let j2 = choose|j: int|
                                0 <= j < self.panes_s().len() && edge_rel_holds(
                                    side_rel(side),
                                    #[trigger] self.panes_s()[j],
                                    t,
                                ) && (self.panes_s()[j].geom.py == t.geom.py + t.geom.ph()
                                    || self.panes_s()[j].geom.py + self.panes_s()[j].geom.ph()
                                        == t.geom.py + t.geom.ph());
                            assert(adj@.contains(self.panes_s()[j2].pid));
                            let k2 = choose|k: int|
                                0 <= k < adj@.len() && adj@[k] == self.panes_s()[j2].pid;
                            self.lemma_idx_unique(j2, self.panes_s()[j2].pid);
                            assert(borders@.contains(hi));
                            assert(false);
                        },
                        ReclaimSide::Above | ReclaimSide::Below => {
                            let j1 = choose|j: int|
                                0 <= j < self.panes_s().len() && edge_rel_holds(
                                    side_rel(side),
                                    #[trigger] self.panes_s()[j],
                                    t,
                                ) && (self.panes_s()[j].geom.px == t.geom.px
                                    || self.panes_s()[j].geom.px + self.panes_s()[j].geom.pw()
                                        == t.geom.px);
                            assert(adj@.contains(self.panes_s()[j1].pid));
                            let k1 = choose|k: int|
                                0 <= k < adj@.len() && adj@[k] == self.panes_s()[j1].pid;
                            self.lemma_idx_unique(j1, self.panes_s()[j1].pid);
                            assert(borders@.contains(lo));
                            let j2 = choose|j: int|
                                0 <= j < self.panes_s().len() && edge_rel_holds(
                                    side_rel(side),
                                    #[trigger] self.panes_s()[j],
                                    t,
                                ) && (self.panes_s()[j].geom.px == t.geom.px + t.geom.pw()
                                    || self.panes_s()[j].geom.px + self.panes_s()[j].geom.pw()
                                        == t.geom.px + t.geom.pw());
                            assert(adj@.contains(self.panes_s()[j2].pid));
                            let k2 = choose|k: int|
                                0 <= k < adj@.len() && adj@[k] == self.panes_s()[j2].pid;
                            self.lemma_idx_unique(j2, self.panes_s()[j2].pid);
                            assert(borders@.contains(hi));
                            assert(false);
                        },
                    }
                }
            }
            return None;
        }
        proof {
            // The two matching borders witness the availability conditions.
            let b1 = choose|k: int|
                0 <= k < adj@.len() && {
                    let gg = self.pane_of(#[trigger] adj@[k]).geom;
                    match side {
                        ReclaimSide::Left | ReclaimSide::Right => lo == gg.py || lo == gg.py
                            + gg.ph(),
                        ReclaimSide::Above | ReclaimSide::Below => lo == gg.px || lo == gg.px
                            + gg.pw(),
                    }
                };
            let b2 = choose|k: int|
                0 <= k < adj@.len() && {
                    let gg = self.pane_of(#[trigger] adj@[k]).geom;
                    match side {
                        ReclaimSide::Left | ReclaimSide::Right => hi == gg.py || hi == gg.py
                            + gg.ph(),
                        ReclaimSide::Above | ReclaimSide::Below => hi == gg.px || hi == gg.px
                            + gg.pw(),
                    }
                };
            let w1 = self.idx_of(adj@[b1]);
            let w2 = self.idx_of(adj@[b2]);
            assert(edge_rel_holds(side_rel(side), self.panes_s()[w1], t));
            assert(edge_rel_holds(side_rel(side), self.panes_s()[w2], t));
        }
        // Keep only the band members inside the pane's orthogonal span.
        let mut kept: Vec<PaneId> = Vec::new();
        let ghost mut kidxs: Seq<int> = Seq::empty();
        let mut k: usize = 0;
        while k < adj.len()
            invariant
                self.well_formed_except_cells(),
                self.has_pane(id),
                t == self.pane_of(id),
                self.rel_ids_exact(side_rel(side), t, adj@),
                lo == match side {
                    ReclaimSide::Left | ReclaimSide::Right => t.geom.py,
                    ReclaimSide::Above | ReclaimSide::Below => t.geom.px,
                },
                hi == match side {
                    ReclaimSide::Left | ReclaimSide::Right => t.geom.py + t.geom.ph(),
                    ReclaimSide::Above | ReclaimSide::Below => t.geom.px + t.geom.pw(),
                },
                k <= adj@.len(),
                kidxs.len() == kept@.len(),
                forall|w: int| 0 <= w < kidxs.len() ==> 0 <= #[trigger] kidxs[w] < k,
                forall|w: int, v: int| 0 <= w < v < kidxs.len() ==> kidxs[w] < kidxs[v],
                forall|w: int|
                    0 <= w < kidxs.len() ==> kept@[w] == adj@[#[trigger] kidxs[w]]
                        && reclaim_band_pred(side, self.pane_of(adj@[kidxs[w]]), t),
                forall|w: int|
                    0 <= w < k && reclaim_band_pred(
                        side,
                        self.pane_of(#[trigger] adj@[w]),
                        t,
                    ) ==> kept@.contains(adj@[w]),
            decreases adj@.len() - k,
        {
            let cid = adj[k];
            proof {
                assert(self.has_pane(adj@[k as int]));
            }
            let inside = match side {
                ReclaimSide::Left | ReclaimSide::Right => self.pane_is_between_horizontal_borders(
                    cid,
                    lo,
                    hi,
                ),
                ReclaimSide::Above | ReclaimSide::Below => self.pane_is_between_vertical_borders(
                    cid,
                    lo,
                    hi,
                ),
            };
            if inside {
                let ghost before = kept@;
                kept.push(cid);
                proof {
                    kidxs = kidxs.push(k as int);
                    assert forall|w: int|
                        0 <= w < k + 1 && reclaim_band_pred(
                            side,
                            self.pane_of(#[trigger] adj@[w]),
                            t,
                        ) implies kept@.contains(adj@[w]) by {
                        if w < k {
                            assert(before.contains(adj@[w]));
                            let u = choose|u: int| 0 <= u < before.len() && before[u] == adj@[w];
                            assert(kept@[u] == adj@[w]);
                        } else {
                            assert(kept@[kept@.len() - 1] == adj@[w]);
                        }
                    }
                }
            }
            k = k + 1;
        }
        proof {
            assert forall|j: int|
                0 <= j < self.panes_s().len() implies (reclaim_band_pred(
                side,
                #[trigger] self.panes_s()[j],
                t,
            ) <==> kept@.contains(self.panes_s()[j].pid)) by {
                if reclaim_band_pred(side, self.panes_s()[j], t) {
                    assert(edge_rel_holds(side_rel(side), self.panes_s()[j], t));
                    assert(adj@.contains(self.panes_s()[j].pid));
                    let w = choose|w: int|
                        0 <= w < adj@.len() && adj@[w] == self.panes_s()[j].pid;
                    self.lemma_idx_unique(j, self.panes_s()[j].pid);
                    assert(reclaim_band_pred(side, self.pane_of(adj@[w]), t));
                    assert(kept@.contains(adj@[w]));
                }
                if kept@.contains(self.panes_s()[j].pid) {
                    let w = choose|w: int| 0 <= w < kept@.len() && kept@[w] == self.panes_s()[j].pid;
                    let u = kidxs[w];
                    self.lemma_idx_unique(j, self.panes_s()[j].pid);
                    assert(self.idx_of(adj@[u]) == j);
                }
            }
            assert forall|w: int|
                0 <= w < kept@.len() implies self.has_pane(#[trigger] kept@[w])
                && reclaim_band_pred(side, self.pane_of(kept@[w]), t) by {
                assert(kept@[w] == adj@[kidxs[w]]);
            }
            assert forall|w: int, v: int|
                0 <= w < v < kept@.len() implies (#[trigger] kept@[w]).spec_lt(
                #[trigger] kept@[v],
            ) by {
                assert(adj@[kidxs[w]].spec_lt(adj@[kidxs[v]]));
            }
        }
        Some(kept)
    }
}

/// A band pane after reclaiming the freed rectangle `t`: it grows toward the
/// freed side by the freed percent extent.
pub open spec fn spec_close_grow(p: Pane, side: ReclaimSide, t: PaneGeom) -> Pane {
    match side {
        ReclaimSide::Left => Pane {
            geom: match p.geom.cols.constraint {
                Constraint::Fixed(_) => p.geom,
                Constraint::Percent(w) => PaneGeom {
                    cols: crate::geom::Dimension {
                        constraint: Constraint::Percent(
                            if p.geom.px + w + t.pw() <= FULL_PERCENT {
                                (w + t.pw()) as u32
                            } else {
                                (FULL_PERCENT - p.geom.px) as u32
                            },
                        ),
                        ..p.geom.cols
                    },
                    ..p.geom
                },
            },
            ..p
        },
        ReclaimSide::Right => Pane {
            geom: match p.geom.cols.constraint {
                Constraint::Fixed(_) => p.geom,
                Constraint::Percent(w) => {
                    let shift = if p.geom.px >= t.pw() {
                        t.pw()
                    } else {
                        p.geom.px
                    };
                    PaneGeom {
                        px: (p.geom.px - shift) as u32,
                        cols: crate::geom::Dimension {
                            constraint: Constraint::Percent(
                                if w + shift <= FULL_PERCENT {
                                    (w + shift) as u32
                                } else {
                                    FULL_PERCENT
                                },
                            ),
                            ..p.geom.cols
                        },
                        ..p.geom
                    }
                },
            },
            ..p
        },
        ReclaimSide::Above => Pane {
            geom: match p.geom.rows.constraint {
                Constraint::Fixed(_) => p.geom,
                Constraint::Percent(h) => PaneGeom {
                    rows: crate::geom::Dimension {
                        constraint: Constraint::Percent(
                            if p.geom.py + h + t.ph() <= FULL_PERCENT {
                                (h + t.ph()) as u32
                            } else {
                                (FULL_PERCENT - p.geom.py) as u32
                            },
                        ),
                        ..p.geom.rows
                    },
                    ..p.geom
                },
            },
            ..p
        },
        ReclaimSide::Below => Pane {
            geom: match p.geom.rows.constraint {
                Constraint::Fixed(_) => p.geom,
                Constraint::Percent(h) => {
                    let shift = if p.geom.py >= t.ph() {
                        t.ph()
                    } else {
                        p.geom.py
                    };
                    PaneGeom {
                        py: (p.geom.py - shift) as u32,
                        rows: crate::geom::Dimension {
                            constraint: Constraint::Percent(
                                if h + shift <= FULL_PERCENT {
                                    (h + shift) as u32
                                } else {
                                    FULL_PERCENT
                                },
                            ),
                            ..p.geom.rows
                        },
                        ..p.geom
                    }
                },
            },
            ..p
        },
    }
}

impl Tab {
    /// Grow every band pane toward the freed rectangle by its extent.
    fn grow_band(&mut self, band: &Vec<PaneId>, side: ReclaimSide, t: Ghost<PaneGeom>, aw: u32, ah: u32)
        requires
            old(self).well_formed_except_cells(),
            aw == t@.pw(),
            ah == t@.ph(),
        ensures
            final(self).panes_s().len() == old(self).panes_s().len(),
            forall|k: int|
                0 <= k < old(self).panes_s().len() ==> final(self).panes_s()[k] == (
                if band@.contains((#[trigger] old(self).panes_s()[k]).pid) {
                    spec_close_grow(old(self).panes_s()[k], side, t@)
                } else {
                    old(self).panes_s()[k]
                }),
            *final(self) == (Tab { panes: final(self).panes, ..*old(self) }),
    {
        let ghost orig = self.panes@;
        proof {
            assert forall|k: int| 0 <= k < orig.len() implies pane_bounded(#[trigger] orig[k]) by {
                assert(pane_bounded(old(self).panes_s()[k]));
            }
        }
        let mut i: usize = 0;
        while i < self.panes.len()
            invariant
                *self == (Tab { panes: self.panes, ..*old(self) }),
                i <= self.panes@.len(),
                self.panes@.len() == orig.len(),
                aw == t@.pw(),
                ah == t@.ph(),
                forall|k: int| 0 <= k < orig.len() ==> pane_bounded(#[trigger] orig[k]),
                forall|k: int| i <= k < orig.len() ==> self.panes@[k] == orig[k],
                forall|k: int|
                    0 <= k < i ==> self.panes@[k] == (if band@.contains((#[trigger] orig[k]).pid) {
                        spec_close_grow(orig[k], side, t@)
                    } else {
                        orig[k]
                    }),
            decreases self.panes@.len() - i,
        {
            let p = self.panes[i];
            if crate::queries::ids_contain(band, p.pid) {
                let mut np = p;
                proof {
                    assert(pane_bounded(orig[i as int]));
                }
                match side {
                    ReclaimSide::Left => np.increase_width_right(aw),
                    ReclaimSide::Right => np.increase_width_left(aw),
                    ReclaimSide::Above => np.increase_height_down(ah),
                    ReclaimSide::Below => np.increase_height_up(ah),
                }
                let slot = &mut self.panes[i];
                *slot = np;
                proof {
                    assert(self.panes@[i as int] == spec_close_grow(orig[i as int], side, t@));
                }
            }
            i = i + 1;
        }
    }

    /// The pane sequence after a band on `side` reclaims the rectangle of the
    /// pane at index `i`, the pane is dropped, and the tab is relaid.
    pub open spec fn spec_reclaimed_panes(
        a: Tab,
        i: int,
        side: ReclaimSide,
        band: Seq<PaneId>,
    ) -> Seq<Pane> {
        let tg = a.panes_s()[i].geom;
        a.panes_s().map(
            |k: int, p: Pane|
                if band.contains(p.pid) {
                    spec_close_grow(p, side, tg)
                } else {
                    p
                },
        ).remove(i).map(
            |k: int, p: Pane|
                crate::layout::spec_frames_pane(
                    crate::layout::spec_relayout_pane(p, a.viewport),
                    a.viewport,
                    a.draw_pane_frames,
                ),
        )
    }

    /// Give the freed rectangle of the pane at index `i` to the band, drop
    /// the pane, rewire focus if it pointed at the dropped pane, and relay
    /// the tab.
    #[verifier::rlimit(100)]
    fn reclaim_and_remove(
        &mut self,
        id: PaneId,
        i: usize,
        side: ReclaimSide,
        band: &Vec<PaneId>,
    ) -> (msgs: Vec<OutboundMessage>)
        requires
            old(self).well_formed(),
            !old(self).fullscreen_is_active,
            i < old(self).panes_s().len(),
            old(self).panes_s()[i as int].pid == id,
            old(self).band_ids_exact(side, old(self).panes_s()[i as int], band@),
        ensures
            final(self).well_formed(),
            !final(self).has_pane(id),
            forall|pid: PaneId|
                pid != id ==> (final(self).has_pane(pid) <==> old(self).has_pane(pid)),
            final(self).panes_s().len() == old(self).panes_s().len() - 1,
            final(self).panes_s() == Self::spec_reclaimed_panes(*old(self), i as int, side, band@),
            old(self).active_terminal != Some(id) ==> final(self).active_terminal == old(
                self,
            ).active_terminal,
            old(self).active_terminal == Some(id) ==> match final(self).active_terminal {
                Some(nid) => nid != id && exists|k: int|
                    0 <= k < band@.len() && band@[k] == nid && old(self).has_pane(nid) && old(
                        self,
                    ).pane_of(nid).selectable && forall|l: int|
                        k < l < band@.len() ==> !(#[trigger] band@[l] != id && old(self).has_pane(
                            band@[l],
                        ) && old(self).pane_of(band@[l]).selectable),
                None => forall|k: int|
                    0 <= k < band@.len() ==> !(#[trigger] band@[k] != id && old(self).has_pane(
                        band@[k],
                    ) && old(self).pane_of(band@[k]).selectable),
            },
    {
        let ghost a = *old(self);
        let tg = self.panes[i].geom;
        let aw = match tg.cols.constraint {
            Constraint::Percent(p) => p,
            Constraint::Fixed(_) => 0,
        };
        let ah = match tg.rows.constraint {
            Constraint::Percent(p) => p,
            Constraint::Fixed(_) => 0,
        };
        self.grow_band(band, side, Ghost(tg), aw, ah);
        proof {
            assert forall|k: int, l: int|
                0 <= k < l < self.panes_s().len() implies (#[trigger] self.panes_s()[k].pid).spec_lt(
                #[trigger] self.panes_s()[l].pid,
            ) by {
                assert(self.panes_s()[k].pid == a.panes_s()[k].pid);
                assert(self.panes_s()[l].pid == a.panes_s()[l].pid);
            }
        }
        proof {
            assert(self.panes@ =~= Self::grown_mid(a, i as int, side, band@));
        }
        let _removed = self.remove_pane_at(i);
        proof {
            a.lemma_sorted_distinct();
            assert forall|k: int, l: int|
                0 <= k < l < a.panes_s().len() implies (#[trigger] Self::grown_mid(
                a,
                i as int,
                side,
                band@,
            )[k]).pid != (#[trigger] Self::grown_mid(a, i as int, side, band@)[l]).pid by {
                assert(a.panes_s()[k].pid != a.panes_s()[l].pid);
            }
            Tab::lemma_has_pane_remove(Self::grown_mid(a, i as int, side, band@), i as int);
        }
        // Rewire focus through the reclaiming band, walked from its far end.
        let ghost s2 = *self;
        proof {
            Self::lemma_reclaim_mid(a, s2, id, i as int, side, band@);
        }
        if let Some(aid) = self.active_terminal {
            if aid.eq_id(id) {
                let cand = self.next_active_pane(band);
                self.active_terminal = cand;
            }
        }
        proof {
            assert(match self.active_terminal {
                Some(x) => self.has_pane(x),
                None => true,
            }) by {
                match self.active_terminal {
                    Some(x) => {
                        if a.active_terminal == Some(id) {
                            assert(s2.has_pane(x));
                        } else {
                            assert(a.has_pane(x) && x != id);
                            assert(s2.has_pane(x));
                        }
                    },
                    None => {},
                }
            }
            assert(self.well_formed_except_cells());
        }
        let msgs = self.relayout_tab(Direction::Horizontal);
        proof {
            Self::lemma_reclaim_final(a, s2, *self, id, i as int, side, band@);
        }
        msgs
    }

    /// Midway through a reclaim, after the band has grown and the closed
    /// pane has left: ids, selectability, bounds and the hidden list are as
    /// the original had them, minus the closed pane.
    proof fn lemma_reclaim_mid(a: Tab, s2: Tab, id: PaneId, i: int, side: ReclaimSide, band: Seq<PaneId>)
        requires
            a.well_formed(),
            !a.fullscreen_is_active,
            0 <= i < a.panes_s().len(),
            a.panes_s()[i].pid == id,
            s2.panes_s() == Self::grown_mid(a, i, side, band).remove(i),
            s2.ids_sorted(),
            s2.panes_to_hide == a.panes_to_hide,
            s2.fullscreen_is_active == a.fullscreen_is_active,
            s2.viewport == a.viewport,
            s2.display_area == a.display_area,
        ensures
            !s2.has_pane(id),
            forall|pid: PaneId| pid != id ==> (s2.has_pane(pid) <==> a.has_pane(pid)),
            forall|pid: PaneId|
                pid != id && s2.has_pane(pid) ==> #[trigger] s2.pane_of(pid).selectable == a.pane_of(
                    pid,
                ).selectable,
            forall|k: int|
                0 <= k < s2.panes_s().len() ==> pane_bounded(#[trigger] s2.panes_s()[k]) && (
                s2.panes_s()[k].geom_override) is None,
            s2.panes_to_hide@.len() == 0,
            !s2.fullscreen_is_active,
            !(exists|k: int|
                0 <= k < s2.panes_s().len() && (#[trigger] s2.panes_s()[k].geom_override) is Some),
    {
        let grown = Self::grown_mid(a, i, side, band);
        a.lemma_sorted_distinct();
        assert forall|k: int, l: int|
            0 <= k < l < grown.len() implies (#[trigger] grown[k]).pid != (
        #[trigger] grown[l]).pid by {
            assert(a.panes_s()[k].pid != a.panes_s()[l].pid);
        }
        Tab::lemma_has_pane_remove(grown, i);
        Tab::lemma_has_pane_pointwise(a.panes_s(), grown);
        assert forall|k: int|
            0 <= k < s2.panes_s().len() implies pane_bounded(#[trigger] s2.panes_s()[k]) && (
        s2.panes_s()[k].geom_override) is None by {
            let k0: int = if k < i {
                k
            } else {
                k + 1
            };
            assert(s2.panes_s()[k] == grown[k0]);
            assert(pane_bounded(a.panes_s()[k0]));
            assert((a.panes_s()[k0].geom_override) is None) by {
                if (a.panes_s()[k0].geom_override) is Some {
                    assert(a.fullscreen_is_active);
                }
            }
        }
        assert forall|pid: PaneId|
            pid != id && s2.has_pane(pid) implies #[trigger] s2.pane_of(pid).selectable
            == a.pane_of(pid).selectable by {
            let k = choose|k: int| 0 <= k < s2.panes_s().len() && s2.panes_s()[k].pid == pid;
            let k0: int = if k < i {
                k
            } else {
                k + 1
            };
            assert(s2.panes_s()[k] == grown[k0]);
            assert(a.panes_s()[k0].pid == pid);
            a.lemma_idx_unique(k0, pid);
            s2.lemma_idx_unique(k, pid);
        }
    }

    /// After the relayout that closes the reclaim, the pane sequence is
    /// exactly the reclaimed shape.
    proof fn lemma_reclaim_final(a: Tab, s2: Tab, fin: Tab, id: PaneId, i: int, side: ReclaimSide, band: Seq<PaneId>)
        requires
            a.well_formed(),
            !a.fullscreen_is_active,
            0 <= i < a.panes_s().len(),
            a.panes_s()[i].pid == id,
            s2.panes_s() == Self::grown_mid(a, i, side, band).remove(i),
            s2.ids_sorted(),
            s2.viewport == a.viewport,
            s2.display_area == a.display_area,
            fin.panes_s() == s2.panes_s().map(
                |k: int, p: Pane| crate::layout::spec_frames_pane(
                    crate::layout::spec_relayout_pane(p, s2.viewport),
                    s2.viewport,
                    s2.draw_pane_frames,
                ),
            ),
            s2.draw_pane_frames == a.draw_pane_frames,
        ensures
            fin.panes_s() == Self::spec_reclaimed_panes(a, i, side, band),
            !fin.has_pane(id),
            forall|pid: PaneId| pid != id ==> (fin.has_pane(pid) <==> a.has_pane(pid)),
            fin.panes_s().len() == a.panes_s().len() - 1,
    {
        let grown = Self::grown_mid(a, i, side, band);
        a.lemma_sorted_distinct();
        assert forall|k: int, l: int|
            0 <= k < l < grown.len() implies (#[trigger] grown[k]).pid != (
        #[trigger] grown[l]).pid by {
            assert(a.panes_s()[k].pid != a.panes_s()[l].pid);
        }
        Tab::lemma_has_pane_remove(grown, i);
        Tab::lemma_has_pane_pointwise(a.panes_s(), grown);
        assert(fin.panes_s() =~= Self::spec_reclaimed_panes(a, i, side, band));
        Tab::lemma_has_pane_pointwise(s2.panes_s(), fin.panes_s());
    }

    /// The pane sequence after the band has grown, before the removal.
    pub open spec fn grown_mid(a: Tab, i: int, side: ReclaimSide, band: Seq<PaneId>) -> Seq<Pane> {
        let tg = a.panes_s()[i].geom;
        a.panes_s().map(
            |k: int, p: Pane|
                if band.contains(p.pid) {
                    spec_close_grow(p, side, tg)
                } else {
                    p
                },
        )
    }

    /// `b` is `a` after the pane was closed and the band on the given side
    /// reclaimed its rectangle: the band panes grow toward the freed space,
    /// every other pane keeps its rectangle, and, when the closed pane was
    /// active, focus falls to the last selectable pane of the band, walked
    /// from its far end (nothing, when the band holds no selectable pane).
    pub open spec fn spec_closes_with_band(a: Tab, b: Tab, id: PaneId, side: ReclaimSide) -> bool {
        exists|ids: Seq<PaneId>|
            {
                &&& #[trigger] a.band_ids_exact(side, a.pane_of(id), ids)
                &&& b.panes_s() == Self::spec_reclaimed_panes(a, a.idx_of(id), side, ids)
                &&& (a.active_terminal != Some(id) ==> b.active_terminal == a.active_terminal)
                &&& (a.active_terminal == Some(id) ==> (match b.active_terminal {
                    Some(nid) => nid != id && exists|k: int|
                        0 <= k < ids.len() && ids[k] == nid && a.has_pane(nid) && a.pane_of(
                            nid,
                        ).selectable && forall|l: int|
                            k < l < ids.len() ==> !(#[trigger] ids[l] != id && a.has_pane(ids[l])
                                && a.pane_of(ids[l]).selectable),
                    None => forall|k: int|
                        0 <= k < ids.len() ==> !(#[trigger] ids[k] != id && a.has_pane(ids[k])
                            && a.pane_of(ids[k]).selectable),
                }))
            }
    }

    /// `b` is `a` after the pane was simply dropped and the tab relaid: no
    /// rectangle but the dropped one changes, and, when the dropped pane was
    /// active, focus falls to the last selectable pane of what remains.
    pub open spec fn spec_closes_without_band(a: Tab, b: Tab, id: PaneId) -> bool {
        &&& b.panes_s() == Self::spec_reclaimed_panes(
            a,
            a.idx_of(id),
            side_dummy(),
            Seq::<PaneId>::empty(),
        )
        &&& (a.active_terminal != Some(id) ==> b.active_terminal == a.active_terminal)
        &&& (a.active_terminal == Some(id) ==> (match b.active_terminal {
            Some(nid) => b.has_pane(nid) && b.pane_of(nid).selectable && forall|l: int|
                b.idx_of(nid) < l < b.panes_s().len() ==> !(#[trigger] b.panes_s()[l]).selectable,
            None => forall|k: int|
                0 <= k < b.panes_s().len() ==> !(#[trigger] b.panes_s()[k]).selectable,
        }))
    }

    /// Close a pane. Fullscreen is left first. When the freed rectangle is
    /// percent-sized on both axes and a reclaim band exists — tried left,
    /// right, above, below — the band takes the space and, when the closed
    /// pane was active, focus falls to the band's last selectable pane.
    /// Otherwise the pane is simply dropped and the tab relaid whole.
    #[verifier::rlimit(100)]
    #[verifier::spinoff_prover]
    pub fn close_pane(&mut self, id: PaneId) -> (msgs: Vec<OutboundMessage>)
        requires
            old(self).well_formed(),
        ensures
            final(self).well_formed(),
            !final(self).has_pane(id),
            forall|pid: PaneId|
                pid != id ==> (final(self).has_pane(pid) <==> old(self).has_pane(pid)),
            old(self).has_pane(id) ==> final(self).panes_s().len() == old(self).panes_s().len()
                - 1,
            !old(self).has_pane(id) ==> final(self).panes_s().len() == old(
                self,
            ).panes_s().len(),
            // Whatever the path, the tab ends outside fullscreen: no
            // override remains and nothing stays hidden.
            !final(self).fullscreen_is_active,
            final(self).panes_to_hide@.len() == 0,
            forall|k: int|
                0 <= k < final(self).panes_s().len() ==> (#[trigger] final(self).panes_s()[k].geom_override) is None,
            !old(self).fullscreen_is_active && !old(self).has_pane(id) ==> *final(self) == *old(
                self,
            ) && msgs@.len() == 0,
            // The reclaim, side by side in the order the sides are tried.
            (!old(self).fullscreen_is_active && old(self).has_pane(id)) ==> {
                let t = old(self).pane_of(id);
                if !t.geom.is_percent() {
                    Self::spec_closes_without_band(*old(self), *final(self), id)
                } else if old(self).reclaim_band_available(ReclaimSide::Left, t) {
                    Self::spec_closes_with_band(*old(self), *final(self), id, ReclaimSide::Left)
                } else if old(self).reclaim_band_available(ReclaimSide::Right, t) {
                    Self::spec_closes_with_band(*old(self), *final(self), id, ReclaimSide::Right)
                } else if old(self).reclaim_band_available(ReclaimSide::Above, t) {
                    Self::spec_closes_with_band(*old(self), *final(self), id, ReclaimSide::Above)
                } else if old(self).reclaim_band_available(ReclaimSide::Below, t) {
                    Self::spec_closes_with_band(*old(self), *final(self), id, ReclaimSide::Below)
                } else {
                    Self::spec_closes_without_band(*old(self), *final(self), id)
                }
            },
            // Under fullscreen the close first leaves it, then reclaims from
            // the restored partition the same way.
            (old(self).fullscreen_is_active && old(self).has_pane(id)) ==> exists|mid: Tab|
                {
                    &&& #[trigger] crate::fullscreen::exits_fullscreen(*old(self), mid)
                    &&& mid.well_formed()
                    &&& mid.has_pane(id)
                    &&& {
                        let t = mid.pane_of(id);
                        if !t.geom.is_percent() {
                            Self::spec_closes_without_band(mid, *final(self), id)
                        } else if mid.reclaim_band_available(ReclaimSide::Left, t) {
                            Self::spec_closes_with_band(mid, *final(self), id, ReclaimSide::Left)
                        } else if mid.reclaim_band_available(ReclaimSide::Right, t) {
                            Self::spec_closes_with_band(mid, *final(self), id, ReclaimSide::Right)
                        } else if mid.reclaim_band_available(ReclaimSide::Above, t) {
                            Self::spec_closes_with_band(mid, *final(self), id, ReclaimSide::Above)
                        } else if mid.reclaim_band_available(ReclaimSide::Below, t) {
                            Self::spec_closes_with_band(mid, *final(self), id, ReclaimSide::Below)
                        } else {
                            Self::spec_closes_without_band(mid, *final(self), id)
                        }
                    }
                },
    {
        let mut msgs: Vec<OutboundMessage> = Vec::new();
        let ghost a = *old(self);
        if self.fullscreen_is_active {
            let mut m = self.toggle_active_pane_fullscreen();
            msgs.append(&mut m);
        }
        let ghost mid = *self;
        proof {
            if a.fullscreen_is_active {
                Tab::lemma_has_pane_pointwise(a.panes_s(), mid.panes_s());
            }
        }
        let i = match self.find_pane(id) {
            Some(i) => i,
            None => {
                return msgs;
            }
        };
        proof {
            self.lemma_idx_unique(i as int, id);
        }
        let g = self.panes[i].geom;
        let is_pct = match (g.cols.constraint, g.rows.constraint) {
            (Constraint::Percent(_), Constraint::Percent(_)) => true,
            _ => false,
        };
        if is_pct {
            if let Some(band) = self.reclaim_band(id, ReclaimSide::Left) {
                let mut m = self.reclaim_and_remove(id, i, ReclaimSide::Left, &band);
                msgs.append(&mut m);
                proof {
                    if !a.fullscreen_is_active {
                        assert(mid == a);
                        assert(Self::spec_closes_with_band(a, *self, id, ReclaimSide::Left)) by {
                            assert(a.band_ids_exact(ReclaimSide::Left, a.pane_of(id), band@));
                        }
                    } else if a.has_pane(id) {
                        assert(crate::fullscreen::exits_fullscreen(a, mid));
                        assert(Self::spec_closes_with_band(mid, *self, id, ReclaimSide::Left)) by {
                            assert(mid.band_ids_exact(ReclaimSide::Left, mid.pane_of(id), band@));
                        }
                    }
                }
                return msgs;
            }
            if let Some(band) = self.reclaim_band(id, ReclaimSide::Right) {
                let mut m = self.reclaim_and_remove(id, i, ReclaimSide::Right, &band);
                msgs.append(&mut m);
                proof {
                    if !a.fullscreen_is_active {
                        assert(mid == a);
                        assert(Self::spec_closes_with_band(a, *self, id, ReclaimSide::Right)) by {
                            assert(a.band_ids_exact(ReclaimSide::Right, a.pane_of(id), band@));
                        }
                    } else if a.has_pane(id) {
                        assert(crate::fullscreen::exits_fullscreen(a, mid));
                        assert(Self::spec_closes_with_band(mid, *self, id, ReclaimSide::Right)) by {
                            assert(mid.band_ids_exact(ReclaimSide::Right, mid.pane_of(id), band@));
                        }
                    }
                }
                return msgs;
            }
            if let Some(band) = self.reclaim_band(id, ReclaimSide::Above) {
                let mut m = self.reclaim_and_remove(id, i, ReclaimSide::Above, &band);
                msgs.append(&mut m);
                proof {
                    if !a.fullscreen_is_active {
                        assert(mid == a);
                        assert(Self::spec_closes_with_band(a, *self, id, ReclaimSide::Above)) by {
                            assert(a.band_ids_exact(ReclaimSide::Above, a.pane_of(id), band@));
                        }
                    } else if a.has_pane(id) {
                        assert(crate::fullscreen::exits_fullscreen(a, mid));
                        assert(Self::spec_closes_with_band(mid, *self, id, ReclaimSide::Above)) by {
                            assert(mid.band_ids_exact(ReclaimSide::Above, mid.pane_of(id), band@));
                        }
                    }
                }
                return msgs;
            }
            if let Some(band) = self.reclaim_band(id, ReclaimSide::Below) {
                let mut m = self.reclaim_and_remove(id, i, ReclaimSide::Below, &band);
                msgs.append(&mut m);
                proof {
                    if !a.fullscreen_is_active {
                        assert(mid == a);
                        assert(Self::spec_closes_with_band(a, *self, id, ReclaimSide::Below)) by {
                            assert(a.band_ids_exact(ReclaimSide::Below, a.pane_of(id), band@));
                        }
                    } else if a.has_pane(id) {
                        assert(crate::fullscreen::exits_fullscreen(a, mid));
                        assert(Self::spec_closes_with_band(mid, *self, id, ReclaimSide::Below)) by {
                            assert(mid.band_ids_exact(ReclaimSide::Below, mid.pane_of(id), band@));
                        }
                    }
                }
                return msgs;
            }
        }
        // No reclaiming band: drop the pane and lay the whole tab out anew.
        let _removed = self.remove_pane_at(i);
        let ghost s2 = *self;
        proof {
            assert(mid.panes_s().map(
                |k: int, p: Pane|
                    if Seq::<PaneId>::empty().contains(p.pid) {
                        spec_close_grow(p, side_dummy(), mid.panes_s()[i as int].geom)
                    } else {
                        p
                    },
            ) =~= mid.panes_s());
            assert(s2.panes_s() == Self::grown_mid(
                mid,
                i as int,
                side_dummy(),
                Seq::<PaneId>::empty(),
            ).remove(i as int));
            Self::lemma_reclaim_mid(mid, s2, id, i as int, side_dummy(), Seq::<PaneId>::empty());
        }
        let ghost mut focus_rule_holds: bool = true;
        if let Some(aid) = self.active_terminal {
            if aid.eq_id(id) {
                let remaining = self.get_pane_ids();
                let cand = self.next_active_pane(&remaining);
                self.active_terminal = cand;
                proof {
                    // The reverse walk lands on the last selectable pane of
                    // the remaining map.
                    focus_rule_holds = match cand {
                        Some(nid) => s2.has_pane(nid) && s2.pane_of(nid).selectable && forall|
                            l: int,
                        |
                            s2.idx_of(nid) < l < s2.panes_s().len() ==> !(
                            #[trigger] s2.panes_s()[l]).selectable,
                        None => forall|k: int|
                            0 <= k < s2.panes_s().len() ==> !(#[trigger] s2.panes_s()[k]).selectable,
                    };
                    assert(focus_rule_holds) by {
                        match cand {
                            Some(nid) => {
                                let k = choose|k: int|
                                    0 <= k < remaining@.len() && remaining@[k] == nid
                                        && s2.has_pane(nid) && s2.pane_of(nid).selectable && forall|
                                        l: int,
                                    |
                                        k < l < remaining@.len() ==> !(s2.has_pane(
                                            #[trigger] remaining@[l],
                                        ) && s2.pane_of(remaining@[l]).selectable);
                                s2.lemma_idx_unique(k, nid);
                                assert forall|l: int|
                                    s2.idx_of(nid) < l < s2.panes_s().len() implies !(
                                #[trigger] s2.panes_s()[l]).selectable by {
                                    assert(remaining@[l] == s2.panes_s()[l].pid);
                                    s2.lemma_idx_unique(l, s2.panes_s()[l].pid);
                                    assert(!(s2.has_pane(remaining@[l]) && s2.pane_of(
                                        remaining@[l],
                                    ).selectable));
                                }
                            },
                            None => {
                                assert forall|k: int|
                                    0 <= k < s2.panes_s().len() implies !(
                                #[trigger] s2.panes_s()[k]).selectable by {
                                    assert(remaining@[k] == s2.panes_s()[k].pid);
                                    s2.lemma_idx_unique(k, s2.panes_s()[k].pid);
                                    assert(!(s2.has_pane(remaining@[k]) && s2.pane_of(
                                        remaining@[k],
                                    ).selectable));
                                }
                            },
                        }
                    }
                }
            }
        }
        proof {
            assert(match self.active_terminal {
                Some(x) => self.has_pane(x),
                None => true,
            }) by {
                match self.active_terminal {
                    Some(x) => {
                        if mid.active_terminal == Some(id) {
                            assert(s2.has_pane(x));
                        } else {
                            assert(mid.has_pane(x) && x != id);
                            assert(s2.has_pane(x));
                        }
                    },
                    None => {},
                }
            }
            assert(self.well_formed_except_cells());
        }
        let ghost s3 = *self;
        let display = self.display_area;
        let mut m = self.resize_whole_tab(display);
        msgs.append(&mut m);
        proof {
            Self::lemma_reclaim_final(mid, s2, *self, id, i as int, side_dummy(), Seq::<PaneId>::empty());
            if a.fullscreen_is_active && a.has_pane(id) {
                assert(crate::fullscreen::exits_fullscreen(a, mid));
            }
            {
                // Selectability and pane order carry through the relayout,
                // so the focus rule holds of the final map too.
                Tab::lemma_has_pane_pointwise(s2.panes_s(), self.panes_s());
                if a.active_terminal == Some(id) {
                    match self.active_terminal {
                        Some(nid) => {
                            let k = s2.idx_of(nid);
                            s2.lemma_idx_unique(k, nid);
                            assert(self.panes_s()[k].pid == nid);
                            self.lemma_idx_unique(k, nid);
                            assert(self.pane_of(nid).selectable == s2.pane_of(nid).selectable);
                            assert forall|l: int|
                                self.idx_of(nid) < l < self.panes_s().len() implies !(
                            #[trigger] self.panes_s()[l]).selectable by {
                                assert(!(s2.panes_s()[l]).selectable);
                            }
                        },
                        None => {
                            assert forall|k: int|
                                0 <= k < self.panes_s().len() implies !(
                            #[trigger] self.panes_s()[k]).selectable by {
                                assert(!(s2.panes_s()[k]).selectable);
                            }
                        },
                    }
                }
                if !a.fullscreen_is_active {
                    assert(mid == a);
                    assert(Self::spec_closes_without_band(a, *self, id));
                } else {
                    assert(Self::spec_closes_without_band(mid, *self, id));
                }
            }
        }
        msgs
    }

    /// Close the active pane and ask the PTY host to end its child.
    pub fn close_focused_pane(&mut self) -> (msgs: Vec<OutboundMessage>)
        requires
            old(self).well_formed(),
        ensures
            final(self).well_formed(),
            match old(self).active_terminal {
                Some(aid) => !final(self).has_pane(aid) && msgs@.len() > 0 && msgs@[msgs@.len()
                    - 1] == OutboundMessage::PtyClose(aid),
                None => *final(self) == *old(self) && msgs@.len() == 0,
            },
    {
        match self.active_terminal {
            Some(active_pane_id) => {
                let mut msgs = self.close_pane(active_pane_id);
                msgs.push(OutboundMessage::PtyClose(active_pane_id));
                msgs
            }
            None => Vec::new(),
        }
    }

    /// While the tab holds as many panes as the cap allows or more, close
    /// panes from the back of the id order until there is room for one more:
    /// what remains is exactly the panes whose ids precede the cut, and every
    /// closed pane's child is handed back to the PTY host.
    pub fn close_down_to_max_terminals(&mut self) -> (msgs: Vec<OutboundMessage>)
        requires
            old(self).well_formed(),
        ensures
            final(self).well_formed(),
            match old(self).max_panes {
                Some(max) => {
                    &&& (max >= 1 ==> final(self).panes_s().len() == (
                    if old(self).panes_s().len() < max {
                        old(self).panes_s().len() as int
                    } else {
                        max - 1
                    }))
                    &&& (old(self).panes_s().len() < max ==> *final(self) == *old(self)
                        && msgs@.len() == 0)
                    &&& (max >= 1 ==> forall|pid: PaneId|
                        final(self).has_pane(pid) <==> (old(self).has_pane(pid)
                            && (final(self).panes_s().len() == old(self).panes_s().len()
                            || pid.spec_lt(
                            old(self).panes_s()[final(self).panes_s().len() as int].pid,
                        ))))
                    &&& forall|pid: PaneId|
                        old(self).has_pane(pid) && !final(self).has_pane(pid) ==> msgs@.contains(
                            OutboundMessage::PtyClose(pid),
                        )
                    &&& (max == 0 ==> *final(self) == *old(self) && msgs@.len() == 0)
                },
                None => *final(self) == *old(self) && msgs@.len() == 0,
            },
    {
        let mut msgs: Vec<OutboundMessage> = Vec::new();
        let ghost a = *old(self);
        let max = match self.max_panes {
            Some(max) => max,
            None => {
                return msgs;
            }
        };
        if max < 1 {
            return msgs;
        }
        while self.panes.len() >= max
            invariant
                a == *old(self),
                a.well_formed(),
                self.well_formed(),
                max >= 1,
                a.max_panes == Some(max),
                self.panes_s().len() <= a.panes_s().len(),
                a.panes_s().len() >= max ==> self.panes_s().len() >= max - 1,
                a.panes_s().len() < max ==> *self == a && msgs@.len() == 0,
                forall|pid: PaneId|
                    self.has_pane(pid) <==> (a.has_pane(pid) && (self.panes_s().len()
                        == a.panes_s().len() || pid.spec_lt(
                        a.panes_s()[self.panes_s().len() as int].pid,
                    ))),
                forall|pid: PaneId|
                    a.has_pane(pid) && !self.has_pane(pid) ==> msgs@.contains(
                        OutboundMessage::PtyClose(pid),
                    ),
            decreases self.panes@.len(),
        {
            let ghost c0 = *self;
            let ghost big_l = self.panes_s().len() as int;
            let last = self.panes[self.panes.len() - 1];
            let pid = last.pid;
            proof {
                self.lemma_idx_unique(big_l - 1, pid);
                // The last pane of the current map is the last pane of the
                // kept prefix of the original map.
                assert(a.has_pane(pid));
                let j = a.idx_of(pid);
                a.lemma_idx_unique(j, pid);
                if big_l < a.panes_s().len() {
                    // pid precedes the cut, so its place is before it.
                    assert(pid.spec_lt(a.panes_s()[big_l].pid));
                    if j >= big_l {
                        if j > big_l {
                            assert(a.panes_s()[big_l].pid.spec_lt(a.panes_s()[j].pid));
                            crate::pane::lemma_pane_id_order(pid, a.panes_s()[big_l].pid);
                            crate::pane::lemma_pane_id_trans(
                                a.panes_s()[big_l].pid,
                                a.panes_s()[j].pid,
                                a.panes_s()[big_l].pid,
                            );
                        }
                        assert(false);
                    }
                }
                // And it is the greatest of that prefix.
                assert(a.panes_s()[big_l - 1].pid == pid) by {
                    if j < big_l - 1 {
                        // The original pane just before the cut is in the
                        // current map and sits at or before the last slot.
                        let q = a.panes_s()[big_l - 1].pid;
                        assert(q.spec_lt(a.panes_s()[big_l].pid) || big_l == a.panes_s().len());
                        assert(a.has_pane(q)) by {
                            a.lemma_idx_unique(big_l - 1, q);
                        }
                        assert(self.has_pane(q));
                        let w = self.idx_of(q);
                        self.lemma_idx_unique(w, q);
                        assert(w < big_l);
                        // q is above pid in the order, yet pid fills the
                        // last slot: contradiction with sortedness.
                        assert(a.panes_s()[j].pid.spec_lt(q));
                        if w < big_l - 1 {
                            assert(self.panes_s()[w].pid.spec_lt(self.panes_s()[big_l - 1].pid));
                            crate::pane::lemma_pane_id_order(q, pid);
                            assert(false);
                        } else {
                            assert(self.panes_s()[big_l - 1].pid == q);
                            assert(false);
                        }
                    }
                    if j > big_l - 1 {
                        assert(false);
                    }
                }
            }
            let ghost msgs0 = msgs@;
            msgs.push(OutboundMessage::PtyClose(pid));
            let mut m = self.close_pane(pid);
            msgs.append(&mut m);
            proof {
                a.lemma_sorted_distinct();
                // The cut moves one pane down.
                assert forall|q: PaneId|
                    self.has_pane(q) implies (a.has_pane(q) && (self.panes_s().len()
                        == a.panes_s().len() || q.spec_lt(
                        a.panes_s()[self.panes_s().len() as int].pid,
                    ))) by {
                    assert(c0.has_pane(q) && q != pid);
                    assert(a.has_pane(q));
                    assert(self.panes_s().len() as int == big_l - 1);
                    let jq = a.idx_of(q);
                    a.lemma_idx_unique(jq, q);
                    if jq >= big_l - 1 {
                        if jq == big_l - 1 {
                            assert(q == pid);
                        } else {
                            assert(a.panes_s()[big_l - 1].pid.spec_lt(a.panes_s()[jq].pid));
                            if big_l < a.panes_s().len() {
                                assert(q.spec_lt(a.panes_s()[big_l].pid));
                                if jq == big_l {
                                    crate::pane::lemma_pane_id_order(q, q);
                                } else {
                                    assert(a.panes_s()[big_l].pid.spec_lt(a.panes_s()[jq].pid));
                                    crate::pane::lemma_pane_id_order(q, a.panes_s()[big_l].pid);
                                }
                            }
                        }
                        assert(false);
                    }
                    assert(q.spec_lt(a.panes_s()[big_l - 1].pid));
                }
                assert forall|q: PaneId|
                    (a.has_pane(q) && (self.panes_s().len() == a.panes_s().len() || q.spec_lt(
                        a.panes_s()[self.panes_s().len() as int].pid,
                    ))) implies self.has_pane(q) by {
                    assert(self.panes_s().len() as int == big_l - 1);
                    assert(q.spec_lt(a.panes_s()[big_l - 1].pid));
                    assert(q != pid) by {
                        crate::pane::lemma_pane_id_order(q, pid);
                    }
                    assert(c0.has_pane(q)) by {
                        if big_l < a.panes_s().len() {
                            crate::pane::lemma_pane_id_trans(
                                q,
                                a.panes_s()[big_l - 1].pid,
                                a.panes_s()[big_l].pid,
                            );
                        }
                    }
                }
                // Every pane gone so far has its closing message.
                assert forall|q: PaneId|
                    a.has_pane(q) && !self.has_pane(q) implies msgs@.contains(
                    OutboundMessage::PtyClose(q),
                ) by {
                    if q == pid {
                        assert(msgs@[msgs0.len() as int] == OutboundMessage::PtyClose(pid));
                    } else {
                        if !c0.has_pane(q) {
                            assert(msgs0.contains(OutboundMessage::PtyClose(q)));
                            let w = choose|w: int|
                                0 <= w < msgs0.len() && msgs0[w] == OutboundMessage::PtyClose(q);
                            assert(msgs@[w] == OutboundMessage::PtyClose(q));
                        } else {
                            assert(self.has_pane(q));
                            assert(false);
                        }
                    }
                }
            }
        }
        msgs
    }

    /// Remove the pane at the given index; the rest keep their order.
    fn remove_pane_at(&mut self, i: usize) -> (p: Pane)
        requires
            old(self).ids_sorted(),
            i < old(self).panes_s().len(),
        ensures
            p == old(self).panes_s()[i as int],
            final(self).panes_s() == old(self).panes_s().remove(i as int),
            final(self).ids_sorted(),
            *final(self) == (Tab { panes: final(self).panes, ..*old(self) }),
    {
        let p = self.panes.remove(i);
        proof {
            assert forall|k: int, l: int|
                0 <= k < l < self.panes@.len() implies (#[trigger] self.panes@[k].pid).spec_lt(
                #[trigger] self.panes@[l].pid,
            ) by {
                let k0: int = if k < i { k } else { k + 1 };
                let l0: int = if l < i { l } else { l + 1 };
                assert(self.panes@[k] == old(self).panes_s()[k0]);
                assert(self.panes@[l] == old(self).panes_s()[l0]);
            }
        }
        p
    }
}

} // verus!
