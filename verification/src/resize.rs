//! Directional resizing: the active pane's border moves by one resize step,
//! the directly adjacent panes on the far side of the border give up or take
//! the space, and the contiguous bands of aligned panes on either flank move
//! with the border. A band is walked from the target pane edge to edge and
//! trimmed at the nearest stop border of the adjacent panes.
use vstd::prelude::*;

use crate::geom::{Constraint, Dimension, PaneGeom, FULL_PERCENT, RESIZE_PERCENT};
use crate::pane::{Pane, PaneId};
use crate::queries::{EdgeRel, edge_rel_holds};
use crate::tab::{Direction, OutboundMessage, Tab, pane_bounded};

verus! {

/// The band walk's coordinate on a pane: the lower percent edge on the walk
/// axis. Bands of left- or right-aligned panes walk the vertical axis; bands
/// of top- or bottom-aligned panes walk the horizontal axis.
pub open spec fn walk_lo(align: EdgeRel, p: Pane) -> int {
    match align {
        EdgeRel::LeftAligned | EdgeRel::RightAligned => p.geom.py as int,
        _ => p.geom.px as int,
    }
}

/// The band walk's upper percent edge on the walk axis.
pub open spec fn walk_hi(align: EdgeRel, p: Pane) -> int {
    match align {
        EdgeRel::LeftAligned | EdgeRel::RightAligned => p.geom.py + p.geom.ph(),
        _ => p.geom.px + p.geom.pw(),
    }
}

/// The sets a cascade computed: the stop borders, the two flank bands with
/// their borders, and the retained neighbours.
pub struct CascadeSets {
    pub stops: Seq<u32>,
    pub border_before: u32,
    pub band_before: Seq<PaneId>,
    pub border_after: u32,
    pub band_after: Seq<PaneId>,
    pub kept: Seq<PaneId>,
}

impl Tab {
    /// Every returned pane is aligned with the target and lies, on the walk
    /// axis, between the target's edge and the returned border.
    pub open spec fn band_sound(
        self,
        align: EdgeRel,
        after: bool,
        t: Pane,
        border: u32,
        ids: Seq<PaneId>,
    ) -> bool {
        &&& forall|k: int|
            0 <= k < ids.len() ==> self.has_pane(#[trigger] ids[k]) && edge_rel_holds(
                align,
                self.pane_of(ids[k]),
                t,
            ) && (if after {
                walk_lo(align, self.pane_of(ids[k])) >= walk_hi(align, t) && walk_hi(
                    align,
                    self.pane_of(ids[k]),
                ) <= border
            } else {
                walk_lo(align, self.pane_of(ids[k])) >= border && walk_hi(
                    align,
                    self.pane_of(ids[k]),
                ) <= walk_lo(align, t)
            })
        &&& (if after {
            border >= walk_hi(align, t)
        } else {
            border <= walk_lo(align, t)
        })
    }

    /// The walk frontier the band ends at: the far edge of its last pane, or
    /// the target's own edge while the band is empty.
    pub open spec fn band_frontier(self, align: EdgeRel, after: bool, t: Pane, ids: Seq<PaneId>) -> int {
        if ids.len() == 0 {
            if after {
                walk_hi(align, t)
            } else {
                walk_lo(align, t)
            }
        } else {
            if after {
                walk_hi(align, self.pane_of(ids[ids.len() - 1]))
            } else {
                walk_lo(align, self.pane_of(ids[ids.len() - 1]))
            }
        }
    }

    /// The band in full: sound as above; a contiguous chain starting at the
    /// target's edge, each pane abutting the one before; no member's near
    /// edge is a stop border; and the chain is maximal — it ends only at a
    /// stop border, at the edge of percent space, or at a genuine gap where
    /// no aligned pane abuts the frontier.
    pub open spec fn band_exact(
        self,
        align: EdgeRel,
        after: bool,
        t: Pane,
        borders: Seq<u32>,
        border: u32,
        ids: Seq<PaneId>,
    ) -> bool {
        let f = self.band_frontier(align, after, t, ids);
        &&& self.band_sound(align, after, t, border, ids)
        &&& forall|k: int|
            0 <= k < ids.len() ==> (if after {
                walk_lo(align, self.pane_of(#[trigger] ids[k]))
            } else {
                walk_hi(align, self.pane_of(#[trigger] ids[k]))
            }) == (if k == 0 {
                self.band_frontier(align, after, t, Seq::empty())
            } else {
                self.band_frontier(align, after, t, ids.take(k))
            })
        &&& forall|k: int|
            0 <= k < ids.len() ==> !borders.contains(
                (if after {
                    walk_lo(align, self.pane_of(#[trigger] ids[k]))
                } else {
                    walk_hi(align, self.pane_of(ids[k]))
                }) as u32,
            )
        &&& (!borders.contains(f as u32) && (if after {
            f < FULL_PERCENT
        } else {
            f > 0
        }) ==> forall|j: int|
            0 <= j < self.panes_s().len() ==> !(edge_rel_holds(
                align,
                #[trigger] self.panes_s()[j],
                t,
            ) && (if after {
                walk_lo(align, self.panes_s()[j]) == f && walk_hi(align, self.panes_s()[j]) > f
            } else {
                walk_hi(align, self.panes_s()[j]) == f && walk_lo(align, self.panes_s()[j]) < f
            })))
        &&& (borders.contains(f as u32) ==> border == f)
    }

    /// Walk the contiguous run of aligned panes away from the target pane —
    /// upward or leftward when `after` is false, downward or rightward when
    /// it is true — stopping at the nearest stop border, at the edge of
    /// percent space, or at the first gap.
    fn contiguous_band(&self, id: PaneId, align: EdgeRel, after: bool, borders: &Vec<u32>) -> (r: (
        u32,
        Vec<PaneId>,
    ))
        requires
            self.well_formed_except_cells(),
            self.has_pane(id),
        ensures
            self.band_sound(align, after, self.pane_of(id), r.0, r.1@),
            self.band_exact(align, after, self.pane_of(id), borders@, r.0, r.1@),
    {
        let ti = match self.find_pane(id) {
            Some(i) => i,
            None => {
                proof {
                    assert(false);
                }
                0
            }
        };
        proof {
            self.lemma_idx_unique(ti as int, id);
            assert(pane_bounded(self.panes_s()[ti as int]));
        }
        let t = self.panes[ti];
        let t_lo: u32 = match align {
            EdgeRel::LeftAligned | EdgeRel::RightAligned => t.geom.py,
            _ => t.geom.px,
        };
        let t_hi: u32 = match align {
            EdgeRel::LeftAligned | EdgeRel::RightAligned => t.geom.py + match t.geom.rows.constraint {
                Constraint::Percent(p) => p,
                Constraint::Fixed(_) => 0,
            },
            _ => t.geom.px + match t.geom.cols.constraint {
                Constraint::Percent(p) => p,
                Constraint::Fixed(_) => 0,
            },
        };
        let mut kept: Vec<PaneId> = Vec::new();
        let mut frontier: u32 = if after {
            t_hi
        } else {
            t_lo
        };
        let mut stop: Option<u32> = None;
        let mut progress = true;
        while progress
            invariant
                self.well_formed_except_cells(),
                self.has_pane(id),
                t == self.pane_of(id),
                t_lo == walk_lo(align, t),
                t_hi == walk_hi(align, t),
                t_hi <= FULL_PERCENT,
                frontier <= FULL_PERCENT,
                after ==> frontier >= t_hi,
                !after ==> frontier <= t_lo,
                frontier == self.band_frontier(align, after, t, kept@),
                forall|k: int|
                    0 <= k < kept@.len() ==> self.has_pane(#[trigger] kept@[k]) && edge_rel_holds(
                        align,
                        self.pane_of(kept@[k]),
                        t,
                    ) && (if after {
                        walk_lo(align, self.pane_of(kept@[k])) >= t_hi && walk_hi(
                            align,
                            self.pane_of(kept@[k]),
                        ) <= frontier
                    } else {
                        walk_lo(align, self.pane_of(kept@[k])) >= frontier && walk_hi(
                            align,
                            self.pane_of(kept@[k]),
                        ) <= t_lo
                    }),
                forall|k: int|
                    0 <= k < kept@.len() ==> (if after {
                        walk_lo(align, self.pane_of(#[trigger] kept@[k]))
                    } else {
                        walk_hi(align, self.pane_of(kept@[k]))
                    }) == (if k == 0 {
                        self.band_frontier(align, after, t, Seq::empty())
                    } else {
                        self.band_frontier(align, after, t, kept@.take(k))
                    }),
                forall|k: int|
                    0 <= k < kept@.len() ==> !borders@.contains(
                        (if after {
                            walk_lo(align, self.pane_of(#[trigger] kept@[k]))
                        } else {
                            walk_hi(align, self.pane_of(kept@[k]))
                        }) as u32,
                    ),
                match stop {
                    Some(b) => !progress && b == frontier && borders@.contains(b),
                    None => true,
                },
                !progress && stop is None ==> (borders@.contains(frontier) == false) && ((if after {
                    frontier >= FULL_PERCENT
                } else {
                    frontier == 0
                }) || forall|j: int|
                    0 <= j < self.panes_s().len() ==> !(edge_rel_holds(
                        align,
                        #[trigger] self.panes_s()[j],
                        t,
                    ) && (if after {
                        walk_lo(align, self.panes_s()[j]) == frontier && walk_hi(
                            align,
                            self.panes_s()[j],
                        ) > frontier
                    } else {
                        walk_hi(align, self.panes_s()[j]) == frontier && walk_lo(
                            align,
                            self.panes_s()[j],
                        ) < frontier
                    }))),
            decreases (if after {
                FULL_PERCENT - frontier
            } else {
                frontier as int
            }), (if progress {
                1int
            } else {
                0int
            }),
        {
            // A chain pane whose near edge sits on a stop border is cut off,
            // and the walk ends there.
            if crate::queries::borders_contain(borders, frontier) {
                stop = Some(frontier);
                progress = false;
                continue ;
            }
            let in_range = if after {
                frontier < FULL_PERCENT
            } else {
                frontier > 0
            };
            if !in_range {
                progress = false;
                continue ;
            }
            // Find an aligned pane abutting the frontier.
            let mut found: Option<usize> = None;
            let mut i: usize = 0;
            while i < self.panes.len()
                invariant
                    self.well_formed_except_cells(),
                    self.has_pane(id),
                    t == self.pane_of(id),
                    i <= self.panes_s().len(),
                    match found {
                        Some(f) => f < self.panes_s().len() && edge_rel_holds(
                            align,
                            self.panes_s()[f as int],
                            t,
                        ) && (if after {
                            walk_lo(align, self.panes_s()[f as int]) == frontier && walk_hi(
                                align,
                                self.panes_s()[f as int],
                            ) > frontier
                        } else {
                            walk_hi(align, self.panes_s()[f as int]) == frontier && walk_lo(
                                align,
                                self.panes_s()[f as int],
                            ) < frontier
                        }),
                        None => forall|j: int|
                            0 <= j < i ==> !(edge_rel_holds(
                                align,
                                #[trigger] self.panes_s()[j],
                                t,
                            ) && (if after {
                                walk_lo(align, self.panes_s()[j]) == frontier && walk_hi(
                                    align,
                                    self.panes_s()[j],
                                ) > frontier
                            } else {
                                walk_hi(align, self.panes_s()[j]) == frontier && walk_lo(
                                    align,
                                    self.panes_s()[j],
                                ) < frontier
                            })),
                    },
                decreases self.panes_s().len() - i,
            {
                let p = self.panes[i];
                proof {
                    assert(pane_bounded(self.panes_s()[i as int]));
                }
                let is_aligned = crate::resize::align_exec(align, &p, &t);
                if is_aligned && found.is_none() {
                    let p_lo: u32 = match align {
                        EdgeRel::LeftAligned | EdgeRel::RightAligned => p.geom.py,
                        _ => p.geom.px,
                    };
                    let p_hi: u32 = match align {
                        EdgeRel::LeftAligned | EdgeRel::RightAligned => p.geom.py
                            + match p.geom.rows.constraint {
                            Constraint::Percent(w) => w,
                            Constraint::Fixed(_) => 0,
                        },
                        _ => p.geom.px + match p.geom.cols.constraint {
                            Constraint::Percent(w) => w,
                            Constraint::Fixed(_) => 0,
                        },
                    };
                    if after {
                        if p_lo == frontier && p_hi > frontier {
                            found = Some(i);
                        }
                    } else {
                        if p_hi == frontier && p_lo < frontier {
                            found = Some(i);
                        }
                    }
                }
                i = i + 1;
            }
            match found {
                Some(f) => {
                    let p = self.panes[f];
                    proof {
                        self.lemma_idx_unique(f as int, p.pid);
                        assert(pane_bounded(self.panes_s()[f as int]));
                    }
                    let ghost kept_before = kept@;
                    kept.push(p.pid);
                    let new_frontier: u32 = match align {
                        EdgeRel::LeftAligned | EdgeRel::RightAligned => if after {
                            p.geom.py + match p.geom.rows.constraint {
                                Constraint::Percent(w) => w,
                                Constraint::Fixed(_) => 0,
                            }
                        } else {
                            p.geom.py
                        },
                        _ => if after {
                            p.geom.px + match p.geom.cols.constraint {
                                Constraint::Percent(w) => w,
                                Constraint::Fixed(_) => 0,
                            }
                        } else {
                            p.geom.px
                        },
                    };
                    proof {
                        assert(kept@.take(kept@.len() - 1) =~= kept_before);
                        assert forall|k: int|
                            0 <= k < kept@.len() implies (if after {
                            walk_lo(align, self.pane_of(#[trigger] kept@[k]))
                        } else {
                            walk_hi(align, self.pane_of(kept@[k]))
                        }) == (if k == 0 {
                            self.band_frontier(align, after, t, Seq::empty())
                        } else {
                            self.band_frontier(align, after, t, kept@.take(k))
                        }) by {
                            if k < kept@.len() - 1 {
                                assert(kept@[k] == kept_before[k]);
                                assert(kept@.take(k) =~= kept_before.take(k));
                            } else {
                                assert(kept@[k] == p.pid);
                            }
                        }
                    }
                    frontier = new_frontier;
                }
                None => {
                    progress = false;
                }
            }
        }
        let final_border: u32 = match stop {
            Some(b) => b,
            None => {
                if kept.len() == 0 {
                    if after {
                        t_hi
                    } else {
                        t_lo
                    }
                } else {
                    if after {
                        FULL_PERCENT
                    } else {
                        0
                    }
                }
            }
        };
        proof {
            assert forall|k: int|
                0 <= k < kept@.len() implies (if after {
                walk_lo(align, self.pane_of(#[trigger] kept@[k])) >= t_hi && walk_hi(
                    align,
                    self.pane_of(kept@[k]),
                ) <= final_border
            } else {
                walk_lo(align, self.pane_of(kept@[k])) >= final_border && walk_hi(
                    align,
                    self.pane_of(kept@[k]),
                ) <= t_lo
            }) by {
                assert(self.has_pane(kept@[k]));
            }
        }
        (final_border, kept)
    }
}

/// One directional resize of one pane's percent rectangle: which edge moves,
/// and whither.
#[derive(Clone, Copy, PartialEq, Eq, Structural, Debug)]
pub enum PaneResize {
    GrowRight,
    GrowLeft,
    GrowDown,
    GrowUp,
    ShrinkFromRight,
    ShrinkFromLeft,
    ShrinkFromBottom,
    ShrinkFromTop,
}

/// The pane after one directional resize of `by` percent units; the formulas
/// are those of the pane's own resize mutators.
pub open spec fn spec_resize_pane(p: Pane, m: PaneResize, by: u32) -> Pane {
    let g = p.geom;
    match m {
        PaneResize::GrowRight => Pane {
            geom: match g.cols.constraint {
                Constraint::Fixed(_) => g,
                Constraint::Percent(w) => PaneGeom {
                    cols: Dimension {
                        constraint: Constraint::Percent(
                            if g.px + w + by <= FULL_PERCENT {
                                (w + by) as u32
                            } else {
                                (FULL_PERCENT - g.px) as u32
                            },
                        ),
                        ..g.cols
                    },
                    ..g
                },
            },
            ..p
        },
        PaneResize::GrowLeft => Pane {
            geom: match g.cols.constraint {
                Constraint::Fixed(_) => g,
                Constraint::Percent(w) => {
                    let shift = if g.px >= by {
                        by
                    } else {
                        g.px
                    };
                    PaneGeom {
                        px: (g.px - shift) as u32,
                        cols: Dimension {
                            constraint: Constraint::Percent(
                                if w + shift <= FULL_PERCENT {
                                    (w + shift) as u32
                                } else {
                                    FULL_PERCENT
                                },
                            ),
                            ..g.cols
                        },
                        ..g
                    }
                },
            },
            ..p
        },
        PaneResize::GrowDown => Pane {
            geom: match g.rows.constraint {
                Constraint::Fixed(_) => g,
                Constraint::Percent(h) => PaneGeom {
                    rows: Dimension {
                        constraint: Constraint::Percent(
                            if g.py + h + by <= FULL_PERCENT {
                                (h + by) as u32
                            } else {
                                (FULL_PERCENT - g.py) as u32
                            },
                        ),
                        ..g.rows
                    },
                    ..g
                },
            },
            ..p
        },
        PaneResize::GrowUp => Pane {
            geom: match g.rows.constraint {
                Constraint::Fixed(_) => g,
                Constraint::Percent(h) => {
                    let shift = if g.py >= by {
                        by
                    } else {
                        g.py
                    };
                    PaneGeom {
                        py: (g.py - shift) as u32,
                        rows: Dimension {
                            constraint: Constraint::Percent(
                                if h + shift <= FULL_PERCENT {
                                    (h + shift) as u32
                                } else {
                                    FULL_PERCENT
                                },
                            ),
                            ..g.rows
                        },
                        ..g
                    }
                },
            },
            ..p
        },
        PaneResize::ShrinkFromRight => Pane {
            geom: match g.cols.constraint {
                Constraint::Fixed(_) => g,
                Constraint::Percent(w) => PaneGeom {
                    cols: Dimension {
                        constraint: Constraint::Percent(if w >= by { (w - by) as u32 } else { 0u32 }),
                        ..g.cols
                    },
                    ..g
                },
            },
            ..p
        },
        PaneResize::ShrinkFromLeft => Pane {
            geom: match g.cols.constraint {
                Constraint::Fixed(_) => g,
                Constraint::Percent(w) => {
                    let shift = if w >= by {
                        by
                    } else {
                        w
                    };
                    PaneGeom {
                        px: if g.px + shift <= FULL_PERCENT {
                            (g.px + shift) as u32
                        } else {
                            FULL_PERCENT
                        },
                        cols: Dimension {
                            constraint: Constraint::Percent((w - shift) as u32),
                            ..g.cols
                        },
                        ..g
                    }
                },
            },
            ..p
        },
        PaneResize::ShrinkFromBottom => Pane {
            geom: match g.rows.constraint {
                Constraint::Fixed(_) => g,
                Constraint::Percent(h) => PaneGeom {
                    rows: Dimension {
                        constraint: Constraint::Percent(if h >= by { (h - by) as u32 } else { 0u32 }),
                        ..g.rows
                    },
                    ..g
                },
            },
            ..p
        },
        PaneResize::ShrinkFromTop => Pane {
            geom: match g.rows.constraint {
                Constraint::Fixed(_) => g,
                Constraint::Percent(h) => {
                    let shift = if h >= by {
                        by
                    } else {
                        h
                    };
                    PaneGeom {
                        py: if g.py + shift <= FULL_PERCENT {
                            (g.py + shift) as u32
                        } else {
                            FULL_PERCENT
                        },
                        rows: Dimension {
                            constraint: Constraint::Percent((h - shift) as u32),
                            ..g.rows
                        },
                        ..g
                    }
                },
            },
            ..p
        },
    }
}

/// A directional resize of the active pane with its neighbour cascade.
#[derive(Clone, Copy, PartialEq, Eq, Structural, Debug)]
pub enum CascadeOp {
    IncreaseRight,
    IncreaseLeft,
    IncreaseUp,
    IncreaseDown,
    ReduceRight,
    ReduceLeft,
    ReduceUp,
    ReduceDown,
}

/// How the target pane and its flanking bands move under the operation.
pub open spec fn op_band_resize(op: CascadeOp) -> PaneResize {
    match op {
        CascadeOp::IncreaseRight => PaneResize::GrowRight,
        CascadeOp::IncreaseLeft => PaneResize::GrowLeft,
        CascadeOp::IncreaseUp => PaneResize::GrowUp,
        CascadeOp::IncreaseDown => PaneResize::GrowDown,
        CascadeOp::ReduceRight => PaneResize::ShrinkFromLeft,
        CascadeOp::ReduceLeft => PaneResize::ShrinkFromRight,
        CascadeOp::ReduceUp => PaneResize::ShrinkFromBottom,
        CascadeOp::ReduceDown => PaneResize::ShrinkFromTop,
    }
}

/// How the panes beyond the moving border move under the operation.
pub open spec fn op_neighbour_resize(op: CascadeOp) -> PaneResize {
    match op {
        CascadeOp::IncreaseRight => PaneResize::ShrinkFromLeft,
        CascadeOp::IncreaseLeft => PaneResize::ShrinkFromRight,
        CascadeOp::IncreaseUp => PaneResize::ShrinkFromBottom,
        CascadeOp::IncreaseDown => PaneResize::ShrinkFromTop,
        CascadeOp::ReduceRight => PaneResize::GrowRight,
        CascadeOp::ReduceLeft => PaneResize::GrowLeft,
        CascadeOp::ReduceUp => PaneResize::GrowUp,
        CascadeOp::ReduceDown => PaneResize::GrowDown,
    }
}

/// On which side of the target the panes beyond the moving border lie.
pub open spec fn op_neighbour_rel(op: CascadeOp) -> EdgeRel {
    match op {
        CascadeOp::IncreaseRight | CascadeOp::ReduceLeft => EdgeRel::DirectlyRightOf,
        CascadeOp::IncreaseLeft | CascadeOp::ReduceRight => EdgeRel::DirectlyLeftOf,
        CascadeOp::IncreaseUp | CascadeOp::ReduceDown => EdgeRel::DirectlyAbove,
        CascadeOp::IncreaseDown | CascadeOp::ReduceUp => EdgeRel::DirectlyBelow,
    }
}

/// Which alignment the flanking bands share with the target.
pub open spec fn op_band_align(op: CascadeOp) -> EdgeRel {
    match op {
        CascadeOp::IncreaseRight | CascadeOp::ReduceLeft => EdgeRel::RightAligned,
        CascadeOp::IncreaseLeft | CascadeOp::ReduceRight => EdgeRel::LeftAligned,
        CascadeOp::IncreaseUp | CascadeOp::ReduceDown => EdgeRel::TopAligned,
        CascadeOp::IncreaseDown | CascadeOp::ReduceUp => EdgeRel::BottomAligned,
    }
}

pub open spec fn op_is_reduce(op: CascadeOp) -> bool {
    match op {
        CascadeOp::ReduceRight | CascadeOp::ReduceLeft | CascadeOp::ReduceUp
            | CascadeOp::ReduceDown => true,
        _ => false,
    }
}

fn apply_pane_resize(p: &mut Pane, m: PaneResize, by: u32)
    requires
        old(p).geom.px + old(p).geom.pw() <= FULL_PERCENT,
        old(p).geom.py + old(p).geom.ph() <= FULL_PERCENT,
        old(p).geom.px <= FULL_PERCENT,
        old(p).geom.py <= FULL_PERCENT,
    ensures
        *final(p) == spec_resize_pane(*old(p), m, by),
{
    match m {
        PaneResize::GrowRight => p.increase_width_right(by),
        PaneResize::GrowLeft => p.increase_width_left(by),
        PaneResize::GrowDown => p.increase_height_down(by),
        PaneResize::GrowUp => p.increase_height_up(by),
        PaneResize::ShrinkFromRight => p.reduce_width_left(by),
        PaneResize::ShrinkFromLeft => p.reduce_width_right(by),
        PaneResize::ShrinkFromBottom => p.reduce_height_up(by),
        PaneResize::ShrinkFromTop => p.reduce_height_down(by),
    }
}

impl Tab {
    /// Growing in a direction is permitted when there are direct neighbours
    /// on that side and every one of them can give up the step and keep the
    /// resize floor.
    pub open spec fn spec_can_increase(self, id: PaneId, op: CascadeOp, by: u32) -> bool {
        let t = self.pane_of(id);
        let rel = op_neighbour_rel(op);
        &&& exists|j: int|
            0 <= j < self.panes_s().len() && edge_rel_holds(rel, #[trigger] self.panes_s()[j], t)
        &&& forall|j: int|
            0 <= j < self.panes_s().len() && edge_rel_holds(rel, #[trigger] self.panes_s()[j], t)
                ==> {
                let d = if op_neighbour_rel(op) == EdgeRel::DirectlyLeftOf || op_neighbour_rel(op)
                    == EdgeRel::DirectlyRightOf {
                    self.panes_s()[j].geom.cols
                } else {
                    self.panes_s()[j].geom.rows
                };
                d.is_percent() && d.pct() >= by + RESIZE_PERCENT
            }
    }

    /// Shrinking in a direction is permitted when the pane itself can give up
    /// the step, keep the floor, and has somewhere to give the space back.
    pub open spec fn spec_can_reduce(self, id: PaneId, op: CascadeOp, by: u32) -> bool {
        let t = self.pane_of(id);
        let d = if op_neighbour_rel(op) == EdgeRel::DirectlyLeftOf || op_neighbour_rel(op)
            == EdgeRel::DirectlyRightOf {
            t.geom.cols
        } else {
            t.geom.rows
        };
        &&& d.is_percent()
        &&& d.pct() >= by + RESIZE_PERCENT
        &&& exists|j: int|
            0 <= j < self.panes_s().len() && edge_rel_holds(
                op_neighbour_rel(op),
                #[trigger] self.panes_s()[j],
                t,
            )
    }

    /// Whether growing in the direction of the op is permitted: there are
    /// direct neighbours beyond the border and every one of them can give up
    /// the step and keep the resize floor.
    pub fn can_increase_surroundings(&self, id: PaneId, op: CascadeOp, by: u32) -> (r: bool)
        requires
            self.well_formed_except_cells(),
            self.has_pane(id),
            by + RESIZE_PERCENT <= FULL_PERCENT,
        ensures
            r == self.spec_can_increase(id, op, by),
    {
        let ti = match self.find_pane(id) {
            Some(i) => i,
            None => {
                proof {
                    assert(false);
                }
                0
            }
        };
        proof {
            self.lemma_idx_unique(ti as int, id);
        }
        let t = self.panes[ti];
        let rel = match op {
            CascadeOp::IncreaseRight | CascadeOp::ReduceLeft => EdgeRel::DirectlyRightOf,
            CascadeOp::IncreaseLeft | CascadeOp::ReduceRight => EdgeRel::DirectlyLeftOf,
            CascadeOp::IncreaseUp | CascadeOp::ReduceDown => EdgeRel::DirectlyAbove,
            CascadeOp::IncreaseDown | CascadeOp::ReduceUp => EdgeRel::DirectlyBelow,
        };
        let horizontal = match rel {
            EdgeRel::DirectlyLeftOf | EdgeRel::DirectlyRightOf => true,
            _ => false,
        };
        let mut any = false;
        let mut all = true;
        let mut i: usize = 0;
        while i < self.panes.len()
            invariant
                by + RESIZE_PERCENT <= FULL_PERCENT,
                self.well_formed_except_cells(),
                self.has_pane(id),
                t == self.pane_of(id),
                rel == op_neighbour_rel(op),
                horizontal == (rel == EdgeRel::DirectlyLeftOf || rel == EdgeRel::DirectlyRightOf),
                i <= self.panes_s().len(),
                any == exists|j: int|
                    0 <= j < i && edge_rel_holds(rel, #[trigger] self.panes_s()[j], t),
                all == forall|j: int|
                    0 <= j < i && edge_rel_holds(rel, #[trigger] self.panes_s()[j], t) ==> {
                        let d = if horizontal {
                            self.panes_s()[j].geom.cols
                        } else {
                            self.panes_s()[j].geom.rows
                        };
                        d.is_percent() && d.pct() >= by + RESIZE_PERCENT
                    },
            decreases self.panes_s().len() - i,
        {
            let p = self.panes[i];
            proof {
                assert(pane_bounded(self.panes_s()[i as int]));
            }
            if align_exec(rel, &p, &t) {
                proof {
                    assert(edge_rel_holds(rel, self.panes_s()[i as int], t));
                }
                any = true;
                let d = if horizontal {
                    p.geom.cols
                } else {
                    p.geom.rows
                };
                let ok = match d.constraint {
                    Constraint::Percent(w) => w >= by + RESIZE_PERCENT,
                    Constraint::Fixed(_) => false,
                };
                if !ok {
                    all = false;
                }
            }
            i = i + 1;
        }
        any && all
    }

    /// Whether shrinking in the direction of the op is permitted: the pane
    /// itself can give up the step and keep the resize floor, and there is a
    /// neighbour beyond the border to give the space back to.
    pub fn can_reduce_surroundings(&self, id: PaneId, op: CascadeOp, by: u32) -> (r: bool)
        requires
            self.well_formed_except_cells(),
            self.has_pane(id),
            by + RESIZE_PERCENT <= FULL_PERCENT,
        ensures
            r == self.spec_can_reduce(id, op, by),
    {
        let ti = match self.find_pane(id) {
            Some(i) => i,
            None => {
                proof {
                    assert(false);
                }
                0
            }
        };
        proof {
            self.lemma_idx_unique(ti as int, id);
            assert(pane_bounded(self.panes_s()[ti as int]));
        }
        let t = self.panes[ti];
        let rel = match op {
            CascadeOp::IncreaseRight | CascadeOp::ReduceLeft => EdgeRel::DirectlyRightOf,
            CascadeOp::IncreaseLeft | CascadeOp::ReduceRight => EdgeRel::DirectlyLeftOf,
            CascadeOp::IncreaseUp | CascadeOp::ReduceDown => EdgeRel::DirectlyAbove,
            CascadeOp::IncreaseDown | CascadeOp::ReduceUp => EdgeRel::DirectlyBelow,
        };
        let horizontal = match rel {
            EdgeRel::DirectlyLeftOf | EdgeRel::DirectlyRightOf => true,
            _ => false,
        };
        let d = if horizontal {
            t.geom.cols
        } else {
            t.geom.rows
        };
        let own_ok = match d.constraint {
            Constraint::Percent(w) => w >= by + RESIZE_PERCENT,
            Constraint::Fixed(_) => false,
        };
        if !own_ok {
            return false;
        }
        let mut any = false;
        let mut i: usize = 0;
        while i < self.panes.len()
            invariant
                self.well_formed_except_cells(),
                self.has_pane(id),
                t == self.pane_of(id),
                rel == op_neighbour_rel(op),
                i <= self.panes_s().len(),
                any == exists|j: int|
                    0 <= j < i && edge_rel_holds(rel, #[trigger] self.panes_s()[j], t),
            decreases self.panes_s().len() - i,
        {
            let p = self.panes[i];
            proof {
                assert(pane_bounded(self.panes_s()[i as int]));
            }
            if align_exec(rel, &p, &t) {
                proof {
                    assert(edge_rel_holds(rel, self.panes_s()[i as int], t));
                }
                any = true;
            }
            i = i + 1;
        }
        any
    }

    /// The resize moves a vertical border, so the columns are the axis that
    /// gives or takes the step.
    pub open spec fn op_is_horizontal(op: CascadeOp) -> bool {
        match op_neighbour_rel(op) {
            EdgeRel::DirectlyLeftOf | EdgeRel::DirectlyRightOf => true,
            _ => false,
        }
    }

    /// The pane is a retained neighbour of the cascade: directly adjacent
    /// beyond the moving border and, on the walk axis, between the two flank
    /// borders.
    pub open spec fn spec_kept_neighbour(op: CascadeOp, t: Pane, b1: u32, b2: u32, p: Pane) -> bool {
        &&& edge_rel_holds(op_neighbour_rel(op), p, t)
        &&& walk_lo(op_band_align(op), p) >= b1
        &&& walk_hi(op_band_align(op), p) <= b2
    }

    /// The cells a band pane would keep on the moving axis after giving up
    /// the step, as the next relayout would realize them.
    pub open spec fn spec_shrunk_axis_len(self, op: CascadeOp, by: u32, pid: PaneId) -> int {
        let g2 = spec_resize_pane(self.pane_of(pid), op_band_resize(op), by).geom;
        if Self::op_is_horizontal(op) {
            crate::geom::spec_realize_len(g2.px, g2.pw(), self.viewport.x, self.viewport.cols)
        } else {
            crate::geom::spec_realize_len(g2.py, g2.ph(), self.viewport.y, self.viewport.rows)
        }
    }

    /// Some percent-sized pane of the band would fall below the minimum pane
    /// size on the moving axis after giving up the step.
    pub open spec fn spec_band_below_floor(self, op: CascadeOp, ids: Seq<PaneId>, by: u32) -> bool {
        exists|w: int|
            0 <= w < ids.len() && {
                let d = if Self::op_is_horizontal(op) {
                    self.pane_of(#[trigger] ids[w]).geom.cols
                } else {
                    self.pane_of(ids[w]).geom.rows
                };
                d.is_percent() && self.spec_shrunk_axis_len(op, by, ids[w]) < (
                if Self::op_is_horizontal(op) {
                    crate::geom::MIN_TERMINAL_WIDTH as int
                } else {
                    crate::geom::MIN_TERMINAL_HEIGHT as int
                })
            }
    }

    /// The cascade's sets are the ones the specification names: the stop
    /// borders are exactly the near edges of the direct neighbours, the two
    /// flank bands are the exact contiguous chains trimmed at those borders,
    /// and the retained neighbours are exactly the direct neighbours between
    /// the two flank borders.
    pub open spec fn spec_resize_sets_ok(a: Tab, id: PaneId, op: CascadeOp, gh: CascadeSets) -> bool {
        let t = a.pane_of(id);
        &&& forall|bv: u32|
            gh.stops.contains(bv) <==> exists|j: int|
                0 <= j < a.panes_s().len() && edge_rel_holds(
                    op_neighbour_rel(op),
                    #[trigger] a.panes_s()[j],
                    t,
                ) && walk_lo(op_band_align(op), a.panes_s()[j]) == bv
        &&& a.band_exact(op_band_align(op), false, t, gh.stops, gh.border_before, gh.band_before)
        &&& a.band_exact(op_band_align(op), true, t, gh.stops, gh.border_after, gh.band_after)
        &&& forall|j: int|
            0 <= j < a.panes_s().len() ==> (Self::spec_kept_neighbour(
                op,
                t,
                gh.border_before,
                gh.border_after,
                #[trigger] a.panes_s()[j],
            ) <==> gh.kept.contains(a.panes_s()[j].pid))
    }

    /// The exact pointwise effect of an applied cascade, before the relayout:
    /// the target and the band panes move with the border, the retained
    /// neighbours give or take the step, every other pane stands.
    pub open spec fn spec_cascade_outcome(
        a: Tab,
        b: Tab,
        id: PaneId,
        op: CascadeOp,
        by: u32,
        gh: CascadeSets,
    ) -> bool {
        &&& b.panes_s().len() == a.panes_s().len()
        &&& forall|k: int|
            0 <= k < a.panes_s().len() ==> b.panes_s()[k] == (if (
            #[trigger] a.panes_s()[k]).pid == id || gh.band_before.contains(a.panes_s()[k].pid)
                || gh.band_after.contains(a.panes_s()[k].pid) {
                spec_resize_pane(a.panes_s()[k], op_band_resize(op), by)
            } else if gh.kept.contains(a.panes_s()[k].pid) {
                spec_resize_pane(a.panes_s()[k], op_neighbour_resize(op), by)
            } else {
                a.panes_s()[k]
            })
    }

    /// The same effect seen through the relayout that follows: every pane
    /// keeps its identity and selectability, and its percent rectangle is
    /// the cascade's.
    pub open spec fn spec_resize_applied(
        a: Tab,
        b: Tab,
        id: PaneId,
        op: CascadeOp,
        by: u32,
        gh: CascadeSets,
    ) -> bool {
        &&& b.panes_s().len() == a.panes_s().len()
        &&& forall|k: int|
            0 <= k < a.panes_s().len() ==> {
                &&& (#[trigger] b.panes_s()[k]).pid == a.panes_s()[k].pid
                &&& b.panes_s()[k].selectable == a.panes_s()[k].selectable
                &&& same_pct(
                    b.panes_s()[k].geom,
                    (if a.panes_s()[k].pid == id || gh.band_before.contains(a.panes_s()[k].pid)
                        || gh.band_after.contains(a.panes_s()[k].pid) {
                        spec_resize_pane(a.panes_s()[k], op_band_resize(op), by)
                    } else if gh.kept.contains(a.panes_s()[k].pid) {
                        spec_resize_pane(a.panes_s()[k], op_neighbour_resize(op), by)
                    } else {
                        a.panes_s()[k]
                    }).geom,
                )
            }
    }

    /// Every pane keeps its identity, selectability and percent rectangle.
    pub open spec fn spec_pct_unchanged(a: Tab, b: Tab) -> bool {
        &&& b.panes_s().len() == a.panes_s().len()
        &&& forall|k: int|
            0 <= k < a.panes_s().len() ==> {
                &&& (#[trigger] b.panes_s()[k]).pid == a.panes_s()[k].pid
                &&& b.panes_s()[k].selectable == a.panes_s()[k].selectable
                &&& same_pct(b.panes_s()[k].geom, a.panes_s()[k].geom)
            }
    }

    /// Compute the sets one cascade works on: the stop borders, the two
    /// flank bands with their borders, and the retained neighbours.
    #[verifier::rlimit(100)]
    #[verifier::spinoff_prover]
    fn compute_cascade_sets(&self, id: PaneId, ti: usize, op: CascadeOp) -> (r: (
        u32,
        Vec<PaneId>,
        u32,
        Vec<PaneId>,
        Vec<PaneId>,
        Ghost<CascadeSets>,
    ))
        requires
            self.well_formed(),
            self.has_pane(id),
            ti < self.panes_s().len(),
            self.panes_s()[ti as int].pid == id,
        ensures
            Self::spec_resize_sets_ok(*self, id, op, r.5@),
            r.5@.border_before == r.0,
            r.5@.band_before == r.1@,
            r.5@.border_after == r.2,
            r.5@.band_after == r.3@,
            r.5@.kept == r.4@,
            forall|v: int| 0 <= v < r.1@.len() ==> self.has_pane(#[trigger] r.1@[v]),
            forall|v: int| 0 <= v < r.3@.len() ==> self.has_pane(#[trigger] r.3@[v]),
    {
        proof {
            self.lemma_idx_unique(ti as int, id);
        }
        let rel = match op {
            CascadeOp::IncreaseRight | CascadeOp::ReduceLeft => EdgeRel::DirectlyRightOf,
            CascadeOp::IncreaseLeft | CascadeOp::ReduceRight => EdgeRel::DirectlyLeftOf,
            CascadeOp::IncreaseUp | CascadeOp::ReduceDown => EdgeRel::DirectlyAbove,
            CascadeOp::IncreaseDown | CascadeOp::ReduceUp => EdgeRel::DirectlyBelow,
        };
        let align = match op {
            CascadeOp::IncreaseRight | CascadeOp::ReduceLeft => EdgeRel::RightAligned,
            CascadeOp::IncreaseLeft | CascadeOp::ReduceRight => EdgeRel::LeftAligned,
            CascadeOp::IncreaseUp | CascadeOp::ReduceDown => EdgeRel::TopAligned,
            CascadeOp::IncreaseDown | CascadeOp::ReduceUp => EdgeRel::BottomAligned,
        };
        let t = self.panes[ti];
        // The direct neighbours beyond the moving border.
        let neighbours = self.panes_with_rel(rel, &t);
        // Their near edges on the walk axis become the stop borders.
        let mut stop_borders: Vec<u32> = Vec::new();
        let mut i: usize = 0;
        while i < neighbours.len()
            invariant
                self.well_formed_except_cells(),
                t == self.pane_of(id),
                self.has_pane(id),
                align == op_band_align(op),
                rel == op_neighbour_rel(op),
                self.rel_ids_exact(rel, t, neighbours@),
                i <= neighbours@.len(),
                forall|bv: u32|
                    stop_borders@.contains(bv) <==> exists|w: int|
                        0 <= w < i && walk_lo(align, self.pane_of(#[trigger] neighbours@[w]))
                            == bv,
            decreases neighbours@.len() - i,
        {
            let nid = neighbours[i];
            let ni = match self.find_pane(nid) {
                Some(n) => n,
                None => {
                    proof {
                        assert(self.has_pane(neighbours@[i as int]));
                        assert(false);
                    }
                    0
                }
            };
            proof {
                self.lemma_idx_unique(ni as int, nid);
            }
            let np = self.panes[ni];
            let b: u32 = match align {
                EdgeRel::LeftAligned | EdgeRel::RightAligned => np.geom.py,
                _ => np.geom.px,
            };
            let ghost before = stop_borders@;
            stop_borders.push(b);
            proof {
                assert forall|bv: u32| stop_borders@.contains(bv) implies exists|w: int|
                    0 <= w < i + 1 && walk_lo(align, self.pane_of(#[trigger] neighbours@[w]))
                        == bv by {
                    let u = choose|u: int| 0 <= u < stop_borders@.len() && stop_borders@[u] == bv;
                    if u < before.len() {
                        assert(before[u] == bv);
                        assert(before.contains(bv));
                    } else {
                        assert(walk_lo(align, self.pane_of(neighbours@[i as int])) == bv);
                    }
                }
                assert forall|bv: u32|
                    (exists|w: int|
                        0 <= w < i + 1 && walk_lo(align, self.pane_of(#[trigger] neighbours@[w]))
                            == bv) implies stop_borders@.contains(bv) by {
                    let w = choose|w: int|
                        0 <= w < i + 1 && walk_lo(align, self.pane_of(#[trigger] neighbours@[w]))
                            == bv;
                    if w < i {
                        assert(before.contains(bv));
                        let u = choose|u: int| 0 <= u < before.len() && before[u] == bv;
                        assert(stop_borders@[u] == bv);
                    } else {
                        assert(stop_borders@[stop_borders@.len() - 1] == bv);
                    }
                }
            }
            i = i + 1;
        }
        proof {
            // The stop borders are exactly the near edges of the panes
            // beyond the moving border.
            assert forall|bv: u32| stop_borders@.contains(bv) implies exists|j: int|
                0 <= j < self.panes_s().len() && edge_rel_holds(
                    rel,
                    #[trigger] self.panes_s()[j],
                    t,
                ) && walk_lo(align, self.panes_s()[j]) == bv by {
                let w = choose|w: int|
                    0 <= w < neighbours@.len() && walk_lo(
                        align,
                        self.pane_of(#[trigger] neighbours@[w]),
                    ) == bv;
                let j = self.idx_of(neighbours@[w]);
                assert(self.panes_s()[j] == self.pane_of(neighbours@[w]));
                assert(edge_rel_holds(rel, self.panes_s()[j], t));
            }
            assert forall|bv: u32|
                (exists|j: int|
                    0 <= j < self.panes_s().len() && edge_rel_holds(
                        rel,
                        #[trigger] self.panes_s()[j],
                        t,
                    ) && walk_lo(align, self.panes_s()[j]) == bv) implies stop_borders@.contains(
                bv,
            ) by {
                let j = choose|j: int|
                    0 <= j < self.panes_s().len() && edge_rel_holds(
                        rel,
                        #[trigger] self.panes_s()[j],
                        t,
                    ) && walk_lo(align, self.panes_s()[j]) == bv;
                assert(neighbours@.contains(self.panes_s()[j].pid));
                let w = choose|w: int|
                    0 <= w < neighbours@.len() && neighbours@[w] == self.panes_s()[j].pid;
                self.lemma_idx_unique(j, self.panes_s()[j].pid);
            }
        }
        let (border_before, band_before) = self.contiguous_band(id, align, false, &stop_borders);
        let (border_after, band_after) = self.contiguous_band(id, align, true, &stop_borders);
        let ghost sets = CascadeSets {
            stops: stop_borders@,
            border_before: border_before,
            band_before: band_before@,
            border_after: border_after,
            band_after: band_after@,
            kept: Seq::empty(),
        };
        // Keep only the neighbours between the two flank borders.
        let mut kept: Vec<PaneId> = Vec::new();
        let mut k: usize = 0;
        while k < neighbours.len()
            invariant
                self.well_formed_except_cells(),
                self.has_pane(id),
                t == self.pane_of(id),
                align == op_band_align(op),
                rel == op_neighbour_rel(op),
                self.rel_ids_exact(rel, t, neighbours@),
                k <= neighbours@.len(),
                forall|w: int|
                    0 <= w < kept@.len() ==> neighbours@.contains(#[trigger] kept@[w])
                        && Self::spec_kept_neighbour(
                        op,
                        t,
                        border_before,
                        border_after,
                        self.pane_of(kept@[w]),
                    ),
                forall|w: int|
                    0 <= w < k && Self::spec_kept_neighbour(
                        op,
                        t,
                        border_before,
                        border_after,
                        self.pane_of(#[trigger] neighbours@[w]),
                    ) ==> kept@.contains(neighbours@[w]),
            decreases neighbours@.len() - k,
        {
            let nid = neighbours[k];
            proof {
                assert(self.has_pane(neighbours@[k as int]));
            }
            let inside = match align {
                EdgeRel::LeftAligned | EdgeRel::RightAligned => self
                    .pane_is_between_horizontal_borders(nid, border_before, border_after),
                _ => self.pane_is_between_vertical_borders(nid, border_before, border_after),
            };
            if inside {
                let ghost before = kept@;
                kept.push(nid);
                proof {
                    assert(neighbours@.contains(neighbours@[k as int]));
                    assert forall|w: int|
                        0 <= w < k + 1 && Self::spec_kept_neighbour(
                            op,
                            t,
                            border_before,
                            border_after,
                            self.pane_of(#[trigger] neighbours@[w]),
                        ) implies kept@.contains(neighbours@[w]) by {
                        if w < k {
                            assert(before.contains(neighbours@[w]));
                            let u = choose|u: int|
                                0 <= u < before.len() && before[u] == neighbours@[w];
                            assert(kept@[u] == neighbours@[w]);
                        } else {
                            assert(kept@[kept@.len() - 1] == neighbours@[w]);
                        }
                    }
                }
            }
            k = k + 1;
        }
        let ghost sets = CascadeSets { kept: kept@, ..sets };
        proof {
            // The retained neighbours are exactly those the specification
            // names, pane by pane.
            assert forall|j: int|
                0 <= j < self.panes_s().len() implies (Self::spec_kept_neighbour(
                op,
                t,
                border_before,
                border_after,
                #[trigger] self.panes_s()[j],
            ) <==> kept@.contains(self.panes_s()[j].pid)) by {
                if Self::spec_kept_neighbour(
                    op,
                    t,
                    border_before,
                    border_after,
                    self.panes_s()[j],
                ) {
                    assert(edge_rel_holds(rel, self.panes_s()[j], t));
                    assert(neighbours@.contains(self.panes_s()[j].pid));
                    let w = choose|w: int|
                        0 <= w < neighbours@.len() && neighbours@[w] == self.panes_s()[j].pid;
                    self.lemma_idx_unique(j, self.panes_s()[j].pid);
                    assert(kept@.contains(neighbours@[w]));
                }
                if kept@.contains(self.panes_s()[j].pid) {
                    let u = choose|u: int|
                        0 <= u < kept@.len() && kept@[u] == self.panes_s()[j].pid;
                    assert(neighbours@.contains(kept@[u]));
                    self.lemma_idx_unique(j, self.panes_s()[j].pid);
                    assert(Self::spec_kept_neighbour(
                        op,
                        t,
                        border_before,
                        border_after,
                        self.pane_of(kept@[u]),
                    ));
                }
            }
        }
        (border_before, band_before, border_after, band_after, kept, Ghost(sets))
    }

    /// A state that agrees with the cascade's output pane for pane — same
    /// ids, same selectability, same percent rectangles — satisfies the
    /// applied-resize relation itself.
    proof fn lemma_lift_outcome(a: Tab, mid: Tab, fin: Tab, aid: PaneId, op: CascadeOp, by: u32, sets: CascadeSets)
        requires
            Self::spec_cascade_outcome(a, mid, aid, op, by, sets),
            fin.panes_s().len() == mid.panes_s().len(),
            forall|k: int|
                0 <= k < mid.panes_s().len() ==> (#[trigger] fin.panes_s()[k]).pid
                    == mid.panes_s()[k].pid && fin.panes_s()[k].selectable
                    == mid.panes_s()[k].selectable && same_pct(
                    fin.panes_s()[k].geom,
                    mid.panes_s()[k].geom,
                ),
        ensures
            Self::spec_resize_applied(a, fin, aid, op, by, sets),
    {
        assert forall|k: int|
            0 <= k < a.panes_s().len() implies {
            &&& (#[trigger] fin.panes_s()[k]).pid == a.panes_s()[k].pid
            &&& fin.panes_s()[k].selectable == a.panes_s()[k].selectable
            &&& same_pct(
                fin.panes_s()[k].geom,
                (if a.panes_s()[k].pid == aid || sets.band_before.contains(a.panes_s()[k].pid)
                    || sets.band_after.contains(a.panes_s()[k].pid) {
                    spec_resize_pane(a.panes_s()[k], op_band_resize(op), by)
                } else if sets.kept.contains(a.panes_s()[k].pid) {
                    spec_resize_pane(a.panes_s()[k], op_neighbour_resize(op), by)
                } else {
                    a.panes_s()[k]
                }).geom,
            )
        } by {
            assert(same_pct(fin.panes_s()[k].geom, mid.panes_s()[k].geom));
        }
    }

    /// The same lift for a cascade that changed nothing.
    proof fn lemma_lift_unchanged(a: Tab, mid: Tab, fin: Tab)
        requires
            mid.panes_s() == a.panes_s(),
            fin.panes_s().len() == mid.panes_s().len(),
            forall|k: int|
                0 <= k < mid.panes_s().len() ==> (#[trigger] fin.panes_s()[k]).pid
                    == mid.panes_s()[k].pid && fin.panes_s()[k].selectable
                    == mid.panes_s()[k].selectable && same_pct(
                    fin.panes_s()[k].geom,
                    mid.panes_s()[k].geom,
                ),
        ensures
            Self::spec_pct_unchanged(a, fin),
    {
    }

    /// Whether one band pane can give up the step and keep the minimum pane
    /// size on the moving axis; panes with a fixed dimension there do not
    /// shrink and always keep it.
    fn band_pane_keeps_floor(&self, op: CascadeOp, by: u32, pid: PaneId) -> (ok: bool)
        requires
            self.well_formed_except_cells(),
            self.has_pane(pid),
        ensures
            ok == !({
                let d = if Self::op_is_horizontal(op) {
                    self.pane_of(pid).geom.cols
                } else {
                    self.pane_of(pid).geom.rows
                };
                d.is_percent() && self.spec_shrunk_axis_len(op, by, pid) < (
                if Self::op_is_horizontal(op) {
                    crate::geom::MIN_TERMINAL_WIDTH as int
                } else {
                    crate::geom::MIN_TERMINAL_HEIGHT as int
                })
            }),
    {
        let bi = match self.find_pane(pid) {
            Some(b) => b,
            None => {
                proof {
                    assert(false);
                }
                0
            }
        };
        proof {
            self.lemma_idx_unique(bi as int, pid);
            assert(pane_bounded(self.panes_s()[bi as int]));
        }
        let p = self.panes[bi];
        let horizontal = match op {
            CascadeOp::IncreaseRight | CascadeOp::ReduceLeft | CascadeOp::IncreaseLeft
                | CascadeOp::ReduceRight => true,
            _ => false,
        };
        proof {
            assert(horizontal == Self::op_is_horizontal(op));
        }
        let d = if horizontal {
            p.geom.cols
        } else {
            p.geom.rows
        };
        match d.constraint {
            Constraint::Fixed(_) => true,
            Constraint::Percent(_) => {
                let band_resize = match op {
                    CascadeOp::IncreaseRight => PaneResize::GrowRight,
                    CascadeOp::IncreaseLeft => PaneResize::GrowLeft,
                    CascadeOp::IncreaseUp => PaneResize::GrowUp,
                    CascadeOp::IncreaseDown => PaneResize::GrowDown,
                    CascadeOp::ReduceRight => PaneResize::ShrinkFromLeft,
                    CascadeOp::ReduceLeft => PaneResize::ShrinkFromRight,
                    CascadeOp::ReduceUp => PaneResize::ShrinkFromBottom,
                    CascadeOp::ReduceDown => PaneResize::ShrinkFromTop,
                };
                let mut p2 = p;
                apply_pane_resize(&mut p2, band_resize, by);
                proof {
                    assert(p2 == spec_resize_pane(p, op_band_resize(op), by));
                    assert(p2.geom.px + p2.geom.pw() <= FULL_PERCENT && p2.geom.py + p2.geom.ph()
                        <= FULL_PERCENT);
                }
                let len: usize = if horizontal {
                    let pw2 = match p2.geom.cols.constraint {
                        Constraint::Percent(v) => v,
                        Constraint::Fixed(_) => 0,
                    };
                    crate::geom::realize_span(
                        p2.geom.px,
                        pw2,
                        self.viewport.x,
                        self.viewport.cols,
                    ).1
                } else {
                    let ph2 = match p2.geom.rows.constraint {
                        Constraint::Percent(v) => v,
                        Constraint::Fixed(_) => 0,
                    };
                    crate::geom::realize_span(
                        p2.geom.py,
                        ph2,
                        self.viewport.y,
                        self.viewport.rows,
                    ).1
                };
                let m: usize = if horizontal {
                    crate::geom::MIN_TERMINAL_WIDTH
                } else {
                    crate::geom::MIN_TERMINAL_HEIGHT
                };
                len >= m
            }
        }
    }

    /// Run one cascaded resize: the target pane and its flanking bands move
    /// with the border, the retained direct neighbours take or give the
    /// space. A shrink that would push any flank-band pane below the minimum
    /// pane size aborts whole, changing nothing. Reports whether the resize
    /// ran, and the sets it worked on.
    #[verifier::rlimit(100)]
    #[verifier::spinoff_prover]
    fn cascade_resize(&mut self, id: PaneId, op: CascadeOp, by: u32) -> (r: (
        bool,
        Ghost<CascadeSets>,
    ))
        requires
            old(self).well_formed(),
            old(self).has_pane(id),
            by + RESIZE_PERCENT <= FULL_PERCENT,
        ensures
            final(self).well_formed_except_cells(),
            *final(self) == (Tab { panes: final(self).panes, ..*old(self) }),
            final(self).panes_s().len() == old(self).panes_s().len(),
            Self::spec_resize_sets_ok(*old(self), id, op, r.1@),
            r.0 == !(op_is_reduce(op) && (old(self).spec_band_below_floor(op, r.1@.band_before, by)
                || old(self).spec_band_below_floor(op, r.1@.band_after, by))),
            r.0 ==> Self::spec_cascade_outcome(*old(self), *final(self), id, op, by, r.1@),
            !r.0 ==> final(self).panes_s() == old(self).panes_s(),
            r.0 ==> final(self).pane_of(id) == spec_resize_pane(
                old(self).pane_of(id),
                op_band_resize(op),
                by,
            ),
            forall|k: int|
                0 <= k < old(self).panes_s().len() ==> (#[trigger] final(self).panes_s()[k]).pid
                    == old(self).panes_s()[k].pid && final(self).panes_s()[k].selectable == old(
                    self,
                ).panes_s()[k].selectable,
    {
        let ghost a = *old(self);
        let ti = match self.find_pane(id) {
            Some(i) => i,
            None => {
                proof {
                    assert(false);
                }
                0
            }
        };
        proof {
            self.lemma_idx_unique(ti as int, id);
        }
        let rel = match op {
            CascadeOp::IncreaseRight | CascadeOp::ReduceLeft => EdgeRel::DirectlyRightOf,
            CascadeOp::IncreaseLeft | CascadeOp::ReduceRight => EdgeRel::DirectlyLeftOf,
            CascadeOp::IncreaseUp | CascadeOp::ReduceDown => EdgeRel::DirectlyAbove,
            CascadeOp::IncreaseDown | CascadeOp::ReduceUp => EdgeRel::DirectlyBelow,
        };
        let (border_before, band_before, border_after, band_after, kept, gh) = self
            .compute_cascade_sets(id, ti, op);
        let ghost sets = gh@;
        // A shrink aborts whole if any flank pane would fall under the floor.
        if match op {
            CascadeOp::ReduceRight | CascadeOp::ReduceLeft | CascadeOp::ReduceUp
                | CascadeOp::ReduceDown => true,
            _ => false,
        } {
            let mut bad = false;
            let mut w: usize = 0;
            while w < band_before.len()
                invariant
                    self.well_formed_except_cells(),
                    forall|v: int|
                        0 <= v < band_before@.len() ==> self.has_pane(#[trigger] band_before@[v]),
                    w <= band_before@.len(),
                    bad == self.spec_band_below_floor(op, band_before@.take(w as int), by),
                decreases band_before@.len() - w,
            {
                let ok = self.band_pane_keeps_floor(op, by, band_before[w]);
                proof {
                    assert(band_before@.take(w + 1).drop_last() =~= band_before@.take(w as int));
                    assert(band_before@.take(w + 1)[w as int] == band_before@[w as int]);
                    if !ok {
                        assert(self.spec_band_below_floor(op, band_before@.take(w + 1), by));
                    } else {
                        if self.spec_band_below_floor(op, band_before@.take(w + 1), by) {
                            let v = choose|v: int|
                                0 <= v < band_before@.take(w + 1).len() && {
                                    let dd = if Self::op_is_horizontal(op) {
                                        self.pane_of(#[trigger] band_before@.take(w + 1)[v]).geom.cols
                                    } else {
                                        self.pane_of(band_before@.take(w + 1)[v]).geom.rows
                                    };
                                    dd.is_percent() && self.spec_shrunk_axis_len(
                                        op,
                                        by,
                                        band_before@.take(w + 1)[v],
                                    ) < (if Self::op_is_horizontal(op) {
                                        crate::geom::MIN_TERMINAL_WIDTH as int
                                    } else {
                                        crate::geom::MIN_TERMINAL_HEIGHT as int
                                    })
                                };
                            if v < w {
                                assert(band_before@.take(w as int)[v] == band_before@.take(
                                    w + 1,
                                )[v]);
                                assert(self.spec_band_below_floor(
                                    op,
                                    band_before@.take(w as int),
                                    by,
                                ));
                            }
                        }
                    }
                }
                if !ok {
                    bad = true;
                }
                w = w + 1;
            }
            proof {
                assert(band_before@.take(band_before@.len() as int) =~= band_before@);
            }
            let mut w2: usize = 0;
            while w2 < band_after.len()
                invariant
                    self.well_formed_except_cells(),
                    forall|v: int|
                        0 <= v < band_after@.len() ==> self.has_pane(#[trigger] band_after@[v]),
                    w2 <= band_after@.len(),
                    bad == (self.spec_band_below_floor(op, band_before@, by)
                        || self.spec_band_below_floor(op, band_after@.take(w2 as int), by)),
                decreases band_after@.len() - w2,
            {
                let ok = self.band_pane_keeps_floor(op, by, band_after[w2]);
                proof {
                    assert(band_after@.take(w2 + 1).drop_last() =~= band_after@.take(w2 as int));
                    assert(band_after@.take(w2 + 1)[w2 as int] == band_after@[w2 as int]);
                    if !ok {
                        assert(self.spec_band_below_floor(op, band_after@.take(w2 + 1), by));
                    } else {
                        if self.spec_band_below_floor(op, band_after@.take(w2 + 1), by) {
                            let v = choose|v: int|
                                0 <= v < band_after@.take(w2 + 1).len() && {
                                    let dd = if Self::op_is_horizontal(op) {
                                        self.pane_of(#[trigger] band_after@.take(w2 + 1)[v]).geom.cols
                                    } else {
                                        self.pane_of(band_after@.take(w2 + 1)[v]).geom.rows
                                    };
                                    dd.is_percent() && self.spec_shrunk_axis_len(
                                        op,
                                        by,
                                        band_after@.take(w2 + 1)[v],
                                    ) < (if Self::op_is_horizontal(op) {
                                        crate::geom::MIN_TERMINAL_WIDTH as int
                                    } else {
                                        crate::geom::MIN_TERMINAL_HEIGHT as int
                                    })
                                };
                            if v < w2 {
                                assert(band_after@.take(w2 as int)[v] == band_after@.take(
                                    w2 + 1,
                                )[v]);
                                assert(self.spec_band_below_floor(
                                    op,
                                    band_after@.take(w2 as int),
                                    by,
                                ));
                            }
                        }
                    }
                }
                if !ok {
                    bad = true;
                }
                w2 = w2 + 1;
            }
                        proof {
                assert(band_after@.take(band_after@.len() as int) =~= band_after@);
            }
            if bad {
                return (false, Ghost(sets));
            }
        }
        // Apply: the target and both flank bands move with the border, the
        // kept neighbours give or take the space.
        self.apply_cascade(id, ti, &band_before, &band_after, &kept, op, by);
        (true, Ghost(sets))
    }

    /// Move the target and both flank bands with the border and let the kept
    /// neighbours give or take the space.
    #[verifier::rlimit(100)]
    fn apply_cascade(
        &mut self,
        id: PaneId,
        ti: usize,
        band_before: &Vec<PaneId>,
        band_after: &Vec<PaneId>,
        kept: &Vec<PaneId>,
        op: CascadeOp,
        by: u32,
    )
        requires
            old(self).well_formed(),
            ti < old(self).panes_s().len(),
            old(self).panes_s()[ti as int].pid == id,
        ensures
            final(self).well_formed_except_cells(),
            *final(self) == (Tab { panes: final(self).panes, ..*old(self) }),
            final(self).panes_s().len() == old(self).panes_s().len(),
            forall|k: int|
                0 <= k < old(self).panes_s().len() ==> final(self).panes_s()[k] == (if (
                #[trigger] old(self).panes_s()[k]).pid == id || band_before@.contains(
                    old(self).panes_s()[k].pid,
                ) || band_after@.contains(old(self).panes_s()[k].pid) {
                    spec_resize_pane(old(self).panes_s()[k], op_band_resize(op), by)
                } else if kept@.contains(old(self).panes_s()[k].pid) {
                    spec_resize_pane(old(self).panes_s()[k], op_neighbour_resize(op), by)
                } else {
                    old(self).panes_s()[k]
                }),
            final(self).pane_of(id) == spec_resize_pane(
                old(self).pane_of(id),
                op_band_resize(op),
                by,
            ),
            forall|k: int|
                0 <= k < old(self).panes_s().len() ==> (#[trigger] final(self).panes_s()[k]).pid
                    == old(self).panes_s()[k].pid && final(self).panes_s()[k].selectable == old(
                    self,
                ).panes_s()[k].selectable,
    {
        let ghost a = *old(self);
        let ghost orig = self.panes@;
        let band_resize = match op {
            CascadeOp::IncreaseRight => PaneResize::GrowRight,
            CascadeOp::IncreaseLeft => PaneResize::GrowLeft,
            CascadeOp::IncreaseUp => PaneResize::GrowUp,
            CascadeOp::IncreaseDown => PaneResize::GrowDown,
            CascadeOp::ReduceRight => PaneResize::ShrinkFromLeft,
            CascadeOp::ReduceLeft => PaneResize::ShrinkFromRight,
            CascadeOp::ReduceUp => PaneResize::ShrinkFromBottom,
            CascadeOp::ReduceDown => PaneResize::ShrinkFromTop,
        };
        let neighbour_resize = match op {
            CascadeOp::IncreaseRight => PaneResize::ShrinkFromLeft,
            CascadeOp::IncreaseLeft => PaneResize::ShrinkFromRight,
            CascadeOp::IncreaseUp => PaneResize::ShrinkFromBottom,
            CascadeOp::IncreaseDown => PaneResize::ShrinkFromTop,
            CascadeOp::ReduceRight => PaneResize::GrowRight,
            CascadeOp::ReduceLeft => PaneResize::GrowLeft,
            CascadeOp::ReduceUp => PaneResize::GrowUp,
            CascadeOp::ReduceDown => PaneResize::GrowDown,
        };
        let mut j: usize = 0;
        while j < self.panes.len()
            invariant
                band_resize == op_band_resize(op),
                neighbour_resize == op_neighbour_resize(op),
                *self == (Tab { panes: self.panes, ..a }),
                j <= self.panes@.len(),
                self.panes@.len() == orig.len(),
                orig == a.panes@,
                a.well_formed(),
                forall|k2: int| j <= k2 < orig.len() ==> self.panes@[k2] == orig[k2],
                forall|k2: int|
                    0 <= k2 < j ==> self.panes@[k2] == (if (#[trigger] orig[k2]).pid == id
                        || band_before@.contains(orig[k2].pid) || band_after@.contains(
                        orig[k2].pid,
                    ) {
                        spec_resize_pane(orig[k2], op_band_resize(op), by)
                    } else if kept@.contains(orig[k2].pid) {
                        spec_resize_pane(orig[k2], op_neighbour_resize(op), by)
                    } else {
                        orig[k2]
                    }),
                forall|k2: int|
                    0 <= k2 < j ==> (#[trigger] self.panes@[k2]).pid == orig[k2].pid
                        && self.panes@[k2].selectable == orig[k2].selectable,
                ti < orig.len() && orig[ti as int].pid == id,
                forall|k2: int|
                    0 <= k2 < j && orig[k2].pid == id ==> self.panes@[k2] == spec_resize_pane(
                        orig[k2],
                        op_band_resize(op),
                        by,
                    ),
            decreases self.panes@.len() - j,
        {
            let p = self.panes[j];
            proof {
                assert(pane_bounded(a.panes_s()[j as int]));
            }
            if p.pid.eq_id(id) || crate::queries::ids_contain(band_before, p.pid)
                || crate::queries::ids_contain(band_after, p.pid) {
                let mut np = p;
                apply_pane_resize(&mut np, band_resize, by);
                let slot = &mut self.panes[j];
                *slot = np;
            } else if crate::queries::ids_contain(kept, p.pid) {
                let mut np = p;
                apply_pane_resize(&mut np, neighbour_resize, by);
                let slot = &mut self.panes[j];
                *slot = np;
            }
            j = j + 1;
        }
        proof {
            assert forall|k2: int, l2: int|
                0 <= k2 < l2 < self.panes@.len() implies (#[trigger] self.panes@[k2].pid).spec_lt(
                #[trigger] self.panes@[l2].pid,
            ) by {
                assert(self.panes@[k2].pid == orig[k2].pid);
                assert(self.panes@[l2].pid == orig[l2].pid);
            }
            Tab::lemma_has_pane_pointwise(a.panes_s(), self.panes_s());
            assert forall|k2: int|
                0 <= k2 < self.panes@.len() implies pane_bounded(#[trigger] self.panes@[k2]) && ((
            self.panes@[k2].geom_override) is Some <==> (a.panes_s()[k2].geom_override) is Some) by {
                assert(pane_bounded(a.panes_s()[k2]));
            }
            if self.fullscreen_is_active {
                let w = choose|w: int|
                    0 <= w < a.panes_s().len() && (#[trigger] a.panes_s()[w].geom_override) is Some;
                assert((self.panes_s()[w].geom_override) is Some);
            }
            if exists|w: int|
                0 <= w < self.panes_s().len() && (#[trigger] self.panes_s()[w].geom_override)
                    is Some {
                let w = choose|w: int|
                    0 <= w < self.panes_s().len() && (
                    #[trigger] self.panes_s()[w].geom_override) is Some;
                assert((a.panes_s()[w].geom_override) is Some);
            }
            assert(self.well_formed_except_cells());
            self.lemma_idx_unique(ti as int, id);
            a.lemma_idx_unique(ti as int, id);
        }
    }
}

/// The percent rectangles of the two geometries agree.
pub open spec fn same_pct(g1: PaneGeom, g2: PaneGeom) -> bool {
    &&& g1.px == g2.px
    &&& g1.py == g2.py
    &&& g1.pw() == g2.pw()
    &&& g1.ph() == g2.ph()
}

impl Tab {
    /// One directional resize of the active pane: grow toward the direction
    /// when permitted, else shrink away from it when permitted, else change
    /// nothing; then lay the whole tab out against the unchanged display.
    #[verifier::rlimit(100)]
    #[verifier::spinoff_prover]
    fn directional_resize(&mut self, grow: CascadeOp, shrink: CascadeOp) -> (msgs: Vec<
        OutboundMessage,
    >)
        requires
            old(self).well_formed(),
            !op_is_reduce(grow),
            op_is_reduce(shrink),
        ensures
            final(self).well_formed(),
            final(self).viewport == old(self).viewport,
            final(self).display_area == old(self).display_area,
            final(self).active_terminal == old(self).active_terminal,
            final(self).panes_s().len() == old(self).panes_s().len(),
            forall|k: int|
                0 <= k < old(self).panes_s().len() ==> (#[trigger] final(self).panes_s()[k]).pid
                    == old(self).panes_s()[k].pid && final(self).panes_s()[k].selectable == old(
                    self,
                ).panes_s()[k].selectable,
            !(old(self).active_terminal matches Some(aid) && old(self).has_pane(aid))
                ==> Self::spec_pct_unchanged(*old(self), *final(self)),
            (old(self).active_terminal matches Some(aid) && old(self).has_pane(aid)) ==> {
                let aid = old(self).active_terminal.unwrap();
                if old(self).spec_can_increase(aid, grow, RESIZE_PERCENT) {
                    exists|gh: CascadeSets|
                        #[trigger] Self::spec_resize_sets_ok(*old(self), aid, grow, gh)
                            && Self::spec_resize_applied(
                            *old(self),
                            *final(self),
                            aid,
                            grow,
                            RESIZE_PERCENT,
                            gh,
                        )
                } else if old(self).spec_can_reduce(aid, shrink, RESIZE_PERCENT) {
                    exists|gh: CascadeSets|
                        #[trigger] Self::spec_resize_sets_ok(*old(self), aid, shrink, gh) && (if !(
                        old(self).spec_band_below_floor(shrink, gh.band_before, RESIZE_PERCENT)
                            || old(self).spec_band_below_floor(
                            shrink,
                            gh.band_after,
                            RESIZE_PERCENT,
                        )) {
                            Self::spec_resize_applied(
                                *old(self),
                                *final(self),
                                aid,
                                shrink,
                                RESIZE_PERCENT,
                                gh,
                            )
                        } else {
                            Self::spec_pct_unchanged(*old(self), *final(self))
                        })
                } else {
                    Self::spec_pct_unchanged(*old(self), *final(self))
                }
            },
    {
        let ghost a = *old(self);
        let mut acted = false;
        let ghost mut mid: Tab = *self;
        let ghost mut sets: CascadeSets = CascadeSets {
            stops: Seq::empty(),
            border_before: 0,
            band_before: Seq::empty(),
            border_after: 0,
            band_after: Seq::empty(),
            kept: Seq::empty(),
        };
        match self.active_terminal {
            Some(aid) => {
                match self.find_pane(aid) {
                    Some(ai) => {
                        proof {
                            self.lemma_idx_unique(ai as int, aid);
                        }
                        if self.can_increase_surroundings(aid, grow, RESIZE_PERCENT) {
                            let (applied, gh) = self.cascade_resize(aid, grow, RESIZE_PERCENT);
                            proof {
                                mid = *self;
                                sets = gh@;
                            }
                            acted = true;
                            proof {
                                assert(applied);
                            }
                        } else if self.can_reduce_surroundings(aid, shrink, RESIZE_PERCENT) {
                            let (applied, gh) = self.cascade_resize(aid, shrink, RESIZE_PERCENT);
                            proof {
                                mid = *self;
                                sets = gh@;
                            }
                            acted = true;
                        }
                    }
                    None => {
                        proof {
                            assert(false);
                        }
                    }
                }
            }
            None => {}
        }
        proof {
            if !acted {
                mid = *self;
            }
            assert(mid == *self);
        }
        let display = self.display_area;
        let msgs = self.resize_whole_tab(display);
        proof {
            // The relayout changed cells only: identities, selectability and
            // percent rectangles carry over from the cascade's output.
            assert forall|k: int|
                0 <= k < mid.panes_s().len() implies (#[trigger] self.panes_s()[k]).pid
                == mid.panes_s()[k].pid && self.panes_s()[k].selectable
                == mid.panes_s()[k].selectable && same_pct(
                self.panes_s()[k].geom,
                mid.panes_s()[k].geom,
            ) by {
                assert(self.panes_s()[k] == crate::layout::spec_frames_pane(
                    crate::layout::spec_relayout_pane(mid.panes_s()[k], mid.viewport),
                    mid.viewport,
                    mid.draw_pane_frames,
                ));
            }
            if a.active_terminal is Some && a.has_pane(a.active_terminal.unwrap()) {
                let aid = a.active_terminal.unwrap();
                assert(Tab::seq_has_id(mid.panes_s(), aid)) by {
                    let k = a.idx_of(aid);
                    a.lemma_idx_unique(k, aid);
                    assert(mid.panes_s()[k].pid == aid);
                }
                let mi = mid.idx_of(aid);
                mid.lemma_idx_unique(mi, aid);
                assert(self.panes_s()[mi].pid == aid);
                self.lemma_idx_unique(mi, aid);
                assert(same_pct(self.pane_of(aid).geom, mid.pane_of(aid).geom));
                if acted {
                    let op = if a.spec_can_increase(aid, grow, RESIZE_PERCENT) {
                        grow
                    } else {
                        shrink
                    };
                    if Self::spec_cascade_outcome(a, mid, aid, op, RESIZE_PERCENT, sets) {
                        Self::lemma_lift_outcome(a, mid, *self, aid, op, RESIZE_PERCENT, sets);
                    }
                    if mid.panes_s() == a.panes_s() {
                        Self::lemma_lift_unchanged(a, mid, *self);
                    }
                }
            }
            if !acted {
                Self::lemma_lift_unchanged(a, mid, *self);
            }
        }
        msgs
    }

    /// As `directional_resize`, with the active pane's own outcome restated
    /// directly.
    #[verifier::rlimit(100)]
    #[verifier::spinoff_prover]
    fn directional_resize_full(&mut self, grow: CascadeOp, shrink: CascadeOp) -> (msgs: Vec<
        OutboundMessage,
    >)
        requires
            old(self).well_formed(),
            !op_is_reduce(grow),
            op_is_reduce(shrink),
        ensures
            final(self).well_formed(),
            final(self).viewport == old(self).viewport,
            final(self).display_area == old(self).display_area,
            final(self).active_terminal == old(self).active_terminal,
            final(self).panes_s().len() == old(self).panes_s().len(),
            forall|k: int|
                0 <= k < old(self).panes_s().len() ==> (#[trigger] final(self).panes_s()[k]).pid
                    == old(self).panes_s()[k].pid && final(self).panes_s()[k].selectable == old(
                    self,
                ).panes_s()[k].selectable,
            !(old(self).active_terminal matches Some(aid) && old(self).has_pane(aid))
                ==> Self::spec_pct_unchanged(*old(self), *final(self)),
            (old(self).active_terminal matches Some(aid) && old(self).has_pane(aid)) ==> {
                let aid = old(self).active_terminal.unwrap();
                if old(self).spec_can_increase(aid, grow, RESIZE_PERCENT) {
                    exists|gh: CascadeSets|
                        #[trigger] Self::spec_resize_sets_ok(*old(self), aid, grow, gh)
                            && Self::spec_resize_applied(
                            *old(self),
                            *final(self),
                            aid,
                            grow,
                            RESIZE_PERCENT,
                            gh,
                        )
                } else if old(self).spec_can_reduce(aid, shrink, RESIZE_PERCENT) {
                    exists|gh: CascadeSets|
                        #[trigger] Self::spec_resize_sets_ok(*old(self), aid, shrink, gh) && (if !(
                        old(self).spec_band_below_floor(shrink, gh.band_before, RESIZE_PERCENT)
                            || old(self).spec_band_below_floor(
                            shrink,
                            gh.band_after,
                            RESIZE_PERCENT,
                        )) {
                            Self::spec_resize_applied(
                                *old(self),
                                *final(self),
                                aid,
                                shrink,
                                RESIZE_PERCENT,
                                gh,
                            )
                        } else {
                            Self::spec_pct_unchanged(*old(self), *final(self))
                        })
                } else {
                    Self::spec_pct_unchanged(*old(self), *final(self))
                }
            },
            (old(self).active_terminal matches Some(aid) && old(self).has_pane(aid)) ==> {
                let aid = old(self).active_terminal.unwrap();
                let t = old(self).pane_of(aid);
                if old(self).spec_can_increase(aid, grow, RESIZE_PERCENT) {
                    same_pct(
                        final(self).pane_of(aid).geom,
                        spec_resize_pane(t, op_band_resize(grow), RESIZE_PERCENT).geom,
                    )
                } else if old(self).spec_can_reduce(aid, shrink, RESIZE_PERCENT) {
                    same_pct(
                        final(self).pane_of(aid).geom,
                        spec_resize_pane(t, op_band_resize(shrink), RESIZE_PERCENT).geom,
                    ) || same_pct(final(self).pane_of(aid).geom, t.geom)
                } else {
                    same_pct(final(self).pane_of(aid).geom, t.geom)
                }
            },
    {
        let ghost a = *old(self);
        let msgs = self.directional_resize(grow, shrink);
        proof {
            if a.active_terminal is Some && a.has_pane(a.active_terminal.unwrap()) {
                let aid = a.active_terminal.unwrap();
                let t = a.pane_of(aid);
                let k = a.idx_of(aid);
                a.lemma_idx_unique(k, aid);
                if a.spec_can_increase(aid, grow, RESIZE_PERCENT) {
                    let gh = choose|gh: CascadeSets|
                        #[trigger] Self::spec_resize_sets_ok(a, aid, grow, gh)
                            && Self::spec_resize_applied(a, *self, aid, grow, RESIZE_PERCENT, gh);
                    assert(self.panes_s()[k].pid == aid);
                    self.lemma_idx_unique(k, aid);
                    assert(same_pct(
                        self.pane_of(aid).geom,
                        spec_resize_pane(t, op_band_resize(grow), RESIZE_PERCENT).geom,
                    ));
                } else if a.spec_can_reduce(aid, shrink, RESIZE_PERCENT) {
                    let gh = choose|gh: CascadeSets|
                        #[trigger] Self::spec_resize_sets_ok(a, aid, shrink, gh) && (if !(
                        a.spec_band_below_floor(shrink, gh.band_before, RESIZE_PERCENT)
                            || a.spec_band_below_floor(shrink, gh.band_after, RESIZE_PERCENT)) {
                            Self::spec_resize_applied(a, *self, aid, shrink, RESIZE_PERCENT, gh)
                        } else {
                            Self::spec_pct_unchanged(a, *self)
                        });
                    assert(self.panes_s()[k].pid == aid);
                    self.lemma_idx_unique(k, aid);
                } else {
                    assert(self.panes_s()[k].pid == aid);
                    self.lemma_idx_unique(k, aid);
                }
            }
        }
        msgs
    }

    /// Move the active pane's border one step to the right: grow rightward,
    /// or failing that give the step up leftward.
    #[verifier::rlimit(100)]
    #[verifier::spinoff_prover]
    pub fn resize_right(&mut self) -> (msgs: Vec<OutboundMessage>)
        requires
            old(self).well_formed(),
        ensures
            final(self).well_formed(),
            final(self).viewport == old(self).viewport,
            final(self).display_area == old(self).display_area,
            final(self).active_terminal == old(self).active_terminal,
            final(self).panes_s().len() == old(self).panes_s().len(),
            forall|k: int|
                0 <= k < old(self).panes_s().len() ==> (#[trigger] final(self).panes_s()[k]).pid
                    == old(self).panes_s()[k].pid && final(self).panes_s()[k].selectable == old(
                    self,
                ).panes_s()[k].selectable,
            !(old(self).active_terminal matches Some(aid) && old(self).has_pane(aid))
                ==> Self::spec_pct_unchanged(*old(self), *final(self)),
            (old(self).active_terminal matches Some(aid) && old(self).has_pane(aid)) ==> {
                let aid = old(self).active_terminal.unwrap();
                if old(self).spec_can_increase(aid, CascadeOp::IncreaseRight, RESIZE_PERCENT) {
                    exists|gh: CascadeSets|
                        #[trigger] Self::spec_resize_sets_ok(*old(self), aid, CascadeOp::IncreaseRight, gh)
                            && Self::spec_resize_applied(
                            *old(self),
                            *final(self),
                            aid,
                            CascadeOp::IncreaseRight,
                            RESIZE_PERCENT,
                            gh,
                        )
                } else if old(self).spec_can_reduce(aid, CascadeOp::ReduceRight, RESIZE_PERCENT) {
                    exists|gh: CascadeSets|
                        #[trigger] Self::spec_resize_sets_ok(*old(self), aid, CascadeOp::ReduceRight, gh)
                            && (if !(old(self).spec_band_below_floor(
                            CascadeOp::ReduceRight,
                            gh.band_before,
                            RESIZE_PERCENT,
                        ) || old(self).spec_band_below_floor(
                            CascadeOp::ReduceRight,
                            gh.band_after,
                            RESIZE_PERCENT,
                        )) {
                            Self::spec_resize_applied(
                                *old(self),
                                *final(self),
                                aid,
                                CascadeOp::ReduceRight,
                                RESIZE_PERCENT,
                                gh,
                            )
                        } else {
                            Self::spec_pct_unchanged(*old(self), *final(self))
                        })
                } else {
                    Self::spec_pct_unchanged(*old(self), *final(self))
                }
            },
            (old(self).active_terminal matches Some(aid) && old(self).has_pane(aid)) ==> {
                let aid = old(self).active_terminal.unwrap();
                let t = old(self).pane_of(aid);
                if old(self).spec_can_increase(aid, CascadeOp::IncreaseRight, RESIZE_PERCENT) {
                    same_pct(
                        final(self).pane_of(aid).geom,
                        spec_resize_pane(t, PaneResize::GrowRight, RESIZE_PERCENT).geom,
                    )
                } else if old(self).spec_can_reduce(aid, CascadeOp::ReduceRight, RESIZE_PERCENT) {
                    same_pct(
                        final(self).pane_of(aid).geom,
                        spec_resize_pane(t, PaneResize::ShrinkFromLeft, RESIZE_PERCENT).geom,
                    ) || same_pct(final(self).pane_of(aid).geom, t.geom)
                } else {
                    same_pct(final(self).pane_of(aid).geom, t.geom)
                }
            },
    {
        self.directional_resize_full(CascadeOp::IncreaseRight, CascadeOp::ReduceRight)
    }

    /// Move the active pane's border one step to the left.
    #[verifier::rlimit(100)]
    #[verifier::spinoff_prover]
    pub fn resize_left(&mut self) -> (msgs: Vec<OutboundMessage>)
        requires
            old(self).well_formed(),
        ensures
            final(self).well_formed(),
            final(self).viewport == old(self).viewport,
            final(self).display_area == old(self).display_area,
            final(self).active_terminal == old(self).active_terminal,
            final(self).panes_s().len() == old(self).panes_s().len(),
            forall|k: int|
                0 <= k < old(self).panes_s().len() ==> (#[trigger] final(self).panes_s()[k]).pid
                    == old(self).panes_s()[k].pid && final(self).panes_s()[k].selectable == old(
                    self,
                ).panes_s()[k].selectable,
            !(old(self).active_terminal matches Some(aid) && old(self).has_pane(aid))
                ==> Self::spec_pct_unchanged(*old(self), *final(self)),
            (old(self).active_terminal matches Some(aid) && old(self).has_pane(aid)) ==> {
                let aid = old(self).active_terminal.unwrap();
                if old(self).spec_can_increase(aid, CascadeOp::IncreaseLeft, RESIZE_PERCENT) {
                    exists|gh: CascadeSets|
                        #[trigger] Self::spec_resize_sets_ok(*old(self), aid, CascadeOp::IncreaseLeft, gh)
                            && Self::spec_resize_applied(
                            *old(self),
                            *final(self),
                            aid,
                            CascadeOp::IncreaseLeft,
                            RESIZE_PERCENT,
                            gh,
                        )
                } else if old(self).spec_can_reduce(aid, CascadeOp::ReduceLeft, RESIZE_PERCENT) {
                    exists|gh: CascadeSets|
                        #[trigger] Self::spec_resize_sets_ok(*old(self), aid, CascadeOp::ReduceLeft, gh)
                            && (if !(old(self).spec_band_below_floor(
                            CascadeOp::ReduceLeft,
                            gh.band_before,
                            RESIZE_PERCENT,
                        ) || old(self).spec_band_below_floor(
                            CascadeOp::ReduceLeft,
                            gh.band_after,
                            RESIZE_PERCENT,
                        )) {
                            Self::spec_resize_applied(
                                *old(self),
                                *final(self),
                                aid,
                                CascadeOp::ReduceLeft,
                                RESIZE_PERCENT,
                                gh,
                            )
                        } else {
                            Self::spec_pct_unchanged(*old(self), *final(self))
                        })
                } else {
                    Self::spec_pct_unchanged(*old(self), *final(self))
                }
            },
            (old(self).active_terminal matches Some(aid) && old(self).has_pane(aid)) ==> {
                let aid = old(self).active_terminal.unwrap();
                let t = old(self).pane_of(aid);
                if old(self).spec_can_increase(aid, CascadeOp::IncreaseLeft, RESIZE_PERCENT) {
                    same_pct(
                        final(self).pane_of(aid).geom,
                        spec_resize_pane(t, PaneResize::GrowLeft, RESIZE_PERCENT).geom,
                    )
                } else if old(self).spec_can_reduce(aid, CascadeOp::ReduceLeft, RESIZE_PERCENT) {
                    same_pct(
                        final(self).pane_of(aid).geom,
                        spec_resize_pane(t, PaneResize::ShrinkFromRight, RESIZE_PERCENT).geom,
                    ) || same_pct(final(self).pane_of(aid).geom, t.geom)
                } else {
                    same_pct(final(self).pane_of(aid).geom, t.geom)
                }
            },
    {
        self.directional_resize_full(CascadeOp::IncreaseLeft, CascadeOp::ReduceLeft)
    }

    /// Move the active pane's border one step up.
    #[verifier::rlimit(100)]
    #[verifier::spinoff_prover]
    pub fn resize_up(&mut self) -> (msgs: Vec<OutboundMessage>)
        requires
            old(self).well_formed(),
        ensures
            final(self).well_formed(),
            final(self).viewport == old(self).viewport,
            final(self).display_area == old(self).display_area,
            final(self).active_terminal == old(self).active_terminal,
            final(self).panes_s().len() == old(self).panes_s().len(),
            forall|k: int|
                0 <= k < old(self).panes_s().len() ==> (#[trigger] final(self).panes_s()[k]).pid
                    == old(self).panes_s()[k].pid && final(self).panes_s()[k].selectable == old(
                    self,
                ).panes_s()[k].selectable,
            !(old(self).active_terminal matches Some(aid) && old(self).has_pane(aid))
                ==> Self::spec_pct_unchanged(*old(self), *final(self)),
            (old(self).active_terminal matches Some(aid) && old(self).has_pane(aid)) ==> {
                let aid = old(self).active_terminal.unwrap();
                if old(self).spec_can_increase(aid, CascadeOp::IncreaseUp, RESIZE_PERCENT) {
                    exists|gh: CascadeSets|
                        #[trigger] Self::spec_resize_sets_ok(*old(self), aid, CascadeOp::IncreaseUp, gh)
                            && Self::spec_resize_applied(
                            *old(self),
                            *final(self),
                            aid,
                            CascadeOp::IncreaseUp,
                            RESIZE_PERCENT,
                            gh,
                        )
                } else if old(self).spec_can_reduce(aid, CascadeOp::ReduceUp, RESIZE_PERCENT) {
                    exists|gh: CascadeSets|
                        #[trigger] Self::spec_resize_sets_ok(*old(self), aid, CascadeOp::ReduceUp, gh)
                            && (if !(old(self).spec_band_below_floor(
                            CascadeOp::ReduceUp,
                            gh.band_before,
                            RESIZE_PERCENT,
                        ) || old(self).spec_band_below_floor(
                            CascadeOp::ReduceUp,
                            gh.band_after,
                            RESIZE_PERCENT,
                        )) {
                            Self::spec_resize_applied(
                                *old(self),
                                *final(self),
                                aid,
                                CascadeOp::ReduceUp,
                                RESIZE_PERCENT,
                                gh,
                            )
                        } else {
                            Self::spec_pct_unchanged(*old(self), *final(self))
                        })
                } else {
                    Self::spec_pct_unchanged(*old(self), *final(self))
                }
            },
            (old(self).active_terminal matches Some(aid) && old(self).has_pane(aid)) ==> {
                let aid = old(self).active_terminal.unwrap();
                let t = old(self).pane_of(aid);
                if old(self).spec_can_increase(aid, CascadeOp::IncreaseUp, RESIZE_PERCENT) {
                    same_pct(
                        final(self).pane_of(aid).geom,
                        spec_resize_pane(t, PaneResize::GrowUp, RESIZE_PERCENT).geom,
                    )
                } else if old(self).spec_can_reduce(aid, CascadeOp::ReduceUp, RESIZE_PERCENT) {
                    same_pct(
                        final(self).pane_of(aid).geom,
                        spec_resize_pane(t, PaneResize::ShrinkFromBottom, RESIZE_PERCENT).geom,
                    ) || same_pct(final(self).pane_of(aid).geom, t.geom)
                } else {
                    same_pct(final(self).pane_of(aid).geom, t.geom)
                }
            },
    {
        self.directional_resize_full(CascadeOp::IncreaseUp, CascadeOp::ReduceUp)
    }

    /// Move the active pane's border one step down.
    #[verifier::rlimit(100)]
    #[verifier::spinoff_prover]
    pub fn resize_down(&mut self) -> (msgs: Vec<OutboundMessage>)
        requires
            old(self).well_formed(),
        ensures
            final(self).well_formed(),
            final(self).viewport == old(self).viewport,
            final(self).display_area == old(self).display_area,
            final(self).active_terminal == old(self).active_terminal,
            final(self).panes_s().len() == old(self).panes_s().len(),
            forall|k: int|
                0 <= k < old(self).panes_s().len() ==> (#[trigger] final(self).panes_s()[k]).pid
                    == old(self).panes_s()[k].pid && final(self).panes_s()[k].selectable == old(
                    self,
                ).panes_s()[k].selectable,
            !(old(self).active_terminal matches Some(aid) && old(self).has_pane(aid))
                ==> Self::spec_pct_unchanged(*old(self), *final(self)),
            (old(self).active_terminal matches Some(aid) && old(self).has_pane(aid)) ==> {
                let aid = old(self).active_terminal.unwrap();
                if old(self).spec_can_increase(aid, CascadeOp::IncreaseDown, RESIZE_PERCENT) {
                    exists|gh: CascadeSets|
                        #[trigger] Self::spec_resize_sets_ok(*old(self), aid, CascadeOp::IncreaseDown, gh)
                            && Self::spec_resize_applied(
                            *old(self),
                            *final(self),
                            aid,
                            CascadeOp::IncreaseDown,
                            RESIZE_PERCENT,
                            gh,
                        )
                } else if old(self).spec_can_reduce(aid, CascadeOp::ReduceDown, RESIZE_PERCENT) {
                    exists|gh: CascadeSets|
                        #[trigger] Self::spec_resize_sets_ok(*old(self), aid, CascadeOp::ReduceDown, gh)
                            && (if !(old(self).spec_band_below_floor(
                            CascadeOp::ReduceDown,
                            gh.band_before,
                            RESIZE_PERCENT,
                        ) || old(self).spec_band_below_floor(
                            CascadeOp::ReduceDown,
                            gh.band_after,
                            RESIZE_PERCENT,
                        )) {
                            Self::spec_resize_applied(
                                *old(self),
                                *final(self),
                                aid,
                                CascadeOp::ReduceDown,
                                RESIZE_PERCENT,
                                gh,
                            )
                        } else {
                            Self::spec_pct_unchanged(*old(self), *final(self))
                        })
                } else {
                    Self::spec_pct_unchanged(*old(self), *final(self))
                }
            },
            (old(self).active_terminal matches Some(aid) && old(self).has_pane(aid)) ==> {
                let aid = old(self).active_terminal.unwrap();
                let t = old(self).pane_of(aid);
                if old(self).spec_can_increase(aid, CascadeOp::IncreaseDown, RESIZE_PERCENT) {
                    same_pct(
                        final(self).pane_of(aid).geom,
                        spec_resize_pane(t, PaneResize::GrowDown, RESIZE_PERCENT).geom,
                    )
                } else if old(self).spec_can_reduce(aid, CascadeOp::ReduceDown, RESIZE_PERCENT) {
                    same_pct(
                        final(self).pane_of(aid).geom,
                        spec_resize_pane(t, PaneResize::ShrinkFromTop, RESIZE_PERCENT).geom,
                    ) || same_pct(final(self).pane_of(aid).geom, t.geom)
                } else {
                    same_pct(final(self).pane_of(aid).geom, t.geom)
                }
            },
    {
        self.directional_resize_full(CascadeOp::IncreaseDown, CascadeOp::ReduceDown)
    }

}

/// The alignment test, on the base percent rectangles.
pub fn align_exec(align: EdgeRel, p: &Pane, t: &Pane) -> (r: bool)
    requires
        p.geom.px + p.geom.pw() <= FULL_PERCENT,
        p.geom.py + p.geom.ph() <= FULL_PERCENT,
        t.geom.px + t.geom.pw() <= FULL_PERCENT,
        t.geom.py + t.geom.ph() <= FULL_PERCENT,
    ensures
        r == edge_rel_holds(align, *p, *t),
{
    let p_right = p.geom.px + match p.geom.cols.constraint {
        Constraint::Percent(w) => w,
        Constraint::Fixed(_) => 0,
    };
    let p_bottom = p.geom.py + match p.geom.rows.constraint {
        Constraint::Percent(w) => w,
        Constraint::Fixed(_) => 0,
    };
    let t_right = t.geom.px + match t.geom.cols.constraint {
        Constraint::Percent(w) => w,
        Constraint::Fixed(_) => 0,
    };
    let t_bottom = t.geom.py + match t.geom.rows.constraint {
        Constraint::Percent(w) => w,
        Constraint::Fixed(_) => 0,
    };
    match align {
        EdgeRel::DirectlyLeftOf => p_right == t.geom.px,
        EdgeRel::DirectlyRightOf => p.geom.px == t_right,
        EdgeRel::DirectlyAbove => p_bottom == t.geom.py,
        EdgeRel::DirectlyBelow => p.geom.py == t_bottom,
        EdgeRel::TopAligned => !p.pid.eq_id(t.pid) && p.geom.py == t.geom.py,
        EdgeRel::BottomAligned => !p.pid.eq_id(t.pid) && p_bottom == t_bottom,
        EdgeRel::LeftAligned => !p.pid.eq_id(t.pid) && p.geom.px == t.geom.px,
        EdgeRel::RightAligned => !p.pid.eq_id(t.pid) && p_right == t_right,
    }
}

} // verus!
