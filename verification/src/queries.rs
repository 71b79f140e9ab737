//! The partition index: spatial queries over the pane map. All questions are
//! asked of the percent rectangles, where adjacency is exact; the one
//! boundary cell between realized rectangles never enters into them.
use vstd::prelude::*;

use crate::geom::{FULL_PERCENT, PaneGeom};
use crate::pane::{Pane, PaneId};
use crate::tab::Tab;

verus! {

/// A spatial relation a queried pane can stand in to the target pane.
#[derive(Clone, Copy, PartialEq, Eq, Structural, Debug)]
pub enum EdgeRel {
    DirectlyLeftOf,
    DirectlyRightOf,
    DirectlyAbove,
    DirectlyBelow,
    TopAligned,
    BottomAligned,
    LeftAligned,
    RightAligned,
}

/// What each relation says of a pane `p` against the target `t`, on the base
/// percent rectangles. The aligned relations exclude the target itself.
pub open spec fn edge_rel_holds(rel: EdgeRel, p: Pane, t: Pane) -> bool {
    match rel {
        EdgeRel::DirectlyLeftOf => p.geom.px + p.geom.pw() == t.geom.px,
        EdgeRel::DirectlyRightOf => p.geom.px == t.geom.px + t.geom.pw(),
        EdgeRel::DirectlyAbove => p.geom.py + p.geom.ph() == t.geom.py,
        EdgeRel::DirectlyBelow => p.geom.py == t.geom.py + t.geom.ph(),
        EdgeRel::TopAligned => p.pid != t.pid && p.geom.py == t.geom.py,
        EdgeRel::BottomAligned => p.pid != t.pid && p.geom.py + p.geom.ph() == t.geom.py
            + t.geom.ph(),
        EdgeRel::LeftAligned => p.pid != t.pid && p.geom.px == t.geom.px,
        EdgeRel::RightAligned => p.pid != t.pid && p.geom.px + p.geom.pw() == t.geom.px
            + t.geom.pw(),
    }
}

fn edge_rel_exec(rel: EdgeRel, p: &Pane, t: &Pane) -> (r: bool)
    requires
        p.geom.px + p.geom.pw() <= FULL_PERCENT,
        p.geom.py + p.geom.ph() <= FULL_PERCENT,
        t.geom.px + t.geom.pw() <= FULL_PERCENT,
        t.geom.py + t.geom.ph() <= FULL_PERCENT,
    ensures
        r == edge_rel_holds(rel, *p, *t),
{
    let p_right = p.geom.px + cols_pct(&p.geom);
    let p_bottom = p.geom.py + rows_pct(&p.geom);
    let t_right = t.geom.px + cols_pct(&t.geom);
    let t_bottom = t.geom.py + rows_pct(&t.geom);
    match rel {
        EdgeRel::DirectlyLeftOf => p_right == t.geom.px,
        EdgeRel::DirectlyRightOf => p.geom.px == t_right,
        EdgeRel::DirectlyAbove => p_bottom == t.geom.py,
        EdgeRel::DirectlyBelow => p.geom.py == t_bottom,
        EdgeRel::TopAligned => !p.pid.eq_id(t.pid) && p.geom.py == t.geom.py,
        EdgeRel::BottomAligned => !p.pid.eq_id(t.pid) && p_bottom == t_bottom,
        EdgeRel::LeftAligned => !p.pid.eq_id(t.pid) && p.geom.px == t.geom.px,
        EdgeRel::RightAligned => !p.pid.eq_id(t.pid) && p_right == t_right,
    }
}

fn cols_pct(g: &PaneGeom) -> (r: u32)
    ensures
        r == g.pw(),
{
    match g.cols.constraint {
        crate::geom::Constraint::Percent(p) => p,
        crate::geom::Constraint::Fixed(_) => 0,
    }
}

fn rows_pct(g: &PaneGeom) -> (r: u32)
    ensures
        r == g.ph(),
{
    match g.rows.constraint {
        crate::geom::Constraint::Percent(p) => p,
        crate::geom::Constraint::Fixed(_) => 0,
    }
}

/// Membership in a vector of pane ids.
pub fn ids_contain(ids: &Vec<PaneId>, id: PaneId) -> (r: bool)
    ensures
        r == ids@.contains(id),
{
    let mut i: usize = 0;
    while i < ids.len()
        invariant
            i <= ids@.len(),
            forall|k: int| 0 <= k < i ==> ids@[k] != id,
        decreases ids@.len() - i,
    {
        if ids[i].eq_id(id) {
            proof {
                assert(ids@[i as int] == id);
            }
            return true;
        }
        i = i + 1;
    }
    false
}

/// Membership in a vector of percent coordinates.
pub fn borders_contain(borders: &Vec<u32>, b: u32) -> (r: bool)
    ensures
        r == borders@.contains(b),
{
    let mut i: usize = 0;
    while i < borders.len()
        invariant
            i <= borders@.len(),
            forall|k: int| 0 <= k < i ==> borders@[k] != b,
        decreases borders@.len() - i,
    {
        if borders[i] == b {
            proof {
                assert(borders@[i as int] == b);
            }
            return true;
        }
        i = i + 1;
    }
    false
}

impl Tab {
    /// Exactly the panes standing in the given relation to the target; the
    /// returned ids rise strictly in pane-id order.
    pub open spec fn rel_ids_exact(self, rel: EdgeRel, t: Pane, ids: Seq<PaneId>) -> bool {
        &&& forall|j: int|
            0 <= j < self.panes_s().len() ==> (edge_rel_holds(rel, #[trigger] self.panes_s()[j], t)
                <==> ids.contains(self.panes_s()[j].pid))
        &&& forall|k: int|
            0 <= k < ids.len() ==> self.has_pane(#[trigger] ids[k]) && edge_rel_holds(
                rel,
                self.pane_of(ids[k]),
                t,
            )
        &&& forall|k: int, l: int| 0 <= k < l < ids.len() ==> (#[trigger] ids[k]).spec_lt(
            #[trigger] ids[l],
        )
    }

    /// Collect the panes standing in the given relation to the target pane.
    pub fn panes_with_rel(&self, rel: EdgeRel, t: &Pane) -> (ids: Vec<PaneId>)
        requires
            self.well_formed_except_cells(),
            t.geom.px + t.geom.pw() <= FULL_PERCENT,
            t.geom.py + t.geom.ph() <= FULL_PERCENT,
        ensures
            self.rel_ids_exact(rel, *t, ids@),
    {
        let mut ids: Vec<PaneId> = Vec::new();
        let ghost mut idxs: Seq<int> = Seq::empty();
        let mut i: usize = 0;
        while i < self.panes.len()
            invariant
                self.well_formed_except_cells(),
                t.geom.px + t.geom.pw() <= FULL_PERCENT,
                t.geom.py + t.geom.ph() <= FULL_PERCENT,
                i <= self.panes_s().len(),
                idxs.len() == ids@.len(),
                forall|k: int| 0 <= k < idxs.len() ==> 0 <= #[trigger] idxs[k] < i,
                forall|k: int, l: int| 0 <= k < l < idxs.len() ==> idxs[k] < idxs[l],
                forall|k: int|
                    0 <= k < idxs.len() ==> ids@[k] == self.panes_s()[#[trigger] idxs[k]].pid
                        && edge_rel_holds(rel, self.panes_s()[idxs[k]], *t),
                forall|j: int|
                    0 <= j < i && edge_rel_holds(rel, #[trigger] self.panes_s()[j], *t)
                        ==> ids@.contains(self.panes_s()[j].pid),
            decreases self.panes_s().len() - i,
        {
            let p = self.panes[i];
            if edge_rel_exec(rel, &p, t) {
                let ghost before = ids@;
                ids.push(p.pid);
                proof {
                    idxs = idxs.push(i as int);
                    assert(ids@[ids@.len() - 1] == p.pid);
                    assert forall|j: int|
                        0 <= j < i + 1 && edge_rel_holds(
                            rel,
                            #[trigger] self.panes_s()[j],
                            *t,
                        ) implies ids@.contains(self.panes_s()[j].pid) by {
                        if j < i {
                            assert(before.contains(self.panes_s()[j].pid));
                            let w = choose|w: int|
                                0 <= w < before.len() && before[w] == self.panes_s()[j].pid;
                            assert(ids@[w] == self.panes_s()[j].pid);
                        } else {
                            assert(ids@[ids@.len() - 1] == self.panes_s()[j].pid);
                        }
                    }
                }
            }
            i = i + 1;
        }
        proof {
            assert forall|j: int|
                0 <= j < self.panes_s().len() && ids@.contains(
                    self.panes_s()[j].pid,
                ) implies edge_rel_holds(rel, #[trigger] self.panes_s()[j], *t) by {
                let k = choose|k: int| 0 <= k < ids@.len() && ids@[k] == self.panes_s()[j].pid;
                let jj = idxs[k];
                if jj != j {
                    if jj < j {
                        assert(self.panes_s()[jj].pid.spec_lt(self.panes_s()[j].pid));
                    } else {
                        assert(self.panes_s()[j].pid.spec_lt(self.panes_s()[jj].pid));
                    }
                    assert(false);
                }
            }
            assert forall|k: int|
                0 <= k < ids@.len() implies self.has_pane(#[trigger] ids@[k]) && edge_rel_holds(
                rel,
                self.pane_of(ids@[k]),
                *t,
            ) by {
                self.lemma_idx_unique(idxs[k], ids@[k]);
            }
            assert forall|k: int, l: int|
                0 <= k < l < ids@.len() implies (#[trigger] ids@[k]).spec_lt(
                #[trigger] ids@[l],
            ) by {
                assert(self.panes_s()[idxs[k]].pid.spec_lt(self.panes_s()[idxs[l]].pid));
            }
        }
        ids
    }

    /// All panes whose right edge abuts the target's left edge; nothing when
    /// the target touches the left edge of the viewport.
    pub fn pane_ids_directly_left_of(&self, id: PaneId) -> (r: Option<Vec<PaneId>>)
        requires
            self.well_formed_except_cells(),
            self.has_pane(id),
        ensures
            match r {
                Some(ids) => self.pane_of(id).geom.px != 0 && ids@.len() > 0
                    && self.rel_ids_exact(EdgeRel::DirectlyLeftOf, self.pane_of(id), ids@),
                None => self.pane_of(id).geom.px == 0 || forall|j: int|
                    0 <= j < self.panes_s().len() ==> !edge_rel_holds(
                        EdgeRel::DirectlyLeftOf,
                        #[trigger] self.panes_s()[j],
                        self.pane_of(id),
                    ),
            },
    {
        let i = match self.find_pane(id) {
            Some(i) => i,
            None => {
                proof {
                    assert(false);
                }
                0
            }
        };
        proof {
            self.lemma_idx_unique(i as int, id);
        }
        let t = self.panes[i];
        if t.geom.px == 0 {
            return None;
        }
        let ids = self.panes_with_rel(EdgeRel::DirectlyLeftOf, &t);
        if ids.len() == 0 {
            proof {
                assert forall|j: int|
                    0 <= j < self.panes_s().len() implies !edge_rel_holds(
                    EdgeRel::DirectlyLeftOf,
                    #[trigger] self.panes_s()[j],
                    self.pane_of(id),
                ) by {
                    if edge_rel_holds(EdgeRel::DirectlyLeftOf, self.panes_s()[j], self.pane_of(id)) {
                        assert(ids@.contains(self.panes_s()[j].pid));
                    }
                }
            }
            None
        } else {
            Some(ids)
        }
    }

    /// All panes whose left edge abuts the target's right edge.
    pub fn pane_ids_directly_right_of(&self, id: PaneId) -> (r: Option<Vec<PaneId>>)
        requires
            self.well_formed_except_cells(),
            self.has_pane(id),
        ensures
            match r {
                Some(ids) => ids@.len() > 0 && self.rel_ids_exact(
                    EdgeRel::DirectlyRightOf,
                    self.pane_of(id),
                    ids@,
                ),
                None => forall|j: int|
                    0 <= j < self.panes_s().len() ==> !edge_rel_holds(
                        EdgeRel::DirectlyRightOf,
                        #[trigger] self.panes_s()[j],
                        self.pane_of(id),
                    ),
            },
    {
        let i = match self.find_pane(id) {
            Some(i) => i,
            None => {
                proof {
                    assert(false);
                }
                0
            }
        };
        proof {
            self.lemma_idx_unique(i as int, id);
        }
        let t = self.panes[i];
        let ids = self.panes_with_rel(EdgeRel::DirectlyRightOf, &t);
        if ids.len() == 0 {
            proof {
                assert forall|j: int|
                    0 <= j < self.panes_s().len() implies !edge_rel_holds(
                    EdgeRel::DirectlyRightOf,
                    #[trigger] self.panes_s()[j],
                    self.pane_of(id),
                ) by {
                    if edge_rel_holds(
                        EdgeRel::DirectlyRightOf,
                        self.panes_s()[j],
                        self.pane_of(id),
                    ) {
                        assert(ids@.contains(self.panes_s()[j].pid));
                    }
                }
            }
            None
        } else {
            Some(ids)
        }
    }

    /// All panes whose bottom edge abuts the target's top edge.
    pub fn pane_ids_directly_above(&self, id: PaneId) -> (r: Option<Vec<PaneId>>)
        requires
            self.well_formed_except_cells(),
            self.has_pane(id),
        ensures
            match r {
                Some(ids) => ids@.len() > 0 && self.rel_ids_exact(
                    EdgeRel::DirectlyAbove,
                    self.pane_of(id),
                    ids@,
                ),
                None => forall|j: int|
                    0 <= j < self.panes_s().len() ==> !edge_rel_holds(
                        EdgeRel::DirectlyAbove,
                        #[trigger] self.panes_s()[j],
                        self.pane_of(id),
                    ),
            },
    {
        let i = match self.find_pane(id) {
            Some(i) => i,
            None => {
                proof {
                    assert(false);
                }
                0
            }
        };
        proof {
            self.lemma_idx_unique(i as int, id);
        }
        let t = self.panes[i];
        let ids = self.panes_with_rel(EdgeRel::DirectlyAbove, &t);
        if ids.len() == 0 {
            proof {
                assert forall|j: int|
                    0 <= j < self.panes_s().len() implies !edge_rel_holds(
                    EdgeRel::DirectlyAbove,
                    #[trigger] self.panes_s()[j],
                    self.pane_of(id),
                ) by {
                    if edge_rel_holds(EdgeRel::DirectlyAbove, self.panes_s()[j], self.pane_of(id)) {
                        assert(ids@.contains(self.panes_s()[j].pid));
                    }
                }
            }
            None
        } else {
            Some(ids)
        }
    }

    /// All panes whose top edge abuts the target's bottom edge.
    pub fn pane_ids_directly_below(&self, id: PaneId) -> (r: Option<Vec<PaneId>>)
        requires
            self.well_formed_except_cells(),
            self.has_pane(id),
        ensures
            match r {
                Some(ids) => ids@.len() > 0 && self.rel_ids_exact(
                    EdgeRel::DirectlyBelow,
                    self.pane_of(id),
                    ids@,
                ),
                None => forall|j: int|
                    0 <= j < self.panes_s().len() ==> !edge_rel_holds(
                        EdgeRel::DirectlyBelow,
                        #[trigger] self.panes_s()[j],
                        self.pane_of(id),
                    ),
            },
    {
        let i = match self.find_pane(id) {
            Some(i) => i,
            None => {
                proof {
                    assert(false);
                }
                0
            }
        };
        proof {
            self.lemma_idx_unique(i as int, id);
        }
        let t = self.panes[i];
        let ids = self.panes_with_rel(EdgeRel::DirectlyBelow, &t);
        if ids.len() == 0 {
            proof {
                assert forall|j: int|
                    0 <= j < self.panes_s().len() implies !edge_rel_holds(
                    EdgeRel::DirectlyBelow,
                    #[trigger] self.panes_s()[j],
                    self.pane_of(id),
                ) by {
                    if edge_rel_holds(EdgeRel::DirectlyBelow, self.panes_s()[j], self.pane_of(id)) {
                        assert(ids@.contains(self.panes_s()[j].pid));
                    }
                }
            }
            None
        } else {
            Some(ids)
        }
    }

    /// The horizontal edge coordinates of the given panes: each pane's top
    /// and bottom, in percent space.
    pub fn horizontal_borders(&self, ids: &Vec<PaneId>) -> (borders: Vec<u32>)
        requires
            self.well_formed_except_cells(),
            forall|k: int| 0 <= k < ids@.len() ==> self.has_pane(#[trigger] ids@[k]),
        ensures
            forall|b: u32|
                borders@.contains(b) <==> exists|k: int|
                    0 <= k < ids@.len() && {
                        let g = self.pane_of(#[trigger] ids@[k]).geom;
                        b == g.py || b == g.py + g.ph()
                    },
    {
        let mut borders: Vec<u32> = Vec::new();
        let mut i: usize = 0;
        while i < ids.len()
            invariant
                self.well_formed_except_cells(),
                forall|k: int| 0 <= k < ids@.len() ==> self.has_pane(#[trigger] ids@[k]),
                i <= ids@.len(),
                forall|b: u32|
                    borders@.contains(b) <==> exists|k: int|
                        0 <= k < i && {
                            let g = self.pane_of(#[trigger] ids@[k]).geom;
                            b == g.py || b == g.py + g.ph()
                        },
            decreases ids@.len() - i,
        {
            let id = ids[i];
            let j = match self.find_pane(id) {
                Some(j) => j,
                None => {
                    proof {
                        assert(self.has_pane(ids@[i as int]));
                        assert(false);
                    }
                    0
                }
            };
            proof {
                self.lemma_idx_unique(j as int, id);
            }
            let g = self.panes[j].geom;
            let ghost before = borders@;
            let top = g.py;
            let bottom = g.py + rows_pct(&g);
            proof {
                assert(g.py + g.ph() <= FULL_PERCENT) by {
                    assert(crate::tab::pane_bounded(self.panes_s()[j as int]));
                }
            }
            borders.push(top);
            borders.push(bottom);
            proof {
                assert forall|b: u32| borders@.contains(b) implies exists|k: int|
                    0 <= k < i + 1 && {
                        let g = self.pane_of(#[trigger] ids@[k]).geom;
                        b == g.py || b == g.py + g.ph()
                    } by {
                    let w = choose|w: int| 0 <= w < borders@.len() && borders@[w] == b;
                    if w < before.len() {
                        assert(before[w] == b);
                        assert(before.contains(b));
                    } else {
                        let g0 = self.pane_of(ids@[i as int]).geom;
                        assert(b == g0.py || b == g0.py + g0.ph());
                    }
                }
                assert forall|b: u32|
                    (exists|k: int|
                        0 <= k < i + 1 && {
                            let g = self.pane_of(#[trigger] ids@[k]).geom;
                            b == g.py || b == g.py + g.ph()
                        }) implies borders@.contains(b) by {
                    let k = choose|k: int|
                        0 <= k < i + 1 && {
                            let g = self.pane_of(#[trigger] ids@[k]).geom;
                            b == g.py || b == g.py + g.ph()
                        };
                    if k < i {
                        assert(before.contains(b));
                        let w = choose|w: int| 0 <= w < before.len() && before[w] == b;
                        assert(borders@[w] == b);
                    } else {
                        if b == top {
                            assert(borders@[borders@.len() - 2] == b);
                        } else {
                            assert(borders@[borders@.len() - 1] == b);
                        }
                    }
                }
            }
            i = i + 1;
        }
        borders
    }

    /// The vertical edge coordinates of the given panes: each pane's left
    /// and right, in percent space.
    pub fn vertical_borders(&self, ids: &Vec<PaneId>) -> (borders: Vec<u32>)
        requires
            self.well_formed_except_cells(),
            forall|k: int| 0 <= k < ids@.len() ==> self.has_pane(#[trigger] ids@[k]),
        ensures
            forall|b: u32|
                borders@.contains(b) <==> exists|k: int|
                    0 <= k < ids@.len() && {
                        let g = self.pane_of(#[trigger] ids@[k]).geom;
                        b == g.px || b == g.px + g.pw()
                    },
    {
        let mut borders: Vec<u32> = Vec::new();
        let mut i: usize = 0;
        while i < ids.len()
            invariant
                self.well_formed_except_cells(),
                forall|k: int| 0 <= k < ids@.len() ==> self.has_pane(#[trigger] ids@[k]),
                i <= ids@.len(),
                forall|b: u32|
                    borders@.contains(b) <==> exists|k: int|
                        0 <= k < i && {
                            let g = self.pane_of(#[trigger] ids@[k]).geom;
                            b == g.px || b == g.px + g.pw()
                        },
            decreases ids@.len() - i,
        {
            let id = ids[i];
            let j = match self.find_pane(id) {
                Some(j) => j,
                None => {
                    proof {
                        assert(self.has_pane(ids@[i as int]));
                        assert(false);
                    }
                    0
                }
            };
            proof {
                self.lemma_idx_unique(j as int, id);
            }
            let g = self.panes[j].geom;
            let ghost before = borders@;
            let left = g.px;
            let right = g.px + cols_pct(&g);
            proof {
                assert(g.px + g.pw() <= FULL_PERCENT) by {
                    assert(crate::tab::pane_bounded(self.panes_s()[j as int]));
                }
            }
            borders.push(left);
            borders.push(right);
            proof {
                assert forall|b: u32| borders@.contains(b) implies exists|k: int|
                    0 <= k < i + 1 && {
                        let g = self.pane_of(#[trigger] ids@[k]).geom;
                        b == g.px || b == g.px + g.pw()
                    } by {
                    let w = choose|w: int| 0 <= w < borders@.len() && borders@[w] == b;
                    if w < before.len() {
                        assert(before[w] == b);
                        assert(before.contains(b));
                    } else {
                        let g0 = self.pane_of(ids@[i as int]).geom;
                        assert(b == g0.px || b == g0.px + g0.pw());
                    }
                }
                assert forall|b: u32|
                    (exists|k: int|
                        0 <= k < i + 1 && {
                            let g = self.pane_of(#[trigger] ids@[k]).geom;
                            b == g.px || b == g.px + g.pw()
                        }) implies borders@.contains(b) by {
                    let k = choose|k: int|
                        0 <= k < i + 1 && {
                            let g = self.pane_of(#[trigger] ids@[k]).geom;
                            b == g.px || b == g.px + g.pw()
                        };
                    if k < i {
                        assert(before.contains(b));
                        let w = choose|w: int| 0 <= w < before.len() && before[w] == b;
                        assert(borders@[w] == b);
                    } else {
                        if b == left {
                            assert(borders@[borders@.len() - 2] == b);
                        } else {
                            assert(borders@[borders@.len() - 1] == b);
                        }
                    }
                }
            }
            i = i + 1;
        }
        borders
    }

    /// The pane's percent x-range lies inside the two vertical borders.
    pub fn pane_is_between_vertical_borders(
        &self,
        id: PaneId,
        left_border: u32,
        right_border: u32,
    ) -> (r: bool)
        requires
            self.well_formed_except_cells(),
            self.has_pane(id),
        ensures
            r == {
                let g = self.pane_of(id).geom;
                g.px >= left_border && g.px + g.pw() <= right_border
            },
    {
        let i = match self.find_pane(id) {
            Some(i) => i,
            None => {
                proof {
                    assert(false);
                }
                0
            }
        };
        proof {
            self.lemma_idx_unique(i as int, id);
            assert(crate::tab::pane_bounded(self.panes_s()[i as int]));
        }
        let g = self.panes[i].geom;
        g.px >= left_border && g.px + cols_pct(&g) <= right_border
    }

    /// The pane's percent y-range lies inside the two horizontal borders.
    pub fn pane_is_between_horizontal_borders(
        &self,
        id: PaneId,
        top_border: u32,
        bottom_border: u32,
    ) -> (r: bool)
        requires
            self.well_formed_except_cells(),
            self.has_pane(id),
        ensures
            r == {
                let g = self.pane_of(id).geom;
                g.py >= top_border && g.py + g.ph() <= bottom_border
            },
    {
        let i = match self.find_pane(id) {
            Some(i) => i,
            None => {
                proof {
                    assert(false);
                }
                0
            }
        };
        proof {
            self.lemma_idx_unique(i as int, id);
            assert(crate::tab::pane_bounded(self.panes_s()[i as int]));
        }
        let g = self.panes[i].geom;
        g.py >= top_border && g.py + rows_pct(&g) <= bottom_border
    }
}

} // verus!
