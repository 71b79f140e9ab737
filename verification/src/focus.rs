//! Focus movement: sequential focus walks the selectable panes in row-major
//! order with wrap-around; directional focus moves to the most recently used
//! pane directly adjacent on the requested side.
use vstd::prelude::*;

use crate::geom::FULL_PERCENT;
use crate::pane::{Pane, PaneId};
use crate::tab::{Tab, pane_bounded};

verus! {

/// Row-major order on panes: first by the top edge, then by the left edge,
/// then by pane id. On distinct panes of one tab it is total.
pub open spec fn row_major_lt(a: Pane, b: Pane) -> bool {
    ||| a.spec_y() < b.spec_y()
    ||| (a.spec_y() == b.spec_y() && a.spec_x() < b.spec_x())
    ||| (a.spec_y() == b.spec_y() && a.spec_x() == b.spec_x() && a.pid.spec_lt(b.pid))
}

/// Row-major order is transitive.
pub proof fn lemma_row_major_trans(a: Pane, b: Pane, c: Pane)
    requires
        row_major_lt(a, b),
        row_major_lt(b, c),
    ensures
        row_major_lt(a, c),
{
}

/// Two panes with different ids are row-major ordered one way or the other.
pub proof fn lemma_row_major_total(a: Pane, b: Pane)
    requires
        a.pid != b.pid,
    ensures
        row_major_lt(a, b) || row_major_lt(b, a),
        !(row_major_lt(a, b) && row_major_lt(b, a)),
{
    crate::pane::lemma_pane_id_order(a.pid, b.pid);
}

fn row_major_lt_exec(a: &Pane, b: &Pane) -> (r: bool)
    ensures
        r == row_major_lt(*a, *b),
{
    let ay = a.y();
    let by = b.y();
    let ax = a.x();
    let bx = b.x();
    ay < by || (ay == by && ax < bx) || (ay == by && ax == bx && a.pid.lt(b.pid))
}

/// A side focus can move toward.
#[derive(Clone, Copy, PartialEq, Eq, Structural, Debug)]
pub enum FocusDirection {
    Left,
    Right,
    Up,
    Down,
}

/// The pane is a target for a directional focus move from the active pane:
/// selectable, directly adjacent on that side, and overlapping the active
/// pane on the other axis.
pub open spec fn spec_focus_candidate(dir: FocusDirection, p: Pane, active: Pane) -> bool {
    p.selectable && match dir {
        FocusDirection::Left => p.spec_is_directly_left_of(active)
            && p.spec_horizontally_overlaps_with(active),
        FocusDirection::Right => p.spec_is_directly_right_of(active)
            && p.spec_horizontally_overlaps_with(active),
        FocusDirection::Up => p.spec_is_directly_above(active)
            && p.spec_vertically_overlaps_with(active),
        FocusDirection::Down => p.spec_is_directly_below(active)
            && p.spec_vertically_overlaps_with(active),
    }
}

impl Tab {
    /// The directional focus moves are possible at all: some pane can take
    /// focus and the tab is not in fullscreen.
    pub open spec fn focus_move_ready(self) -> bool {
        &&& self.spec_has_selectable_panes()
        &&& !self.fullscreen_is_active
        &&& self.active_terminal matches Some(aid) && self.has_pane(aid)
    }

    /// The winning target of a directional focus move: a candidate, as recent
    /// as every candidate, and of the greatest pane id among equally recent
    /// candidates.
    pub open spec fn spec_focus_winner(self, dir: FocusDirection, active: Pane, j: int) -> bool {
        &&& 0 <= j < self.panes_s().len()
        &&& spec_focus_candidate(dir, self.panes_s()[j], active)
        &&& forall|k: int|
            0 <= k < self.panes_s().len() && spec_focus_candidate(
                dir,
                #[trigger] self.panes_s()[k],
                active,
            ) ==> self.panes_s()[k].active_at < self.panes_s()[j].active_at || (
            self.panes_s()[k].active_at == self.panes_s()[j].active_at && (k == j
                || self.panes_s()[k].pid.spec_lt(self.panes_s()[j].pid)))
    }

    /// The index of the target of a directional focus move, if any.
    fn directional_focus_target(&self, dir: FocusDirection, active: &Pane) -> (r: Option<usize>)
        requires
            self.well_formed_except_cells(),
            active.current_geom().px + active.current_geom().pw() <= FULL_PERCENT,
            active.current_geom().py + active.current_geom().ph() <= FULL_PERCENT,
        ensures
            match r {
                Some(j) => self.spec_focus_winner(dir, *active, j as int),
                None => forall|k: int|
                    0 <= k < self.panes_s().len() ==> !spec_focus_candidate(
                        dir,
                        #[trigger] self.panes_s()[k],
                        *active,
                    ),
            },
    {
        let mut winner: Option<usize> = None;
        let mut i: usize = 0;
        while i < self.panes.len()
            invariant
                self.well_formed_except_cells(),
                active.current_geom().px + active.current_geom().pw() <= FULL_PERCENT,
                active.current_geom().py + active.current_geom().ph() <= FULL_PERCENT,
                i <= self.panes_s().len(),
                match winner {
                    Some(j) => j < i && spec_focus_candidate(dir, self.panes_s()[j as int], *active)
                        && forall|k: int|
                        0 <= k < i && spec_focus_candidate(
                            dir,
                            #[trigger] self.panes_s()[k],
                            *active,
                        ) ==> self.panes_s()[k].active_at < self.panes_s()[j as int].active_at || (
                        self.panes_s()[k].active_at == self.panes_s()[j as int].active_at && (k
                            == j as int || self.panes_s()[k].pid.spec_lt(
                            self.panes_s()[j as int].pid,
                        ))),
                    None => forall|k: int|
                        0 <= k < i ==> !spec_focus_candidate(
                            dir,
                            #[trigger] self.panes_s()[k],
                            *active,
                        ),
                },
            decreases self.panes_s().len() - i,
        {
            let p = self.panes[i];
            proof {
                assert(pane_bounded(self.panes_s()[i as int]));
            }
            let is_candidate = p.selectable && match dir {
                FocusDirection::Left => p.is_directly_left_of(active)
                    && p.horizontally_overlaps_with(active),
                FocusDirection::Right => p.is_directly_right_of(active)
                    && p.horizontally_overlaps_with(active),
                FocusDirection::Up => p.is_directly_above(active) && p.vertically_overlaps_with(
                    active,
                ),
                FocusDirection::Down => p.is_directly_below(active) && p.vertically_overlaps_with(
                    active,
                ),
            };
            if is_candidate {
                let take = match winner {
                    None => true,
                    Some(j) => self.panes[j].active_at <= p.active_at,
                };
                if take {
                    proof {
                        if let Some(j) = winner {
                            crate::pane::lemma_pane_id_order(
                                self.panes_s()[j as int].pid,
                                self.panes_s()[i as int].pid,
                            );
                        }
                    }
                    winner = Some(i);
                }
            }
            i = i + 1;
        }
        winner
    }

    /// Move focus to the adjacent, overlapping, most recently active pane on
    /// the given side; the outgoing and incoming panes repaint. Reports
    /// whether focus moved.
    fn move_focus_directional(&mut self, dir: FocusDirection) -> (moved: bool)
        requires
            old(self).well_formed(),
        ensures
            final(self).well_formed(),
            !old(self).focus_move_ready() ==> *final(self) == *old(self) && !moved,
            old(self).focus_move_ready() ==> {
                let aid = old(self).active_terminal.unwrap();
                let active = old(self).pane_of(aid);
                if exists|k: int|
                    0 <= k < old(self).panes_s().len() && spec_focus_candidate(
                        dir,
                        #[trigger] old(self).panes_s()[k],
                        active,
                    ) {
                    exists|j: int|
                        {
                            &&& #[trigger] old(self).spec_focus_winner(dir, active, j)
                            &&& moved
                            &&& final(self).active_terminal == Some(
                                old(self).panes_s()[j].pid,
                            )
                            &&& final(self).panes_s() == old(self).panes_s().update(
                                old(self).idx_of(aid),
                                Pane { should_render: true, ..old(self).pane_of(aid) },
                            ).update(j, Pane { should_render: true, ..old(self).panes_s()[j] })
                            &&& *final(self) == (Tab {
                                panes: final(self).panes,
                                active_terminal: Some(old(self).panes_s()[j].pid),
                                ..*old(self)
                            })
                        }
                } else {
                    *final(self) == *old(self) && !moved
                }
            },
    {
        if !self.has_selectable_panes() {
            return false;
        }
        if self.fullscreen_is_active {
            return false;
        }
        let aid = match self.active_terminal {
            Some(aid) => aid,
            None => {
                return false;
            }
        };
        let ai = match self.find_pane(aid) {
            Some(i) => i,
            None => {
                return false;
            }
        };
        proof {
            self.lemma_idx_unique(ai as int, aid);
            assert(pane_bounded(self.panes_s()[ai as int]));
        }
        let active = self.panes[ai];
        let target = self.directional_focus_target(dir, &active);
        let ghost a = *self;
        match target {
            Some(j) => {
                let slot = &mut self.panes[ai];
                slot.should_render = true;
                let ghost mid = *self;
                let slot2 = &mut self.panes[j];
                slot2.should_render = true;
                let new_active = self.panes[j].pid;
                self.active_terminal = Some(new_active);
                proof {
                    assert(self.panes_s() == a.panes_s().update(
                        ai as int,
                        Pane { should_render: true, ..a.pane_of(aid) },
                    ).update(j as int, Pane { should_render: true, ..a.panes_s()[j as int] }));
                    assert(Tab::seq_has_id(self.panes_s(), new_active)) by {
                        assert(self.panes_s()[j as int].pid == new_active);
                    }
                    Tab::lemma_wf_same_structure(
                        a,
                        Tab { active_terminal: a.active_terminal, ..*self },
                    );
                    assert(self.well_formed()) by {
                        let b = Tab { active_terminal: a.active_terminal, ..*self };
                        assert((Tab { active_terminal: self.active_terminal, ..b }) == *self);
                    }
                }
                true
            }
            None => {
                proof {
                    assert(forall|k: int|
                        0 <= k < a.panes_s().len() ==> !spec_focus_candidate(
                            dir,
                            #[trigger] a.panes_s()[k],
                            active,
                        ));
                }
                false
            }
        }
    }

    /// Move focus one pane to the left: the adjacent, overlapping, most
    /// recently used pane takes over, and both panes repaint. Reports
    /// whether focus moved.
    pub fn move_focus_left(&mut self) -> (moved: bool)
        requires
            old(self).well_formed(),
        ensures
            final(self).well_formed(),
            !old(self).focus_move_ready() ==> *final(self) == *old(self) && !moved,
            old(self).focus_move_ready() ==> {
                let aid = old(self).active_terminal.unwrap();
                let active = old(self).pane_of(aid);
                if exists|k: int|
                    0 <= k < old(self).panes_s().len() && spec_focus_candidate(
                        FocusDirection::Left,
                        #[trigger] old(self).panes_s()[k],
                        active,
                    ) {
                    exists|j: int|
                        {
                            &&& #[trigger] old(self).spec_focus_winner(
                                FocusDirection::Left,
                                active,
                                j,
                            )
                            &&& moved
                            &&& final(self).active_terminal == Some(old(self).panes_s()[j].pid)
                            &&& final(self).panes_s() == old(self).panes_s().update(
                                old(self).idx_of(aid),
                                Pane { should_render: true, ..old(self).pane_of(aid) },
                            ).update(j, Pane { should_render: true, ..old(self).panes_s()[j] })
                            &&& *final(self) == (Tab {
                                panes: final(self).panes,
                                active_terminal: Some(old(self).panes_s()[j].pid),
                                ..*old(self)
                            })
                        }
                } else {
                    *final(self) == *old(self) && !moved
                }
            },
    {
        self.move_focus_directional(FocusDirection::Left)
    }

    /// Move focus one pane to the right: the adjacent, overlapping, most
    /// recently used pane takes over, and both panes repaint. Reports
    /// whether focus moved.
    pub fn move_focus_right(&mut self) -> (moved: bool)
        requires
            old(self).well_formed(),
        ensures
            final(self).well_formed(),
            !old(self).focus_move_ready() ==> *final(self) == *old(self) && !moved,
            old(self).focus_move_ready() ==> {
                let aid = old(self).active_terminal.unwrap();
                let active = old(self).pane_of(aid);
                if exists|k: int|
                    0 <= k < old(self).panes_s().len() && spec_focus_candidate(
                        FocusDirection::Right,
                        #[trigger] old(self).panes_s()[k],
                        active,
                    ) {
                    exists|j: int|
                        {
                            &&& #[trigger] old(self).spec_focus_winner(
                                FocusDirection::Right,
                                active,
                                j,
                            )
                            &&& moved
                            &&& final(self).active_terminal == Some(old(self).panes_s()[j].pid)
                            &&& final(self).panes_s() == old(self).panes_s().update(
                                old(self).idx_of(aid),
                                Pane { should_render: true, ..old(self).pane_of(aid) },
                            ).update(j, Pane { should_render: true, ..old(self).panes_s()[j] })
                            &&& *final(self) == (Tab {
                                panes: final(self).panes,
                                active_terminal: Some(old(self).panes_s()[j].pid),
                                ..*old(self)
                            })
                        }
                } else {
                    *final(self) == *old(self) && !moved
                }
            },
    {
        self.move_focus_directional(FocusDirection::Right)
    }

    /// Move focus one pane up: the adjacent, overlapping, most recently
    /// used pane takes over, and both panes repaint. Reports whether focus
    /// moved.
    pub fn move_focus_up(&mut self) -> (moved: bool)
        requires
            old(self).well_formed(),
        ensures
            final(self).well_formed(),
            !old(self).focus_move_ready() ==> *final(self) == *old(self) && !moved,
            old(self).focus_move_ready() ==> {
                let aid = old(self).active_terminal.unwrap();
                let active = old(self).pane_of(aid);
                if exists|k: int|
                    0 <= k < old(self).panes_s().len() && spec_focus_candidate(
                        FocusDirection::Up,
                        #[trigger] old(self).panes_s()[k],
                        active,
                    ) {
                    exists|j: int|
                        {
                            &&& #[trigger] old(self).spec_focus_winner(
                                FocusDirection::Up,
                                active,
                                j,
                            )
                            &&& moved
                            &&& final(self).active_terminal == Some(old(self).panes_s()[j].pid)
                            &&& final(self).panes_s() == old(self).panes_s().update(
                                old(self).idx_of(aid),
                                Pane { should_render: true, ..old(self).pane_of(aid) },
                            ).update(j, Pane { should_render: true, ..old(self).panes_s()[j] })
                            &&& *final(self) == (Tab {
                                panes: final(self).panes,
                                active_terminal: Some(old(self).panes_s()[j].pid),
                                ..*old(self)
                            })
                        }
                } else {
                    *final(self) == *old(self) && !moved
                }
            },
    {
        self.move_focus_directional(FocusDirection::Up)
    }

    /// Move focus one pane down: the adjacent, overlapping, most recently
    /// used pane takes over, and both panes repaint. Reports whether focus
    /// moved.
    pub fn move_focus_down(&mut self) -> (moved: bool)
        requires
            old(self).well_formed(),
        ensures
            final(self).well_formed(),
            !old(self).focus_move_ready() ==> *final(self) == *old(self) && !moved,
            old(self).focus_move_ready() ==> {
                let aid = old(self).active_terminal.unwrap();
                let active = old(self).pane_of(aid);
                if exists|k: int|
                    0 <= k < old(self).panes_s().len() && spec_focus_candidate(
                        FocusDirection::Down,
                        #[trigger] old(self).panes_s()[k],
                        active,
                    ) {
                    exists|j: int|
                        {
                            &&& #[trigger] old(self).spec_focus_winner(
                                FocusDirection::Down,
                                active,
                                j,
                            )
                            &&& moved
                            &&& final(self).active_terminal == Some(old(self).panes_s()[j].pid)
                            &&& final(self).panes_s() == old(self).panes_s().update(
                                old(self).idx_of(aid),
                                Pane { should_render: true, ..old(self).pane_of(aid) },
                            ).update(j, Pane { should_render: true, ..old(self).panes_s()[j] })
                            &&& *final(self) == (Tab {
                                panes: final(self).panes,
                                active_terminal: Some(old(self).panes_s()[j].pid),
                                ..*old(self)
                            })
                        }
                } else {
                    *final(self) == *old(self) && !moved
                }
            },
    {
        self.move_focus_directional(FocusDirection::Down)
    }

    /// Sequential focus is ready: there is a selectable active pane to step
    /// from and fullscreen is off.
    pub open spec fn focus_cycle_ready(self) -> bool {
        &&& self.spec_has_selectable_panes()
        &&& !self.fullscreen_is_active
        &&& self.active_terminal matches Some(aid) && self.has_pane(aid) && self.pane_of(
            aid,
        ).selectable
    }

    /// `j` is the row-major successor of the active pane among the selectable
    /// panes: the least selectable pane above it in row-major order, or, when
    /// none is, the least selectable pane of all (the wrap-around).
    pub open spec fn spec_focus_next(self, active: Pane, j: int) -> bool {
        &&& 0 <= j < self.panes_s().len()
        &&& self.panes_s()[j].selectable
        &&& if exists|k: int|
            0 <= k < self.panes_s().len() && (#[trigger] self.panes_s()[k]).selectable
                && row_major_lt(active, self.panes_s()[k]) {
            &&& row_major_lt(active, self.panes_s()[j])
            &&& forall|k: int|
                0 <= k < self.panes_s().len() && (#[trigger] self.panes_s()[k]).selectable
                    && row_major_lt(active, self.panes_s()[k]) ==> !row_major_lt(
                    self.panes_s()[k],
                    self.panes_s()[j],
                )
        } else {
            forall|k: int|
                0 <= k < self.panes_s().len() && (#[trigger] self.panes_s()[k]).selectable
                    ==> !row_major_lt(self.panes_s()[k], self.panes_s()[j])
        }
    }

    /// `j` is the row-major predecessor of the active pane among the
    /// selectable panes, wrapping to the greatest.
    pub open spec fn spec_focus_previous(self, active: Pane, j: int) -> bool {
        &&& 0 <= j < self.panes_s().len()
        &&& self.panes_s()[j].selectable
        &&& if exists|k: int|
            0 <= k < self.panes_s().len() && (#[trigger] self.panes_s()[k]).selectable
                && row_major_lt(self.panes_s()[k], active) {
            &&& row_major_lt(self.panes_s()[j], active)
            &&& forall|k: int|
                0 <= k < self.panes_s().len() && (#[trigger] self.panes_s()[k]).selectable
                    && row_major_lt(self.panes_s()[k], active) ==> !row_major_lt(
                    self.panes_s()[j],
                    self.panes_s()[k],
                )
        } else {
            forall|k: int|
                0 <= k < self.panes_s().len() && (#[trigger] self.panes_s()[k]).selectable
                    ==> !row_major_lt(self.panes_s()[j], self.panes_s()[k])
        }
    }

    /// Focus the next selectable pane in row-major order, wrapping around.
    pub fn focus_next_pane(&mut self)
        requires
            old(self).well_formed(),
        ensures
            final(self).well_formed(),
            !old(self).focus_cycle_ready() ==> *final(self) == *old(self),
            old(self).focus_cycle_ready() ==> exists|j: int|
                {
                    &&& #[trigger] old(self).spec_focus_next(
                        old(self).pane_of(old(self).active_terminal.unwrap()),
                        j,
                    )
                    &&& *final(self) == (Tab {
                        active_terminal: Some(old(self).panes_s()[j].pid),
                        ..*old(self)
                    })
                },
    {
        if !self.has_selectable_panes() {
            return ;
        }
        if self.fullscreen_is_active {
            return ;
        }
        let aid = match self.active_terminal {
            Some(aid) => aid,
            None => {
                return ;
            }
        };
        let ai = match self.find_pane(aid) {
            Some(i) => i,
            None => {
                return ;
            }
        };
        proof {
            self.lemma_idx_unique(ai as int, aid);
        }
        let active = self.panes[ai];
        if !active.selectable {
            return ;
        }
        let mut next: Option<usize> = None;
        let mut first: Option<usize> = None;
        let mut i: usize = 0;
        while i < self.panes.len()
            invariant
                self.well_formed(),
                active == self.pane_of(aid),
                i <= self.panes_s().len(),
                match first {
                    Some(f) => f < i && self.panes_s()[f as int].selectable && forall|k: int|
                        0 <= k < i && (#[trigger] self.panes_s()[k]).selectable ==> !row_major_lt(
                            self.panes_s()[k],
                            self.panes_s()[f as int],
                        ),
                    None => forall|k: int|
                        0 <= k < i ==> !(#[trigger] self.panes_s()[k]).selectable,
                },
                match next {
                    Some(n) => n < i && self.panes_s()[n as int].selectable && row_major_lt(
                        active,
                        self.panes_s()[n as int],
                    ) && forall|k: int|
                        0 <= k < i && (#[trigger] self.panes_s()[k]).selectable && row_major_lt(
                            active,
                            self.panes_s()[k],
                        ) ==> !row_major_lt(self.panes_s()[k], self.panes_s()[n as int]),
                    None => forall|k: int|
                        0 <= k < i ==> !((#[trigger] self.panes_s()[k]).selectable && row_major_lt(
                            active,
                            self.panes_s()[k],
                        )),
                },
            decreases self.panes_s().len() - i,
        {
            let p = self.panes[i];
            if p.selectable {
                let new_first = match first {
                    None => true,
                    Some(f) => row_major_lt_exec(&p, &self.panes[f]),
                };
                if new_first {
                    proof {
                        if let Some(f) = first {
                            assert forall|k: int|
                                0 <= k < i + 1 && (#[trigger] self.panes_s()[k]).selectable implies
                                !row_major_lt(self.panes_s()[k], self.panes_s()[i as int]) by {
                                if k < i && row_major_lt(
                                    self.panes_s()[k],
                                    self.panes_s()[i as int],
                                ) {
                                    lemma_row_major_trans(
                                        self.panes_s()[k],
                                        self.panes_s()[i as int],
                                        self.panes_s()[f as int],
                                    );
                                }
                            }
                        }
                    }
                    first = Some(i);
                }
                if row_major_lt_exec(&active, &p) {
                    let new_next = match next {
                        None => true,
                        Some(n) => row_major_lt_exec(&p, &self.panes[n]),
                    };
                    if new_next {
                        proof {
                            if let Some(n) = next {
                                assert forall|k: int|
                                    0 <= k < i + 1 && (#[trigger] self.panes_s()[k]).selectable
                                        && row_major_lt(active, self.panes_s()[k]) implies
                                    !row_major_lt(self.panes_s()[k], self.panes_s()[i as int]) by {
                                    if k < i && row_major_lt(
                                        self.panes_s()[k],
                                        self.panes_s()[i as int],
                                    ) {
                                        lemma_row_major_trans(
                                            self.panes_s()[k],
                                            self.panes_s()[i as int],
                                            self.panes_s()[n as int],
                                        );
                                    }
                                }
                            }
                        }
                        next = Some(i);
                    }
                }
            }
            i = i + 1;
        }
        let chosen = match next {
            Some(n) => n,
            None => match first {
                Some(f) => f,
                None => {
                    proof {
                        let w = choose|k: int|
                            0 <= k < self.panes_s().len() && (
                            #[trigger] self.panes_s()[k]).selectable;
                        assert(false);
                    }
                    0
                }
            },
        };
        let new_active = self.panes[chosen].pid;
        let ghost a = *self;
        self.active_terminal = Some(new_active);
        proof {
            assert(Tab::seq_has_id(self.panes_s(), new_active)) by {
                assert(self.panes_s()[chosen as int].pid == new_active);
            }
            assert(a.spec_focus_next(active, chosen as int));
        }
    }

    /// Focus the previous selectable pane in row-major order, wrapping
    /// around.
    pub fn focus_previous_pane(&mut self)
        requires
            old(self).well_formed(),
        ensures
            final(self).well_formed(),
            !old(self).focus_cycle_ready() ==> *final(self) == *old(self),
            old(self).focus_cycle_ready() ==> exists|j: int|
                {
                    &&& #[trigger] old(self).spec_focus_previous(
                        old(self).pane_of(old(self).active_terminal.unwrap()),
                        j,
                    )
                    &&& *final(self) == (Tab {
                        active_terminal: Some(old(self).panes_s()[j].pid),
                        ..*old(self)
                    })
                },
    {
        if !self.has_selectable_panes() {
            return ;
        }
        if self.fullscreen_is_active {
            return ;
        }
        let aid = match self.active_terminal {
            Some(aid) => aid,
            None => {
                return ;
            }
        };
        let ai = match self.find_pane(aid) {
            Some(i) => i,
            None => {
                return ;
            }
        };
        proof {
            self.lemma_idx_unique(ai as int, aid);
        }
        let active = self.panes[ai];
        if !active.selectable {
            return ;
        }
        let mut prev: Option<usize> = None;
        let mut last: Option<usize> = None;
        let mut i: usize = 0;
        while i < self.panes.len()
            invariant
                self.well_formed(),
                active == self.pane_of(aid),
                i <= self.panes_s().len(),
                match last {
                    Some(f) => f < i && self.panes_s()[f as int].selectable && forall|k: int|
                        0 <= k < i && (#[trigger] self.panes_s()[k]).selectable ==> !row_major_lt(
                            self.panes_s()[f as int],
                            self.panes_s()[k],
                        ),
                    None => forall|k: int|
                        0 <= k < i ==> !(#[trigger] self.panes_s()[k]).selectable,
                },
                match prev {
                    Some(n) => n < i && self.panes_s()[n as int].selectable && row_major_lt(
                        self.panes_s()[n as int],
                        active,
                    ) && forall|k: int|
                        0 <= k < i && (#[trigger] self.panes_s()[k]).selectable && row_major_lt(
                            self.panes_s()[k],
                            active,
                        ) ==> !row_major_lt(self.panes_s()[n as int], self.panes_s()[k]),
                    None => forall|k: int|
                        0 <= k < i ==> !((#[trigger] self.panes_s()[k]).selectable && row_major_lt(
                            self.panes_s()[k],
                            active,
                        )),
                },
            decreases self.panes_s().len() - i,
        {
            let p = self.panes[i];
            if p.selectable {
                let new_last = match last {
                    None => true,
                    Some(f) => row_major_lt_exec(&self.panes[f], &p),
                };
                if new_last {
                    proof {
                        if let Some(f) = last {
                            assert forall|k: int|
                                0 <= k < i + 1 && (#[trigger] self.panes_s()[k]).selectable implies
                                !row_major_lt(self.panes_s()[i as int], self.panes_s()[k]) by {
                                if k < i && row_major_lt(
                                    self.panes_s()[i as int],
                                    self.panes_s()[k],
                                ) {
                                    lemma_row_major_trans(
                                        self.panes_s()[f as int],
                                        self.panes_s()[i as int],
                                        self.panes_s()[k],
                                    );
                                }
                            }
                        }
                    }
                    last = Some(i);
                }
                if row_major_lt_exec(&p, &active) {
                    let new_prev = match prev {
                        None => true,
                        Some(n) => row_major_lt_exec(&self.panes[n], &p),
                    };
                    if new_prev {
                        proof {
                            if let Some(n) = prev {
                                assert forall|k: int|
                                    0 <= k < i + 1 && (#[trigger] self.panes_s()[k]).selectable
                                        && row_major_lt(self.panes_s()[k], active) implies
                                    !row_major_lt(self.panes_s()[i as int], self.panes_s()[k]) by {
                                    if k < i && row_major_lt(
                                        self.panes_s()[i as int],
                                        self.panes_s()[k],
                                    ) {
                                        lemma_row_major_trans(
                                            self.panes_s()[n as int],
                                            self.panes_s()[i as int],
                                            self.panes_s()[k],
                                        );
                                    }
                                }
                            }
                        }
                        prev = Some(i);
                    }
                }
            }
            i = i + 1;
        }
        let chosen = match prev {
            Some(n) => n,
            None => match last {
                Some(f) => f,
                None => {
                    proof {
                        let w = choose|k: int|
                            0 <= k < self.panes_s().len() && (
                            #[trigger] self.panes_s()[k]).selectable;
                        assert(false);
                    }
                    0
                }
            },
        };
        let new_active = self.panes[chosen].pid;
        let ghost a = *self;
        self.active_terminal = Some(new_active);
        proof {
            assert(Tab::seq_has_id(self.panes_s(), new_active)) by {
                assert(self.panes_s()[chosen as int].pid == new_active);
            }
            assert(a.spec_focus_previous(active, chosen as int));
        }
    }

    /// `j` is the id-order successor of the pane at `ai` among the
    /// selectable panes: the first selectable index after `ai`, or, when none
    /// follows, the first selectable index of all (the wrap-around).
    pub open spec fn spec_id_order_next(self, ai: int, j: int) -> bool {
        &&& 0 <= j < self.panes_s().len()
        &&& self.panes_s()[j].selectable
        &&& if exists|k: int|
            ai < k < self.panes_s().len() && (#[trigger] self.panes_s()[k]).selectable {
            ai < j && forall|k: int| ai < k < j ==> !(#[trigger] self.panes_s()[k]).selectable
        } else {
            forall|k: int| 0 <= k < j ==> !(#[trigger] self.panes_s()[k]).selectable
        }
    }

    /// Focus the next selectable pane in id order, wrapping around.
    pub fn move_focus(&mut self)
        requires
            old(self).well_formed(),
        ensures
            final(self).well_formed(),
            !old(self).focus_cycle_ready() ==> *final(self) == *old(self),
            old(self).focus_cycle_ready() ==> exists|j: int|
                {
                    &&& #[trigger] old(self).spec_id_order_next(
                        old(self).idx_of(old(self).active_terminal.unwrap()),
                        j,
                    )
                    &&& *final(self) == (Tab {
                        active_terminal: Some(old(self).panes_s()[j].pid),
                        ..*old(self)
                    })
                },
    {
        if !self.has_selectable_panes() {
            return ;
        }
        if self.fullscreen_is_active {
            return ;
        }
        let aid = match self.active_terminal {
            Some(aid) => aid,
            None => {
                return ;
            }
        };
        let ai = match self.find_pane(aid) {
            Some(i) => i,
            None => {
                return ;
            }
        };
        proof {
            self.lemma_idx_unique(ai as int, aid);
        }
        if !self.panes[ai].selectable {
            return ;
        }
        // The first selectable pane after the active one in id order, or the
        // first selectable pane of all at wrap-around.
        let mut chosen: Option<usize> = None;
        let n = self.panes.len();
        proof {
            assert(ai < n);
        }
        let mut i: usize = ai + 1;
        while i < self.panes.len() && chosen.is_none()
            invariant
                self.well_formed(),
                ai < i,
                i <= self.panes_s().len(),
                match chosen {
                    Some(c) => ai < c < i && self.panes_s()[c as int].selectable && forall|k: int|
                        ai < k < c ==> !(#[trigger] self.panes_s()[k]).selectable,
                    None => forall|k: int|
                        ai < k < i ==> !(#[trigger] self.panes_s()[k]).selectable,
                },
            decreases self.panes_s().len() - i,
        {
            if self.panes[i].selectable {
                chosen = Some(i);
            }
            i = i + 1;
        }
        let ghost after_exists = exists|k: int|
            ai < k < self.panes_s().len() && (#[trigger] self.panes_s()[k]).selectable;
        proof {
            if chosen is None && after_exists {
                let w = choose|k: int|
                    ai < k < self.panes_s().len() && (#[trigger] self.panes_s()[k]).selectable;
                assert(false);
            }
        }
        let mut j: usize = 0;
        while j < self.panes.len() && chosen.is_none()
            invariant
                self.well_formed(),
                j <= self.panes_s().len(),
                match chosen {
                    Some(c) => c < self.panes_s().len() && self.panes_s()[c as int].selectable && (
                    after_exists ==> ai < c && forall|k: int|
                        ai < k < c ==> !(#[trigger] self.panes_s()[k]).selectable) && (!after_exists
                        ==> forall|k: int|
                        0 <= k < c ==> !(#[trigger] self.panes_s()[k]).selectable),
                    None => !after_exists && forall|k: int|
                        0 <= k < j ==> !(#[trigger] self.panes_s()[k]).selectable,
                },
            decreases self.panes_s().len() - j,
        {
            if self.panes[j].selectable {
                chosen = Some(j);
            }
            j = j + 1;
        }
        match chosen {
            Some(c) => {
                let new_active = self.panes[c].pid;
                let ghost a = *self;
                self.active_terminal = Some(new_active);
                proof {
                    assert(Tab::seq_has_id(self.panes_s(), new_active)) by {
                        assert(self.panes_s()[c as int].pid == new_active);
                    }
                    a.lemma_idx_unique(c as int, new_active);
                    assert(a.spec_id_order_next(ai as int, c as int));
                    assert(a.idx_of(aid) == ai as int);
                }
            }
            None => {
                proof {
                    assert(self.panes_s()[ai as int].selectable);
                }
            }
        }
    }
}

} // verus!
