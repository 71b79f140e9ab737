//! Fullscreen: the active pane temporarily takes the whole viewport through a
//! geometry override while every other selectable pane is hidden; leaving
//! fullscreen clears the override and unhides them. The saved base geometry
//! of every pane is untouched in both directions.
use vstd::prelude::*;

use crate::geom::{PaneGeom, Size, FULL_PERCENT};
use crate::pane::{Pane, PaneId};
use crate::tab::{OutboundMessage, Tab, pane_bounded, spec_fullscreen_geom, fullscreen_geom};

verus! {

/// `b` is `a` after entering fullscreen on the active pane `aid`: the flag is
/// up, `aid` carries the viewport as an override, every other selectable pane
/// is hidden, and nothing else of the partition moved.
pub open spec fn enters_fullscreen(a: Tab, b: Tab, aid: PaneId) -> bool {
    &&& b.fullscreen_is_active
    &&& b.active_terminal == a.active_terminal
    &&& b.viewport == a.viewport
    &&& b.display_area == a.display_area
    &&& b.panes_s().len() == a.panes_s().len()
    &&& forall|k: int|
        0 <= k < a.panes_s().len() ==> {
            &&& (#[trigger] b.panes_s()[k]).pid == a.panes_s()[k].pid
            &&& b.panes_s()[k].geom == a.panes_s()[k].geom
            &&& b.panes_s()[k].selectable == a.panes_s()[k].selectable
            &&& b.panes_s()[k].geom_override == if a.panes_s()[k].pid == aid {
                Some(spec_fullscreen_geom(a.viewport))
            } else {
                None::<PaneGeom>
            }
        }
    &&& forall|k: int|
        0 <= k < a.panes_s().len() ==> (b.hidden((#[trigger] a.panes_s()[k]).pid) <==> (
        a.panes_s()[k].selectable && a.panes_s()[k].pid != aid))
}

/// `b` is `a` after leaving fullscreen: the flag is down, no override
/// remains, nothing is hidden, and no base geometry moved.
pub open spec fn exits_fullscreen(a: Tab, b: Tab) -> bool {
    &&& !b.fullscreen_is_active
    &&& b.active_terminal == a.active_terminal
    &&& b.viewport == a.viewport
    &&& b.display_area == a.display_area
    &&& b.panes_to_hide@.len() == 0
    &&& b.panes_s().len() == a.panes_s().len()
    &&& forall|k: int|
        0 <= k < a.panes_s().len() ==> {
            &&& (#[trigger] b.panes_s()[k]).pid == a.panes_s()[k].pid
            &&& b.panes_s()[k].geom == a.panes_s()[k].geom
            &&& b.panes_s()[k].selectable == a.panes_s()[k].selectable
            &&& b.panes_s()[k].geom_override is None
        }
}

impl Tab {
    /// The ids of the selectable panes other than `aid`, in pane order.
    fn selectable_others(&self, aid: PaneId) -> (ids: Vec<PaneId>)
        requires
            self.well_formed_except_cells(),
        ensures
            forall|j: int|
                0 <= j < self.panes_s().len() ==> ((#[trigger] self.panes_s()[j]).selectable
                    && self.panes_s()[j].pid != aid <==> ids@.contains(self.panes_s()[j].pid)),
            forall|k: int| 0 <= k < ids@.len() ==> self.has_pane(#[trigger] ids@[k]),
            forall|k: int, l: int| 0 <= k < l < ids@.len() ==> ids@[k] != ids@[l],
    {
        let mut ids: Vec<PaneId> = Vec::new();
        let ghost mut idxs: Seq<int> = Seq::empty();
        let mut i: usize = 0;
        while i < self.panes.len()
            invariant
                self.well_formed_except_cells(),
                i <= self.panes_s().len(),
                idxs.len() == ids@.len(),
                forall|k: int| 0 <= k < idxs.len() ==> 0 <= #[trigger] idxs[k] < i,
                forall|k: int, l: int| 0 <= k < l < idxs.len() ==> idxs[k] < idxs[l],
                forall|k: int|
                    0 <= k < idxs.len() ==> ids@[k] == self.panes_s()[#[trigger] idxs[k]].pid
                        && self.panes_s()[idxs[k]].selectable && self.panes_s()[idxs[k]].pid != aid,
                forall|j: int|
                    0 <= j < i && (#[trigger] self.panes_s()[j]).selectable && self.panes_s()[j].pid
                        != aid ==> ids@.contains(self.panes_s()[j].pid),
            decreases self.panes_s().len() - i,
        {
            let p = self.panes[i];
            if p.selectable && !p.pid.eq_id(aid) {
                let ghost before = ids@;
                ids.push(p.pid);
                proof {
                    idxs = idxs.push(i as int);
                    assert forall|j: int|
                        0 <= j < i + 1 && (#[trigger] self.panes_s()[j]).selectable
                            && self.panes_s()[j].pid != aid implies ids@.contains(
                        self.panes_s()[j].pid,
                    ) by {
                        if j < i {
                            assert(before.contains(self.panes_s()[j].pid));
                            let w = choose|w: int|
                                0 <= w < before.len() && before[w] == self.panes_s()[j].pid;
                            assert(ids@[w] == self.panes_s()[j].pid);
                        } else {
                            assert(ids@[ids@.len() - 1] == self.panes_s()[j].pid);
                        }
                    }
                }
            }
            i = i + 1;
        }
        proof {
            assert forall|j: int|
                0 <= j < self.panes_s().len() && ids@.contains(self.panes_s()[j].pid) implies (
            #[trigger] self.panes_s()[j]).selectable && self.panes_s()[j].pid != aid by {
                let k = choose|k: int| 0 <= k < ids@.len() && ids@[k] == self.panes_s()[j].pid;
                let jj = idxs[k];
                if jj != j {
                    if jj < j {
                        assert(self.panes_s()[jj].pid.spec_lt(self.panes_s()[j].pid));
                    } else {
                        assert(self.panes_s()[j].pid.spec_lt(self.panes_s()[jj].pid));
                    }
                    assert(false);
                }
            }
            assert forall|k: int| 0 <= k < ids@.len() implies self.has_pane(#[trigger] ids@[k]) by {
                self.lemma_idx_unique(idxs[k], ids@[k]);
            }
            assert forall|k: int, l: int| 0 <= k < l < ids@.len() implies ids@[k] != ids@[l] by {
                assert(self.panes_s()[idxs[k]].pid.spec_lt(self.panes_s()[idxs[l]].pid));
            }
        }
        ids
    }

    /// Toggle fullscreen for the active pane. Entering with no other
    /// selectable pane, or with no active pane, changes nothing. The messages
    /// carry the new terminal sizes of the relaid panes.
    ///
    /// Entering hides every other selectable pane. In this model that is the
    /// set of selectable panes inside the viewport: the viewport is the
    /// rectangle available to selectable panes, and panes outside it are the
    /// unselectable bars.
    #[verifier::rlimit(80)]
    pub fn toggle_active_pane_fullscreen(&mut self) -> (msgs: Vec<OutboundMessage>)
        requires
            old(self).well_formed(),
        ensures
            final(self).well_formed(),
            match old(self).active_terminal {
                None => *final(self) == *old(self) && msgs@.len() == 0,
                Some(aid) => {
                    if old(self).fullscreen_is_active {
                        exits_fullscreen(*old(self), *final(self))
                    } else if exists|k: int|
                        0 <= k < old(self).panes_s().len() && (
                        #[trigger] old(self).panes_s()[k]).selectable && old(self).panes_s()[k].pid
                            != aid {
                        enters_fullscreen(*old(self), *final(self), aid)
                    } else {
                        *final(self) == *old(self) && msgs@.len() == 0
                    }
                },
            },
    {
        let aid = match self.active_terminal {
            Some(aid) => aid,
            None => {
                return Vec::new();
            }
        };
        let ghost a = *self;
        if self.fullscreen_is_active {
            // Leaving: unhide and repaint everything, drop the override.
            let ghost orig = self.panes@;
            let mut i: usize = 0;
            while i < self.panes.len()
                invariant
                    a.well_formed(),
                    a == *old(self),
                    orig == a.panes@,
                    *self == (Tab { panes: self.panes, ..a }),
                    i <= self.panes@.len(),
                    self.panes@.len() == orig.len(),
                    forall|k: int| i <= k < orig.len() ==> self.panes@[k] == orig[k],
                    forall|k: int|
                        0 <= k < i ==> self.panes@[k] == (Pane {
                            geom_override: None,
                            should_render: true,
                            ..orig[k]
                        }),
                decreases self.panes@.len() - i,
            {
                proof {
                    assert(pane_bounded(a.panes_s()[i as int]));
                }
                let p = self.panes[i];
                let np = Pane { geom_override: None, should_render: true, ..p };
                let slot = &mut self.panes[i];
                *slot = np;
                i = i + 1;
            }
            self.panes_to_hide = Vec::new();
            self.fullscreen_is_active = false;
            proof {
                assert forall|id: PaneId| Tab::seq_has_id(a.panes_s(), id) implies Tab::seq_has_id(
                    self.panes_s(),
                    id,
                ) by {
                    let w = choose|w: int|
                        0 <= w < a.panes_s().len() && a.panes_s()[w].pid == id;
                    assert(self.panes_s()[w].pid == id);
                }
                assert(self.well_formed_except_cells());
            }
            let display = self.display_area;
            let msgs = self.resize_whole_tab(display);
            proof {
                assert forall|k: int|
                    0 <= k < a.panes_s().len() implies (#[trigger] self.panes_s()[k]).geom
                        == a.panes_s()[k].geom by {
                    assert(crate::tab::pane_realized(a.panes_s()[k], a.viewport));
                    Tab::lemma_realize_idempotent(a.panes_s()[k].geom, a.viewport);
                }
                assert(exits_fullscreen(a, *self));
            }
            msgs
        } else {
            let to_hide = self.selectable_others(aid);
            if to_hide.len() == 0 {
                proof {
                    if exists|k: int|
                        0 <= k < a.panes_s().len() && (#[trigger] a.panes_s()[k]).selectable
                            && a.panes_s()[k].pid != aid {
                        let k = choose|k: int|
                            0 <= k < a.panes_s().len() && (#[trigger] a.panes_s()[k]).selectable
                                && a.panes_s()[k].pid != aid;
                        assert(to_hide@.contains(a.panes_s()[k].pid));
                        assert(false);
                    }
                }
                return Vec::new();
            }
            proof {
                let pid0 = to_hide@[0];
                assert(a.has_pane(pid0));
                let j = choose|j: int|
                    0 <= j < a.panes_s().len() && a.panes_s()[j].pid == pid0;
                assert(to_hide@.contains(a.panes_s()[j].pid));
                assert(a.panes_s()[j].selectable && a.panes_s()[j].pid != aid);
            }
            // Entering: hide the others and give the active pane the viewport.
            let i = match self.find_pane(aid) {
                Some(i) => i,
                None => {
                    proof {
                        assert(false);
                    }
                    0
                }
            };
            proof {
                self.lemma_idx_unique(i as int, aid);
            }
            let vp = self.viewport;
            let over = fullscreen_geom(vp);
            let p = self.panes[i];
            let np = Pane { geom_override: Some(over), should_render: true, ..p };
            let slot = &mut self.panes[i];
            *slot = np;
            self.panes_to_hide = to_hide;
            self.fullscreen_is_active = true;
            proof {
                assert forall|id: PaneId| Tab::seq_has_id(a.panes_s(), id) implies Tab::seq_has_id(
                    self.panes_s(),
                    id,
                ) by {
                    let w = choose|w: int|
                        0 <= w < a.panes_s().len() && a.panes_s()[w].pid == id;
                    assert(self.panes_s()[w].pid == id);
                }
                assert forall|k: int|
                    0 <= k < self.panes_s().len() implies pane_bounded(
                    #[trigger] self.panes_s()[k],
                ) by {
                    assert(pane_bounded(a.panes_s()[k]));
                }
                assert forall|k: int|
                    0 <= k < self.panes_s().len() && (#[trigger] self.panes_s()[k].geom_override)
                        is Some implies k == i as int by {
                    if k != i as int {
                        assert(a.panes_s()[k].geom_override is None);
                    }
                }
                assert(self.well_formed_except_cells());
            }
            let display = self.display_area;
            let msgs = self.resize_whole_tab(display);
            proof {
                assert forall|k: int|
                    0 <= k < a.panes_s().len() implies (#[trigger] self.panes_s()[k]).geom
                        == a.panes_s()[k].geom && self.panes_s()[k].geom_override == if a.panes_s()[k].pid
                        == aid {
                        Some(spec_fullscreen_geom(a.viewport))
                    } else {
                        None::<PaneGeom>
                    } by {
                    assert(crate::tab::pane_realized(a.panes_s()[k], a.viewport));
                    Tab::lemma_realize_idempotent(a.panes_s()[k].geom, a.viewport);
                    if a.panes_s()[k].pid == aid {
                        a.lemma_idx_unique(k, aid);
                        assert(k == i as int);
                    }
                }
                assert(enters_fullscreen(a, *self, aid));
            }
            msgs
        }
    }
}

} // verus!
