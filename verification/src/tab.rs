//! The tab: the owner of the panes and the dispatcher of every operation on
//! the partition. The panes are kept in a vector sorted by pane id, which
//! gives the deterministic iteration order the engine relies on.
//!
//! `well_formed` is the tab's data invariant: every public operation requires
//! it and re-establishes it. It carries, among bookkeeping bounds, two of the
//! partition laws: the active pane id always names a pane of the map, and
//! fullscreen is active exactly while exactly one pane carries a geometry
//! override, which then equals the viewport, with every other selectable pane
//! hidden.
use vstd::prelude::*;

use crate::geom::{
    Constraint, Dimension, PaneGeom, Size, Viewport, FULL_PERCENT, MAX_AXIS_CELLS,
    spec_realize_start, spec_realize_len,
};
use crate::pane::{InputMode, ModeInfo, Palette, Pane, PaneId};

verus! {

/// An axis of the display; splits and relayouts name the axis they work on.
#[derive(Clone, Copy, PartialEq, Eq, Structural, Debug)]
pub enum Direction {
    Horizontal,
    Vertical,
}

/// A message the tab asks its collaborators to act on: close a child of the
/// PTY host, or push a new size to a terminal's PTY.
#[derive(PartialEq, Eq, Debug)]
pub enum OutboundMessage {
    PtyClose(PaneId),
    SetTerminalSize(i32, usize, usize),
}

/// What the user interface layer needs to know of a tab to list it. The
/// serialisable twin of this type lives with the interface code, which
/// carries the serde derives the verified crate cannot hold.
pub struct TabData {
    pub position: usize,
    pub name: String,
    pub active: bool,
    pub mode_info: ModeInfo,
    pub colors: Palette,
}

/// The geometry a fullscreen pane is overridden with: the whole viewport.
pub open spec fn spec_fullscreen_geom(vp: Viewport) -> PaneGeom {
    PaneGeom {
        x: vp.x,
        y: vp.y,
        px: 0,
        py: 0,
        cols: Dimension { constraint: Constraint::Percent(FULL_PERCENT), inner: vp.cols },
        rows: Dimension { constraint: Constraint::Percent(FULL_PERCENT), inner: vp.rows },
    }
}

pub fn fullscreen_geom(vp: Viewport) -> (r: PaneGeom)
    ensures
        r == spec_fullscreen_geom(vp),
{
    PaneGeom {
        x: vp.x,
        y: vp.y,
        px: 0,
        py: 0,
        cols: Dimension { constraint: Constraint::Percent(FULL_PERCENT), inner: vp.cols },
        rows: Dimension { constraint: Constraint::Percent(FULL_PERCENT), inner: vp.rows },
    }
}

/// The rectangle's percent coordinates stay inside percent space and its
/// cell coordinates stay far from overflow.
pub open spec fn geom_bounded(g: PaneGeom) -> bool {
    &&& g.px + g.pw() <= FULL_PERCENT
    &&& g.py + g.ph() <= FULL_PERCENT
    &&& g.px <= FULL_PERCENT
    &&& g.py <= FULL_PERCENT
    &&& g.x <= 2 * MAX_AXIS_CELLS
    &&& g.y <= 2 * MAX_AXIS_CELLS
    &&& g.cols.inner <= 2 * MAX_AXIS_CELLS
    &&& g.rows.inner <= 2 * MAX_AXIS_CELLS
}

pub open spec fn pane_bounded(p: Pane) -> bool {
    &&& geom_bounded(p.geom)
    &&& match p.geom_override {
        Some(g) => geom_bounded(g),
        None => true,
    }
}

/// A geometry with both axes percent-sized has its cell rectangle derived
/// from its percent rectangle against the viewport.
pub open spec fn geom_realized(g: PaneGeom, vp: Viewport) -> bool {
    g.is_percent() ==> {
        &&& g.x == spec_realize_start(g.px, vp.x, vp.cols)
        &&& g.cols.inner == spec_realize_len(g.px, g.pw(), vp.x, vp.cols)
        &&& g.y == spec_realize_start(g.py, vp.y, vp.rows)
        &&& g.rows.inner == spec_realize_len(g.py, g.ph(), vp.y, vp.rows)
    }
}

/// The pane's cell geometry is current: the base rectangle is realized
/// against the viewport, and an override, if present, is the viewport itself.
pub open spec fn pane_realized(p: Pane, vp: Viewport) -> bool {
    &&& geom_realized(p.geom, vp)
    &&& match p.geom_override {
        Some(g) => g == spec_fullscreen_geom(vp),
        None => true,
    }
}

/// The tab. Collaborator handles of the surrounding process (the PTY host,
/// the plugin host, the render sink) do not live here: operations that need
/// them return `OutboundMessage`s or strings for the caller to deliver.
pub struct Tab {
    pub index: usize,
    pub position: usize,
    pub name: String,
    pub panes: Vec<Pane>,
    pub panes_to_hide: Vec<PaneId>,
    pub active_terminal: Option<PaneId>,
    pub max_panes: Option<usize>,
    pub viewport: Viewport,
    pub display_area: Size,
    pub fullscreen_is_active: bool,
    pub synchronize_is_active: bool,
    pub should_clear_display_before_rendering: bool,
    pub mode_info: ModeInfo,
    pub colors: Palette,
    pub draw_pane_frames: bool,
}

impl Tab {
    /// The panes as a mathematical sequence.
    pub open spec fn panes_s(self) -> Seq<Pane> {
        self.panes@
    }

    pub open spec fn seq_has_id(s: Seq<Pane>, id: PaneId) -> bool {
        exists|i: int| 0 <= i < s.len() && s[i].pid == id
    }

    pub open spec fn has_pane(self, id: PaneId) -> bool {
        Self::seq_has_id(self.panes_s(), id)
    }

    /// The index of the pane with the given id.
    pub open spec fn idx_of(self, id: PaneId) -> int {
        choose|i: int| 0 <= i < self.panes_s().len() && self.panes_s()[i].pid == id
    }

    /// The pane with the given id.
    pub open spec fn pane_of(self, id: PaneId) -> Pane {
        self.panes_s()[self.idx_of(id)]
    }

    /// Pane ids strictly ascend through the vector; in particular they are
    /// distinct.
    pub open spec fn ids_sorted(self) -> bool {
        forall|i: int, j: int|
            0 <= i < j < self.panes_s().len() ==> (#[trigger] self.panes_s()[i].pid).spec_lt(
                #[trigger] self.panes_s()[j].pid,
            )
    }

    /// The hidden-pane list names only panes of the map, each at most once.
    pub open spec fn hide_list_wf(self) -> bool {
        &&& forall|k: int|
            0 <= k < self.panes_to_hide@.len() ==> self.has_pane(#[trigger] self.panes_to_hide@[k])
        &&& forall|k: int, l: int|
            0 <= k < l < self.panes_to_hide@.len() ==> self.panes_to_hide@[k]
                != self.panes_to_hide@[l]
    }

    pub open spec fn hidden(self, id: PaneId) -> bool {
        self.panes_to_hide@.contains(id)
    }

    /// Fullscreen exclusivity: the fullscreen flag, the unique geometry
    /// override on the active pane, and the hidden set of all other
    /// selectable panes rise and fall together.
    pub open spec fn fullscreen_wf(self) -> bool {
        &&& self.fullscreen_is_active <==> exists|i: int|
            0 <= i < self.panes_s().len() && (#[trigger] self.panes_s()[i].geom_override) is Some
        &&& forall|i: int, j: int|
            0 <= i < self.panes_s().len() && 0 <= j < self.panes_s().len() && (
            #[trigger] self.panes_s()[i].geom_override) is Some && (
            #[trigger] self.panes_s()[j].geom_override) is Some ==> i == j
        &&& self.fullscreen_is_active ==> {
            &&& self.active_terminal is Some
            &&& !self.hidden(self.active_terminal.unwrap())
            &&& forall|i: int|
                0 <= i < self.panes_s().len() && (
                #[trigger] self.panes_s()[i].geom_override) is Some ==> Some(
                    self.panes_s()[i].pid,
                ) == self.active_terminal
            &&& forall|i: int|
                0 <= i < self.panes_s().len() && Some(#[trigger] self.panes_s()[i].pid)
                    != self.active_terminal ==> (self.hidden(self.panes_s()[i].pid)
                    <==> self.panes_s()[i].selectable)
        }
        &&& !self.fullscreen_is_active ==> self.panes_to_hide@.len() == 0
    }

    /// The tab's data invariant, short of the derived cell rectangles: what
    /// still holds midway through an operation that has moved percent
    /// rectangles but not yet laid the cells out anew.
    pub open spec fn well_formed_except_cells(self) -> bool {
        &&& self.ids_sorted()
        &&& match self.active_terminal {
            Some(id) => self.has_pane(id),
            None => true,
        }
        &&& self.hide_list_wf()
        &&& forall|i: int| 0 <= i < self.panes_s().len() ==> pane_bounded(#[trigger] self.panes_s()[i])
        &&& self.fullscreen_wf()
        &&& self.viewport.x + self.viewport.cols <= self.display_area.cols
        &&& self.viewport.y + self.viewport.rows <= self.display_area.rows
        &&& self.display_area.cols <= MAX_AXIS_CELLS
        &&& self.display_area.rows <= MAX_AXIS_CELLS
    }

    /// The tab's data invariant.
    pub open spec fn well_formed(self) -> bool {
        &&& self.well_formed_except_cells()
        &&& forall|i: int|
            0 <= i < self.panes_s().len() ==> pane_realized(#[trigger] self.panes_s()[i], self.viewport)
    }

    /// The index of the pane with the given id, if it is present.
    pub fn find_pane(&self, id: PaneId) -> (r: Option<usize>)
        ensures
            match r {
                Some(i) => i < self.panes_s().len() && self.panes_s()[i as int].pid == id
                    && self.has_pane(id),
                None => !self.has_pane(id),
            },
    {
        let mut i: usize = 0;
        while i < self.panes.len()
            invariant
                i <= self.panes_s().len(),
                forall|k: int| 0 <= k < i ==> self.panes_s()[k].pid != id,
            decreases self.panes_s().len() - i,
        {
            if self.panes[i].pid.eq_id(id) {
                return Some(i);
            }
            i = i + 1;
        }
        None
    }

    /// Under a sorted pane vector the pane found for an id is the pane the
    /// specification names.
    pub proof fn lemma_idx_unique(self, i: int, id: PaneId)
        requires
            self.ids_sorted(),
            0 <= i < self.panes_s().len(),
            self.panes_s()[i].pid == id,
        ensures
            self.idx_of(id) == i,
            self.pane_of(id) == self.panes_s()[i],
            self.has_pane(id),
    {
        assert(Self::seq_has_id(self.panes_s(), id));
        let j = self.idx_of(id);
        if j != i {
            if j < i {
                assert(self.panes_s()[j].pid.spec_lt(self.panes_s()[i].pid));
            } else {
                assert(self.panes_s()[i].pid.spec_lt(self.panes_s()[j].pid));
            }
            assert(false);
        }
    }

    pub fn get_pane_ids(&self) -> (r: Vec<PaneId>)
        ensures
            r@.len() == self.panes_s().len(),
            forall|i: int| 0 <= i < r@.len() ==> r@[i] == self.panes_s()[i].pid,
    {
        let mut ids: Vec<PaneId> = Vec::new();
        let mut i: usize = 0;
        while i < self.panes.len()
            invariant
                i <= self.panes_s().len(),
                ids@.len() == i,
                forall|k: int| 0 <= k < i ==> ids@[k] == self.panes_s()[k].pid,
            decreases self.panes_s().len() - i,
        {
            ids.push(self.panes[i].pid);
            i = i + 1;
        }
        ids
    }

    /// All panes, in id order.
    pub fn get_panes(&self) -> (r: &Vec<Pane>)
        ensures
            r@ == self.panes_s(),
    {
        &self.panes
    }

    /// The ids of the selectable panes, in id order.
    pub fn get_selectable_panes(&self) -> (ids: Vec<PaneId>)
        requires
            self.ids_sorted(),
        ensures
            forall|j: int|
                0 <= j < self.panes_s().len() ==> ((#[trigger] self.panes_s()[j]).selectable
                    <==> ids@.contains(self.panes_s()[j].pid)),
            forall|k: int| 0 <= k < ids@.len() ==> self.has_pane(#[trigger] ids@[k]),
    {
        let mut ids: Vec<PaneId> = Vec::new();
        let ghost mut idxs: Seq<int> = Seq::empty();
        let mut i: usize = 0;
        while i < self.panes.len()
            invariant
                self.ids_sorted(),
                i <= self.panes_s().len(),
                idxs.len() == ids@.len(),
                forall|k: int| 0 <= k < idxs.len() ==> 0 <= #[trigger] idxs[k] < i,
                forall|k: int|
                    0 <= k < idxs.len() ==> ids@[k] == self.panes_s()[#[trigger] idxs[k]].pid
                        && self.panes_s()[idxs[k]].selectable,
                forall|j: int|
                    0 <= j < i && (#[trigger] self.panes_s()[j]).selectable ==> ids@.contains(
                        self.panes_s()[j].pid,
                    ),
            decreases self.panes_s().len() - i,
        {
            let p = self.panes[i];
            if p.selectable {
                let ghost before = ids@;
                ids.push(p.pid);
                proof {
                    idxs = idxs.push(i as int);
                    assert forall|j: int|
                        0 <= j < i + 1 && (#[trigger] self.panes_s()[j]).selectable implies
                        ids@.contains(self.panes_s()[j].pid) by {
                        if j < i {
                            assert(before.contains(self.panes_s()[j].pid));
                            let w = choose|w: int|
                                0 <= w < before.len() && before[w] == self.panes_s()[j].pid;
                            assert(ids@[w] == self.panes_s()[j].pid);
                        } else {
                            assert(ids@[ids@.len() - 1] == self.panes_s()[j].pid);
                        }
                    }
                }
            }
            i = i + 1;
        }
        proof {
            assert forall|j: int|
                0 <= j < self.panes_s().len() && ids@.contains(self.panes_s()[j].pid) implies (
            #[trigger] self.panes_s()[j]).selectable by {
                let k = choose|k: int| 0 <= k < ids@.len() && ids@[k] == self.panes_s()[j].pid;
                let jj = idxs[k];
                if jj != j {
                    if jj < j {
                        assert(self.panes_s()[jj].pid.spec_lt(self.panes_s()[j].pid));
                    } else {
                        assert(self.panes_s()[j].pid.spec_lt(self.panes_s()[jj].pid));
                    }
                    assert(false);
                }
            }
            assert forall|k: int| 0 <= k < ids@.len() implies self.has_pane(#[trigger] ids@[k]) by {
                assert(self.panes_s()[idxs[k]].pid == ids@[k]);
            }
        }
        ids
    }

    pub fn has_panes(&self) -> (r: bool)
        ensures
            r == (self.panes_s().len() > 0),
    {
        self.panes.len() > 0
    }

    pub open spec fn spec_has_selectable_panes(self) -> bool {
        exists|i: int| 0 <= i < self.panes_s().len() && (#[trigger] self.panes_s()[i]).selectable
    }

    pub fn has_selectable_panes(&self) -> (r: bool)
        ensures
            r == self.spec_has_selectable_panes(),
    {
        let mut i: usize = 0;
        while i < self.panes.len()
            invariant
                i <= self.panes_s().len(),
                forall|k: int| 0 <= k < i ==> !(#[trigger] self.panes_s()[k]).selectable,
            decreases self.panes_s().len() - i,
        {
            if self.panes[i].selectable {
                return true;
            }
            i = i + 1;
        }
        false
    }

    pub fn get_active_pane_id(&self) -> (r: Option<PaneId>)
        ensures
            r == self.active_terminal,
    {
        self.active_terminal
    }

    /// The active pane itself, when an active id is set and names a pane.
    pub fn get_active_pane(&self) -> (r: Option<&Pane>)
        requires
            self.well_formed(),
        ensures
            match self.active_terminal {
                Some(id) => r == Some(&self.pane_of(id)),
                None => r is None,
            },
    {
        match self.active_terminal {
            Some(id) => {
                let idx = self.find_pane(id);
                match idx {
                    Some(i) => {
                        proof {
                            self.lemma_idx_unique(i as int, id);
                        }
                        Some(&self.panes[i])
                    }
                    None => None,
                }
            }
            None => None,
        }
    }

    /// The PTY descriptor of the active pane, when it is a terminal.
    pub fn get_active_terminal_id(&self) -> (r: Option<i32>)
        ensures
            r == match self.active_terminal {
                Some(PaneId::Terminal(fd)) => Some(fd),
                _ => None::<i32>,
            },
    {
        if let Some(PaneId::Terminal(pid)) = self.active_terminal {
            Some(pid)
        } else {
            None
        }
    }

    pub fn has_terminal_pid(&self, pid: i32) -> (r: bool)
        ensures
            r == self.has_pane(PaneId::Terminal(pid)),
    {
        match self.find_pane(PaneId::Terminal(pid)) {
            Some(_) => true,
            None => false,
        }
    }

    /// How many terminal panes the tab holds, plus one: the ordinal handed
    /// to the next terminal pane created.
    pub fn get_next_selectable_pane_position(&self) -> (r: usize)
        ensures
            r >= 1,
    {
        let mut count: usize = 0;
        let mut i: usize = 0;
        while i < self.panes.len()
            invariant
                i <= self.panes_s().len(),
                count <= i,
            decreases self.panes_s().len() - i,
        {
            match self.panes[i].pid {
                PaneId::Terminal(_) => {
                    count = count + 1;
                }
                PaneId::Plugin(_) => {}
            }
            i = i + 1;
        }
        if count < usize::MAX {
            count + 1
        } else {
            count
        }
    }

    /// Walking the given ids from the back, the first that names a
    /// selectable pane; the replacement for a closed active pane.
    pub fn next_active_pane(&self, panes: &Vec<PaneId>) -> (r: Option<PaneId>)
        requires
            self.ids_sorted(),
        ensures
            match r {
                Some(id) => self.has_pane(id) && self.pane_of(id).selectable && exists|k: int|
                    0 <= k < panes@.len() && panes@[k] == id && forall|l: int|
                        k < l < panes@.len() ==> !(self.has_pane(#[trigger] panes@[l])
                            && self.pane_of(panes@[l]).selectable),
                None => forall|k: int|
                    0 <= k < panes@.len() ==> !(self.has_pane(#[trigger] panes@[k])
                        && self.pane_of(panes@[k]).selectable),
            },
    {
        let mut i: usize = panes.len();
        while i > 0
            invariant
                i <= panes@.len(),
                self.ids_sorted(),
                forall|l: int|
                    i <= l < panes@.len() ==> !(self.has_pane(#[trigger] panes@[l])
                        && self.pane_of(panes@[l]).selectable),
            decreases i,
        {
            i = i - 1;
            let id = panes[i];
            match self.find_pane(id) {
                Some(j) => {
                    proof {
                        self.lemma_idx_unique(j as int, id);
                    }
                    if self.panes[j].selectable {
                        proof {
                            assert(panes@[i as int] == id);
                        }
                        return Some(id);
                    }
                }
                None => {}
            }
        }
        None
    }

    /// Two pane sequences with the same ids in the same places hold the same
    /// ids.
    pub proof fn lemma_has_pane_pointwise(a: Seq<Pane>, b: Seq<Pane>)
        requires
            a.len() == b.len(),
            forall|k: int| 0 <= k < a.len() ==> (#[trigger] b[k]).pid == a[k].pid,
        ensures
            forall|pid: PaneId| Self::seq_has_id(a, pid) <==> Self::seq_has_id(b, pid),
    {
        assert forall|pid: PaneId| Self::seq_has_id(a, pid) implies Self::seq_has_id(b, pid) by {
            let i = choose|i: int| 0 <= i < a.len() && a[i].pid == pid;
            assert(b[i].pid == pid);
        }
        assert forall|pid: PaneId| Self::seq_has_id(b, pid) implies Self::seq_has_id(a, pid) by {
            let i = choose|i: int| 0 <= i < b.len() && b[i].pid == pid;
            assert(a[i].pid == pid);
        }
    }

    /// Removing one pane of a duplicate-free sequence removes exactly its id.
    pub proof fn lemma_has_pane_remove(a: Seq<Pane>, i: int)
        requires
            0 <= i < a.len(),
            forall|k: int, l: int|
                0 <= k < l < a.len() ==> (#[trigger] a[k]).pid != (#[trigger] a[l]).pid,
        ensures
            !Self::seq_has_id(a.remove(i), a[i].pid),
            forall|pid: PaneId|
                pid != a[i].pid ==> (Self::seq_has_id(a.remove(i), pid) <==> Self::seq_has_id(
                    a,
                    pid,
                )),
    {
        let b = a.remove(i);
        if Self::seq_has_id(b, a[i].pid) {
            let k = choose|k: int| 0 <= k < b.len() && b[k].pid == a[i].pid;
            let k0: int = if k < i {
                k
            } else {
                k + 1
            };
            assert(a[k0].pid == a[i].pid);
            assert(false);
        }
        assert forall|pid: PaneId| pid != a[i].pid && Self::seq_has_id(a, pid) implies
            Self::seq_has_id(b, pid) by {
            let k = choose|k: int| 0 <= k < a.len() && a[k].pid == pid;
            if k < i {
                assert(b[k].pid == pid);
            } else {
                assert(k > i);
                assert(b[k - 1].pid == pid);
            }
        }
        assert forall|pid: PaneId| pid != a[i].pid && Self::seq_has_id(b, pid) implies
            Self::seq_has_id(a, pid) by {
            let k = choose|k: int| 0 <= k < b.len() && b[k].pid == pid;
            let k0: int = if k < i {
                k
            } else {
                k + 1
            };
            assert(a[k0].pid == pid);
        }
    }

    /// Strictly ascending pane ids are pairwise distinct.
    pub proof fn lemma_sorted_distinct(self)
        requires
            self.ids_sorted(),
        ensures
            forall|k: int, l: int|
                0 <= k < l < self.panes_s().len() ==> (#[trigger] self.panes_s()[k]).pid != (
                #[trigger] self.panes_s()[l]).pid,
    {
        assert forall|k: int, l: int|
            0 <= k < l < self.panes_s().len() implies (#[trigger] self.panes_s()[k]).pid != (
        #[trigger] self.panes_s()[l]).pid by {
            assert(self.panes_s()[k].pid.spec_lt(self.panes_s()[l].pid));
        }
    }

    /// Changing only cosmetic pane fields (render flags, frame flags,
    /// offsets, timestamps, colours) cannot break the tab invariant.
    pub proof fn lemma_wf_same_structure(a: Tab, b: Tab)
        requires
            a.well_formed(),
            b.panes_s().len() == a.panes_s().len(),
            forall|k: int|
                0 <= k < a.panes_s().len() ==> {
                    &&& (#[trigger] b.panes_s()[k]).pid == a.panes_s()[k].pid
                    &&& b.panes_s()[k].geom == a.panes_s()[k].geom
                    &&& b.panes_s()[k].geom_override == a.panes_s()[k].geom_override
                    &&& b.panes_s()[k].selectable == a.panes_s()[k].selectable
                },
            b.panes_to_hide == a.panes_to_hide,
            b.active_terminal == a.active_terminal,
            b.fullscreen_is_active == a.fullscreen_is_active,
            b.viewport == a.viewport,
            b.display_area == a.display_area,
        ensures
            b.well_formed(),
    {
        assert forall|id: PaneId| Self::seq_has_id(a.panes_s(), id) implies Self::seq_has_id(
            b.panes_s(),
            id,
        ) by {
            let i = choose|i: int|
                0 <= i < a.panes_s().len() && a.panes_s()[i].pid == id;
            assert(b.panes_s()[i].pid == id);
        }
        assert forall|k: int|
            0 <= k < b.panes_s().len() implies pane_bounded(#[trigger] b.panes_s()[k])
            && pane_realized(b.panes_s()[k], b.viewport) by {
            assert(pane_bounded(a.panes_s()[k]));
            assert(pane_realized(a.panes_s()[k], a.viewport));
        }
        if b.fullscreen_is_active {
            let i = choose|i: int|
                0 <= i < a.panes_s().len() && (#[trigger] a.panes_s()[i].geom_override) is Some;
            assert((b.panes_s()[i].geom_override) is Some);
        }
        if exists|i: int|
            0 <= i < b.panes_s().len() && (#[trigger] b.panes_s()[i].geom_override) is Some {
            let i = choose|i: int|
                0 <= i < b.panes_s().len() && (#[trigger] b.panes_s()[i].geom_override) is Some;
            assert((a.panes_s()[i].geom_override) is Some);
        }
    }

    /// A tab whose panes keep their identities, selectability and override
    /// presence, and whose cells have been laid out anew, is well formed.
    pub proof fn lemma_wf_relaid(a: Tab, b: Tab)
        requires
            a.well_formed_except_cells(),
            b.panes_s().len() == a.panes_s().len(),
            forall|k: int|
                0 <= k < a.panes_s().len() ==> {
                    &&& (#[trigger] b.panes_s()[k]).pid == a.panes_s()[k].pid
                    &&& b.panes_s()[k].selectable == a.panes_s()[k].selectable
                    &&& ((b.panes_s()[k].geom_override) is Some <==> (
                    a.panes_s()[k].geom_override) is Some)
                },
            forall|k: int|
                0 <= k < b.panes_s().len() ==> pane_bounded(#[trigger] b.panes_s()[k])
                    && pane_realized(b.panes_s()[k], b.viewport),
            b.panes_to_hide == a.panes_to_hide,
            b.active_terminal == a.active_terminal,
            b.fullscreen_is_active == a.fullscreen_is_active,
            b.viewport.x + b.viewport.cols <= b.display_area.cols,
            b.viewport.y + b.viewport.rows <= b.display_area.rows,
            b.display_area.cols <= MAX_AXIS_CELLS,
            b.display_area.rows <= MAX_AXIS_CELLS,
        ensures
            b.well_formed(),
    {
        assert forall|id: PaneId| Self::seq_has_id(a.panes_s(), id) implies Self::seq_has_id(
            b.panes_s(),
            id,
        ) by {
            let i = choose|i: int|
                0 <= i < a.panes_s().len() && a.panes_s()[i].pid == id;
            assert(b.panes_s()[i].pid == id);
        }
        if b.fullscreen_is_active {
            let i = choose|i: int|
                0 <= i < a.panes_s().len() && (#[trigger] a.panes_s()[i].geom_override) is Some;
            assert((b.panes_s()[i].geom_override) is Some);
        }
        if exists|i: int|
            0 <= i < b.panes_s().len() && (#[trigger] b.panes_s()[i].geom_override) is Some {
            let i = choose|i: int|
                0 <= i < b.panes_s().len() && (#[trigger] b.panes_s()[i].geom_override) is Some;
            assert((a.panes_s()[i].geom_override) is Some);
        }
    }

    pub fn toggle_fullscreen_is_active(&mut self)
        ensures
            *final(self) == (Tab {
                fullscreen_is_active: !old(self).fullscreen_is_active,
                ..*old(self)
            }),
    {
        self.fullscreen_is_active = !self.fullscreen_is_active;
    }

    pub fn is_sync_panes_active(&self) -> (r: bool)
        ensures
            r == self.synchronize_is_active,
    {
        self.synchronize_is_active
    }

    pub fn toggle_sync_panes_is_active(&mut self)
        ensures
            *final(self) == (Tab {
                synchronize_is_active: !old(self).synchronize_is_active,
                ..*old(self)
            }),
    {
        self.synchronize_is_active = !self.synchronize_is_active;
    }

    /// Every pane is asked to repaint in full on the next render.
    pub fn set_force_render(&mut self)
        ensures
            final(self).panes_s() == old(self).panes_s().map(
                |i: int, p: Pane| Pane { should_render: true, ..p },
            ),
            *final(self) == (Tab { panes: final(self).panes, ..*old(self) }),
            old(self).well_formed() ==> final(self).well_formed(),
    {
        let ghost orig = self.panes@;
        let mut i: usize = 0;
        while i < self.panes.len()
            invariant
                *self == (Tab { panes: self.panes, ..*old(self) }),
                i <= self.panes@.len(),
                self.panes@.len() == orig.len(),
                forall|k: int|
                    i <= k < orig.len() ==> self.panes@[k] == orig[k],
                forall|k: int|
                    0 <= k < i ==> self.panes@[k] == (Pane { should_render: true, ..orig[k] }),
            decreases self.panes@.len() - i,
        {
            let slot = &mut self.panes[i];
            slot.should_render = true;
            i = i + 1;
        }
        proof {
            assert(self.panes@ =~= orig.map(|k: int, p: Pane| Pane { should_render: true, ..p }));
            if old(self).well_formed() {
                Self::lemma_wf_same_structure(*old(self), *self);
            }
        }
    }

    /// The active pane is asked to repaint on the next render.
    pub fn mark_active_pane_for_rerender(&mut self)
        requires
            old(self).well_formed(),
        ensures
            final(self).well_formed(),
            match old(self).active_terminal {
                Some(id) => final(self).panes_s() == old(self).panes_s().update(
                    old(self).idx_of(id),
                    Pane { should_render: true, ..old(self).pane_of(id) },
                ),
                None => final(self).panes_s() == old(self).panes_s(),
            },
            *final(self) == (Tab { panes: final(self).panes, ..*old(self) }),
    {
        let ghost orig = *self;
        match self.active_terminal {
            Some(id) => {
                match self.find_pane(id) {
                    Some(i) => {
                        proof {
                            orig.lemma_idx_unique(i as int, id);
                        }
                        let slot = &mut self.panes[i];
                        slot.should_render = true;
                        proof {
                            Self::lemma_wf_same_structure(orig, *self);
                        }
                    }
                    None => {}
                }
            }
            None => {}
        }
    }
}

} // verus!
