//! The tab's routing decisions for inbound events: where PTY bytes go, where
//! user input is written, which pane a mouse event hits, and how scroll
//! requests become pane and line counts. The byte streams themselves
//! are handled by the terminal emulator and the PTY host outside the engine.
use vstd::prelude::*;

use crate::geom::{Constraint, PaneGeom, Position, MAX_AXIS_CELLS, FULL_PERCENT};
use crate::pane::{Pane, PaneId};
use crate::tab::{OutboundMessage, Tab, pane_bounded};

verus! {

/// Where a write of user input must go: a terminal's PTY, or a plugin, as
/// key events.
#[derive(Clone, Copy, PartialEq, Eq, Structural, Debug)]
pub enum WriteDestination {
    Tty(i32),
    PluginKeys(u32),
}

impl Tab {
    /// Bytes from the PTY with this descriptor have a pane to go to. Bytes
    /// for an unknown descriptor are dropped: the pane may not exist yet.
    pub fn handle_pty_bytes(&self, pid: i32) -> (r: bool)
        ensures
            r == self.has_pane(PaneId::Terminal(pid)),
    {
        self.has_terminal_pid(pid)
    }

    /// Where a write to the given pane goes.
    pub fn write_to_pane_id(&self, pane_id: PaneId) -> (r: Option<WriteDestination>)
        ensures
            r == if self.has_pane(pane_id) {
                match pane_id {
                    PaneId::Terminal(fd) => Some(WriteDestination::Tty(fd)),
                    PaneId::Plugin(pid) => Some(WriteDestination::PluginKeys(pid)),
                }
            } else {
                None::<WriteDestination>
            },
    {
        match self.find_pane(pane_id) {
            Some(_) => match pane_id {
                PaneId::Terminal(fd) => Some(WriteDestination::Tty(fd)),
                PaneId::Plugin(pid) => Some(WriteDestination::PluginKeys(pid)),
            },
            None => None,
        }
    }

    /// Where a write to the active pane goes; nowhere without an active pane.
    pub fn write_to_active_terminal(&self) -> (r: Option<WriteDestination>)
        ensures
            r == match self.active_terminal {
                Some(aid) => if self.has_pane(aid) {
                    match aid {
                        PaneId::Terminal(fd) => Some(WriteDestination::Tty(fd)),
                        PaneId::Plugin(pid) => Some(WriteDestination::PluginKeys(pid)),
                    }
                } else {
                    None::<WriteDestination>
                },
                None => None::<WriteDestination>,
            },
    {
        match self.active_terminal {
            Some(aid) => self.write_to_pane_id(aid),
            None => None,
        }
    }

    /// Where synchronized input goes: to every pane of the tab, in order.
    pub fn write_to_terminals_on_current_tab(&self) -> (r: Vec<WriteDestination>)
        ensures
            r@.len() == self.panes_s().len(),
            forall|k: int|
                0 <= k < r@.len() ==> r@[k] == match self.panes_s()[k].pid {
                    PaneId::Terminal(fd) => WriteDestination::Tty(fd),
                    PaneId::Plugin(pid) => WriteDestination::PluginKeys(pid),
                },
    {
        let mut out: Vec<WriteDestination> = Vec::new();
        let mut i: usize = 0;
        while i < self.panes.len()
            invariant
                i <= self.panes_s().len(),
                out@.len() == i,
                forall|k: int|
                    0 <= k < i ==> out@[k] == match self.panes_s()[k].pid {
                        PaneId::Terminal(fd) => WriteDestination::Tty(fd),
                        PaneId::Plugin(pid) => WriteDestination::PluginKeys(pid),
                    },
            decreases self.panes_s().len() - i,
        {
            let d = match self.panes[i].pid {
                PaneId::Terminal(fd) => WriteDestination::Tty(fd),
                PaneId::Plugin(pid) => WriteDestination::PluginKeys(pid),
            };
            out.push(d);
            i = i + 1;
        }
        out
    }

    /// The active pane's cursor, carried from pane content coordinates into
    /// screen coordinates; nothing without an active pane or a cursor.
    pub fn get_active_terminal_cursor_position(
        &self,
        cursor_in_pane: Option<(usize, usize)>,
    ) -> (r: Option<(usize, usize)>)
        requires
            self.well_formed(),
            match cursor_in_pane {
                Some((cx, cy)) => cx <= MAX_AXIS_CELLS && cy <= MAX_AXIS_CELLS,
                None => true,
            },
        ensures
            r == match (self.active_terminal, cursor_in_pane) {
                (Some(aid), Some((cx, cy))) => if self.has_pane(aid) {
                    Some(
                        (
                            (self.pane_of(aid).spec_x() + cx) as usize,
                            (self.pane_of(aid).spec_y() + cy) as usize,
                        ),
                    )
                } else {
                    None::<(usize, usize)>
                },
                _ => None::<(usize, usize)>,
            },
    {
        let aid = match self.active_terminal {
            Some(aid) => aid,
            None => {
                return None;
            }
        };
        let (cx, cy) = match cursor_in_pane {
            Some(c) => c,
            None => {
                return None;
            }
        };
        let i = match self.find_pane(aid) {
            Some(i) => i,
            None => {
                return None;
            }
        };
        proof {
            self.lemma_idx_unique(i as int, aid);
            assert(pane_bounded(self.panes_s()[i as int]));
        }
        let x = self.panes[i].x();
        let y = self.panes[i].y();
        Some((x + cx, y + cy))
    }

    /// The first selectable pane from index `i` on whose current rectangle
    /// holds the position.
    pub open spec fn spec_first_pane_at(s: Seq<Pane>, point: Position, i: int) -> Option<PaneId>
        decreases s.len() - i,
    {
        if i < 0 || i >= s.len() {
            None
        } else if s[i].selectable && s[i].spec_contains(point) {
            Some(s[i].pid)
        } else {
            Self::spec_first_pane_at(s, point, i + 1)
        }
    }

    /// The pane under a screen position: the active pane while fullscreen is
    /// on, else the first selectable pane in id order whose current rectangle
    /// holds the position. Boundary cells belong to no pane.
    pub open spec fn spec_pane_id_at(self, point: Position) -> Option<PaneId> {
        if self.fullscreen_is_active {
            self.active_terminal
        } else {
            Self::spec_first_pane_at(self.panes_s(), point, 0)
        }
    }

    /// The pane under the given screen position.
    pub fn get_pane_id_at(&self, point: &Position) -> (r: Option<PaneId>)
        requires
            self.well_formed(),
        ensures
            r == self.spec_pane_id_at(*point),
            match r {
                Some(id) => self.has_pane(id),
                None => forall|k: int|
                    0 <= k < self.panes_s().len() ==> !((#[trigger] self.panes_s()[k]).selectable
                        && self.panes_s()[k].spec_contains(*point)) || self.fullscreen_is_active,
            },
    {
        if self.fullscreen_is_active {
            return self.get_active_pane_id();
        }
        let mut i: usize = 0;
        while i < self.panes.len()
            invariant
                self.well_formed(),
                !self.fullscreen_is_active,
                i <= self.panes_s().len(),
                Self::spec_first_pane_at(self.panes_s(), *point, 0) == Self::spec_first_pane_at(
                    self.panes_s(),
                    *point,
                    i as int,
                ),
                forall|k: int|
                    0 <= k < i ==> !((#[trigger] self.panes_s()[k]).selectable
                        && self.panes_s()[k].spec_contains(*point)),
            decreases self.panes_s().len() - i,
        {
            let p = self.panes[i];
            proof {
                assert(pane_bounded(self.panes_s()[i as int]));
            }
            if p.selectable && p.contains(point) {
                proof {
                    self.lemma_idx_unique(i as int, p.pid);
                }
                return Some(p.pid);
            }
            i = i + 1;
        }
        None
    }

    /// The pane under the given screen position, itself.
    pub fn get_pane_at(&self, point: &Position) -> (r: Option<&Pane>)
        requires
            self.well_formed(),
        ensures
            match r {
                Some(p) => self.spec_pane_id_at(*point) == Some(p.pid) && self.has_pane(p.pid)
                    && *p == self.pane_of(p.pid),
                None => self.spec_pane_id_at(*point) is None,
            },
    {
        let id = match self.get_pane_id_at(point) {
            Some(id) => id,
            None => {
                return None;
            }
        };
        match self.find_pane(id) {
            Some(i) => {
                proof {
                    self.lemma_idx_unique(i as int, id);
                }
                Some(&self.panes[i])
            }
            None => None,
        }
    }

    /// Scroll the active terminal by one line: the descriptor to scroll.
    pub fn scroll_active_terminal_up(&self) -> (r: Option<i32>)
        ensures
            r == match self.active_terminal {
                Some(PaneId::Terminal(fd)) => Some(fd),
                _ => None::<i32>,
            },
    {
        self.get_active_terminal_id()
    }

    /// Scroll the active terminal down by one line: the descriptor to scroll.
    pub fn scroll_active_terminal_down(&self) -> (r: Option<i32>)
        ensures
            r == match self.active_terminal {
                Some(PaneId::Terminal(fd)) => Some(fd),
                _ => None::<i32>,
            },
    {
        self.get_active_terminal_id()
    }

    /// Scroll the active terminal up by one page: the descriptor and the
    /// line count, one less than the pane's height.
    pub fn scroll_active_terminal_up_page(&self) -> (r: Option<(i32, usize)>)
        requires
            self.well_formed(),
        ensures
            r == match self.active_terminal {
                Some(PaneId::Terminal(fd)) => if self.has_pane(PaneId::Terminal(fd)) {
                    Some(
                        (
                            fd,
                            (if self.pane_of(PaneId::Terminal(fd)).spec_rows() >= 1 {
                                self.pane_of(PaneId::Terminal(fd)).spec_rows() - 1
                            } else {
                                0int
                            }) as usize,
                        ),
                    )
                } else {
                    None::<(i32, usize)>
                },
                _ => None::<(i32, usize)>,
            },
    {
        let fd = match self.get_active_terminal_id() {
            Some(fd) => fd,
            None => {
                return None;
            }
        };
        let i = match self.find_pane(PaneId::Terminal(fd)) {
            Some(i) => i,
            None => {
                return None;
            }
        };
        proof {
            self.lemma_idx_unique(i as int, PaneId::Terminal(fd));
        }
        let rows = self.panes[i].rows();
        let lines: usize = if rows >= 1 {
            rows - 1
        } else {
            0
        };
        Some((fd, lines))
    }

    /// Scroll the active terminal down by one page.
    pub fn scroll_active_terminal_down_page(&self) -> (r: Option<(i32, usize)>)
        requires
            self.well_formed(),
        ensures
            r == match self.active_terminal {
                Some(PaneId::Terminal(fd)) => if self.has_pane(PaneId::Terminal(fd)) {
                    Some(
                        (
                            fd,
                            (if self.pane_of(PaneId::Terminal(fd)).spec_rows() >= 1 {
                                self.pane_of(PaneId::Terminal(fd)).spec_rows() - 1
                            } else {
                                0int
                            }) as usize,
                        ),
                    )
                } else {
                    None::<(i32, usize)>
                },
                _ => None::<(i32, usize)>,
            },
    {
        self.scroll_active_terminal_up_page()
    }

    /// Scroll the active terminal to the bottom: the descriptor whose
    /// scrollback is to be cleared.
    pub fn scroll_active_terminal_to_bottom(&self) -> (r: Option<i32>)
        ensures
            r == match self.active_terminal {
                Some(PaneId::Terminal(fd)) => Some(fd),
                _ => None::<i32>,
            },
    {
        self.get_active_terminal_id()
    }

    /// Leave the active terminal's scrollback: the descriptor to clear.
    pub fn clear_active_terminal_scroll(&self) -> (r: Option<i32>)
        ensures
            r == match self.active_terminal {
                Some(PaneId::Terminal(fd)) => Some(fd),
                _ => None::<i32>,
            },
    {
        self.get_active_terminal_id()
    }

    /// Scroll the pane under the point up by the given lines: the pane to
    /// scroll, when one is there.
    pub fn scroll_terminal_up(&self, point: &Position, lines: usize) -> (r: Option<(
        PaneId,
        usize,
    )>)
        requires
            self.well_formed(),
        ensures
            r == match self.spec_pane_id_at(*point) {
                Some(id) => Some((id, lines)),
                None => None::<(PaneId, usize)>,
            },
    {
        match self.get_pane_id_at(point) {
            Some(id) => Some((id, lines)),
            None => None,
        }
    }

    /// Scroll the pane under the point down by the given lines.
    pub fn scroll_terminal_down(&self, point: &Position, lines: usize) -> (r: Option<(
        PaneId,
        usize,
    )>)
        requires
            self.well_formed(),
        ensures
            r == match self.spec_pane_id_at(*point) {
                Some(id) => Some((id, lines)),
                None => None::<(PaneId, usize)>,
            },
    {
        match self.get_pane_id_at(point) {
            Some(id) => Some((id, lines)),
            None => None,
        }
    }

    /// Focus the pane under the point, when one is there; during fullscreen,
    /// or when the point falls on a boundary cell, focus stays where it was.
    pub fn focus_pane_at(&mut self, point: &Position)
        requires
            old(self).well_formed(),
        ensures
            final(self).well_formed(),
            *final(self) == (Tab { active_terminal: final(self).active_terminal, ..*old(self) }),
            final(self).active_terminal == if old(self).fullscreen_is_active {
                old(self).active_terminal
            } else {
                match old(self).spec_pane_id_at(*point) {
                    Some(id) => Some(id),
                    None => old(self).active_terminal,
                }
            },
    {
        let hit = self.get_pane_id_at(point);
        match hit {
            Some(id) => {
                if self.fullscreen_is_active {
                } else {
                    self.active_terminal = Some(id);
                }
            }
            None => {}
        }
    }

    /// A left click: focus the pane under the position and report where the
    /// selection starts, in that pane's content coordinates.
    pub fn handle_left_click(&mut self, position: &Position) -> (r: Option<(PaneId, Position)>)
        requires
            old(self).well_formed(),
        ensures
            final(self).well_formed(),
            *final(self) == (Tab { active_terminal: final(self).active_terminal, ..*old(self) }),
            final(self).active_terminal == if old(self).fullscreen_is_active {
                old(self).active_terminal
            } else {
                match old(self).spec_pane_id_at(*position) {
                    Some(id) => Some(id),
                    None => old(self).active_terminal,
                }
            },
            r == match old(self).spec_pane_id_at(*position) {
                Some(id) => Some(
                    (id, old(self).pane_of(id).spec_relative_position(*position)),
                ),
                None => None::<(PaneId, Position)>,
            },
    {
        self.focus_pane_at(position);
        let hit = self.get_pane_id_at(position);
        match hit {
            Some(id) => {
                let i = match self.find_pane(id) {
                    Some(i) => i,
                    None => {
                        proof {
                            assert(false);
                        }
                        return None;
                    }
                };
                proof {
                    self.lemma_idx_unique(i as int, id);
                    assert(pane_bounded(self.panes_s()[i as int]));
                }
                let rel = self.panes[i].relative_position(position);
                Some((id, rel))
            }
            None => None,
        }
    }

    /// How a mouse release ends the selection: on the active pane without a
    /// position when the release fell outside it, or at the release position
    /// in the active pane's content coordinates. Nothing without an active
    /// pane.
    pub fn handle_mouse_release(&mut self, position: &Position) -> (r: Option<(
        PaneId,
        Option<Position>,
    )>)
        requires
            old(self).well_formed(),
        ensures
            final(self).well_formed(),
            *final(self) == *old(self),
            r == match old(self).active_terminal {
                Some(aid) => if old(self).spec_pane_id_at(*position) == Some(aid) {
                    Some(
                        (aid, Some(old(self).pane_of(aid).spec_relative_position(*position))),
                    )
                } else {
                    Some((aid, None::<Position>))
                },
                None => None::<(PaneId, Option<Position>)>,
            },
    {
        let aid = match self.active_terminal {
            Some(aid) => aid,
            None => {
                return None;
            }
        };
        let at_position = self.get_pane_id_at(position);
        let i = match self.find_pane(aid) {
            Some(i) => i,
            None => {
                return None;
            }
        };
        proof {
            self.lemma_idx_unique(i as int, aid);
            assert(pane_bounded(self.panes_s()[i as int]));
        }
        proof {
            self.lemma_idx_unique(i as int, aid);
        }
        let same = match at_position {
            Some(id) => id.eq_id(aid),
            None => false,
        };
        if same {
            let rel = self.panes[i].relative_position(position);
            Some((aid, Some(rel)))
        } else {
            Some((aid, None))
        }
    }

    /// A drag: where the selection of the active pane now ends, in its
    /// content coordinates. Nothing without an active pane.
    pub fn handle_mouse_hold(&mut self, position_on_screen: &Position) -> (r: Option<(
        PaneId,
        Position,
    )>)
        requires
            old(self).well_formed(),
        ensures
            final(self).well_formed(),
            *final(self) == *old(self),
            r == match old(self).active_terminal {
                Some(aid) => Some(
                    (aid, old(self).pane_of(aid).spec_relative_position(*position_on_screen)),
                ),
                None => None::<(PaneId, Position)>,
            },
    {
        let aid = match self.active_terminal {
            Some(aid) => aid,
            None => {
                return None;
            }
        };
        let i = match self.find_pane(aid) {
            Some(i) => i,
            None => {
                return None;
            }
        };
        proof {
            self.lemma_idx_unique(i as int, aid);
            assert(pane_bounded(self.panes_s()[i as int]));
        }
        let rel = self.panes[i].relative_position(position_on_screen);
        Some((aid, rel))
    }

    /// Make a pane selectable or not; every other pane's selectability and
    /// every rectangle stand. Deselecting the active pane hands focus to the
    /// map's last selectable pane. A no-op while fullscreen is on, whose
    /// hidden set is tied to selectability, and for an unknown pane.
    pub fn set_pane_selectable(&mut self, id: PaneId, selectable: bool) -> (msgs: Vec<
        OutboundMessage,
    >)
        requires
            old(self).well_formed(),
        ensures
            final(self).well_formed(),
            old(self).fullscreen_is_active ==> *final(self) == *old(self),
            (!old(self).fullscreen_is_active && !old(self).has_pane(id)) ==> *final(self) == *old(
                self,
            ),
            (!old(self).fullscreen_is_active && old(self).has_pane(id)) ==> {
                &&& final(self).pane_of(id).selectable == selectable
                &&& final(self).panes_s().len() == old(self).panes_s().len()
                &&& forall|k: int|
                    0 <= k < old(self).panes_s().len() ==> {
                        &&& (#[trigger] final(self).panes_s()[k]).pid == old(self).panes_s()[k].pid
                        &&& final(self).panes_s()[k].geom == old(self).panes_s()[k].geom
                        &&& final(self).panes_s()[k].geom_override == old(
                            self,
                        ).panes_s()[k].geom_override
                        &&& final(self).panes_s()[k].selectable == (if old(self).panes_s()[k].pid
                            == id {
                            selectable
                        } else {
                            old(self).panes_s()[k].selectable
                        })
                    }
                &&& (!(old(self).active_terminal == Some(id) && !selectable)
                    ==> final(self).active_terminal == old(self).active_terminal)
                &&& ((old(self).active_terminal == Some(id) && !selectable)
                    ==> (match final(self).active_terminal {
                    Some(nid) => final(self).has_pane(nid) && final(self).pane_of(nid).selectable
                        && forall|l: int|
                            final(self).idx_of(nid) < l < final(self).panes_s().len() ==> !(
                            #[trigger] final(self).panes_s()[l]).selectable,
                    None => forall|k: int|
                        0 <= k < final(self).panes_s().len() ==> !(#[trigger] final(self).panes_s()[k]).selectable,
                }))
            },
    {
        if self.fullscreen_is_active {
            return Vec::new();
        }
        let ghost a = *self;
        let i = match self.find_pane(id) {
            Some(i) => i,
            None => {
                return Vec::new();
            }
        };
        proof {
            self.lemma_idx_unique(i as int, id);
        }
        let slot = &mut self.panes[i];
        slot.selectable = selectable;
        proof {
            Tab::lemma_has_pane_pointwise(a.panes_s(), self.panes_s());
            assert forall|k: int|
                0 <= k < self.panes_s().len() implies pane_bounded(#[trigger] self.panes_s()[k])
                && crate::tab::pane_realized(self.panes_s()[k], self.viewport) && (
            self.panes_s()[k].geom_override) is None by {
                assert(pane_bounded(a.panes_s()[k]));
                assert(crate::tab::pane_realized(a.panes_s()[k], a.viewport));
                if (a.panes_s()[k].geom_override) is Some {
                    assert(a.fullscreen_is_active);
                }
            }
            if exists|k: int|
                0 <= k < self.panes_s().len() && (#[trigger] self.panes_s()[k].geom_override)
                    is Some {
                let k = choose|k: int|
                    0 <= k < self.panes_s().len() && (
                    #[trigger] self.panes_s()[k].geom_override) is Some;
                assert(false);
            }
            assert(self.well_formed());
        }
        let ghost s1 = *self;
        if !selectable {
            match self.active_terminal {
                Some(aid) => {
                    if aid.eq_id(id) {
                        let ids = self.get_pane_ids();
                        let cand = self.next_active_pane(&ids);
                        self.active_terminal = cand;
                        proof {
                            // The reverse walk lands on the last selectable
                            // pane of the map.
                            match cand {
                                Some(nid) => {
                                    let k = choose|k: int|
                                        0 <= k < ids@.len() && ids@[k] == nid && s1.has_pane(nid)
                                            && s1.pane_of(nid).selectable && forall|l: int|
                                            k < l < ids@.len() ==> !(s1.has_pane(
                                                #[trigger] ids@[l],
                                            ) && s1.pane_of(ids@[l]).selectable);
                                    s1.lemma_idx_unique(k, nid);
                                    assert forall|l: int|
                                        s1.idx_of(nid) < l < s1.panes_s().len() implies !(
                                    #[trigger] s1.panes_s()[l]).selectable by {
                                        assert(ids@[l] == s1.panes_s()[l].pid);
                                        s1.lemma_idx_unique(l, s1.panes_s()[l].pid);
                                        assert(!(s1.has_pane(ids@[l]) && s1.pane_of(
                                            ids@[l],
                                        ).selectable));
                                    }
                                },
                                None => {
                                    assert forall|k: int|
                                        0 <= k < s1.panes_s().len() implies !(
                                    #[trigger] s1.panes_s()[k]).selectable by {
                                        assert(ids@[k] == s1.panes_s()[k].pid);
                                        s1.lemma_idx_unique(k, s1.panes_s()[k].pid);
                                        assert(!(s1.has_pane(ids@[k]) && s1.pane_of(
                                            ids@[k],
                                        ).selectable));
                                    }
                                },
                            }
                        }
                    }
                }
                None => {}
            }
        }
        let draw = self.draw_pane_frames;
        proof {
            assert(self.well_formed_except_cells());
        }
        let ghost s2 = *self;
        let msgs = self.set_pane_frames(draw);
        proof {
            Tab::lemma_wf_same_structure(s2, *self);
            assert(self.pane_of(id).selectable == selectable) by {
                let k = s2.idx_of(id);
                s2.lemma_idx_unique(k, id);
                assert(self.panes_s()[k].pid == id && self.panes_s()[k].selectable == selectable);
                self.lemma_idx_unique(k, id);
            }
            // The focus rule carries to the final map: frames touch neither
            // selectability nor geometry.
            if a.active_terminal == Some(id) && !selectable {
                match self.active_terminal {
                    Some(nid) => {
                        let k = s2.idx_of(nid);
                        s2.lemma_idx_unique(k, nid);
                        assert(self.panes_s()[k].pid == nid);
                        self.lemma_idx_unique(k, nid);
                        assert forall|l: int|
                            self.idx_of(nid) < l < self.panes_s().len() implies !(
                        #[trigger] self.panes_s()[l]).selectable by {
                            assert(!(s2.panes_s()[l]).selectable);
                        }
                    },
                    None => {
                        assert forall|k: int|
                            0 <= k < self.panes_s().len() implies !(
                        #[trigger] self.panes_s()[k]).selectable by {
                            assert(!(s2.panes_s()[k]).selectable);
                        }
                    },
                }
            }
        }
        msgs
    }

    /// Mark a pane as drawing no boundary lines around itself.
    pub fn set_pane_invisible_borders(&mut self, id: PaneId, invisible_borders: bool)
        requires
            old(self).well_formed(),
        ensures
            final(self).well_formed(),
            old(self).has_pane(id) ==> final(self).pane_of(id).invisible_borders
                == invisible_borders,
            !old(self).has_pane(id) ==> *final(self) == *old(self),
    {
        let ghost a = *self;
        let i = match self.find_pane(id) {
            Some(i) => i,
            None => {
                return ;
            }
        };
        proof {
            self.lemma_idx_unique(i as int, id);
        }
        let slot = &mut self.panes[i];
        slot.invisible_borders = invisible_borders;
        proof {
            Tab::lemma_wf_same_structure(a, *self);
            self.lemma_idx_unique(i as int, id);
        }
    }
}

} // verus!
