//! Assembling the tab's terminal output: one ANSI string with the cursor
//! hidden, an optional full clear, each visible pane's output at its
//! position, the boundary lines, and the cursor restored at the active
//! pane's cursor; and the OSC 52 escape that places selected text in the
//! clipboard.
//!
//! The per-pane output strings come from the terminal emulators and the
//! boundary string from the boundary renderer, both outside collaborators;
//! the engine contributes the framing and the positioning.
use vstd::prelude::*;

use crate::fmt::{push_decimal, spec_decimal};
use vstd::string::StringSliceAdditionalSpecFns;
use crate::geom::MAX_AXIS_CELLS;
use crate::pane::{InputMode, Pane, PaneId, PaletteColor};
use crate::tab::Tab;

verus! {

/// What `base64::encode` returns for the given bytes, as a function of the
/// bytes alone.
pub uninterp spec fn base64_of(bytes: Seq<u8>) -> Seq<char>;

/// Relies on base64::encode: standard-alphabet, padded encoding, four output
/// characters for every started group of three input bytes, a function of
/// the input bytes alone.
#[verifier::external_body]
fn base64_encode(input: &str) -> (r: String)
    requires
        input.spec_bytes().len() <= 0x10000000,
    ensures
        r@ == base64_of(input.spec_bytes()),
        r@.len() == 4 * ((input.spec_bytes().len() + 2) / 3),
        input.spec_bytes().len() == 0 ==> r@.len() == 0,
{
    base64::encode(input)
}

/// The OSC 52 escape that puts the selected bytes on the clipboard.
pub open spec fn spec_osc52(selection: Seq<u8>) -> Seq<char> {
    "\u{1b}]52;c;"@ + base64_of(selection) + "\u{1b}\\"@
}

/// The cursor-goto escape: position a one-based row and column.
pub open spec fn spec_goto(row: int, col: int) -> Seq<char> {
    "\u{1b}["@ + spec_decimal(row as nat) + ";"@ + spec_decimal(col as nat) + "H\u{1b}[m"@
}

fn push_goto(s: &mut String, row: usize, col: usize)
    ensures
        final(s)@ == old(s)@ + spec_goto(row as int, col as int),
{
    s.append("\u{1b}[");
    push_decimal(s, row);
    s.append(";");
    push_decimal(s, col);
    s.append("H\u{1b}[m");
    proof {
        assert(final(s)@ =~= old(s)@ + spec_goto(row as int, col as int));
    }
}

/// The output string the emulator handed over for the given pane: the first
/// entry with its id.
pub open spec fn spec_output_for(outs: Seq<(PaneId, String)>, id: PaneId) -> Option<Seq<char>>
    decreases outs.len(),
{
    if outs.len() == 0 {
        None
    } else if outs[0].0 == id {
        Some(outs[0].1@)
    } else {
        spec_output_for(outs.skip(1), id)
    }
}

fn find_output<'a>(outs: &'a Vec<(PaneId, String)>, id: PaneId, i: usize) -> (r: Option<&'a String>)
    requires
        i <= outs@.len(),
    ensures
        match r {
            Some(s) => spec_output_for(outs@.skip(i as int), id) == Some(s@),
            None => spec_output_for(outs@.skip(i as int), id) is None,
        },
    decreases outs@.len() - i,
{
    if i >= outs.len() {
        return None;
    }
    proof {
        assert(outs@.skip(i as int)[0] == outs@[i as int]);
        assert(outs@.skip(i as int).skip(1) =~= outs@.skip(i as int + 1));
    }
    let (pid, s) = &outs[i];
    if pid.eq_id(id) {
        Some(s)
    } else {
        find_output(outs, id, i + 1)
    }
}

/// The body of a render: for each pane from index `i` on that is not hidden
/// and has output, a goto to its top-left corner, a style reset, and its
/// output.
pub open spec fn spec_render_body(t: Tab, outs: Seq<(PaneId, String)>, i: int) -> Seq<char>
    decreases t.panes_s().len() - i,
{
    if i < 0 || i >= t.panes_s().len() {
        Seq::empty()
    } else {
        let p = t.panes_s()[i];
        let piece: Seq<char> = if !t.hidden(p.pid) {
            match spec_output_for(outs, p.pid) {
                Some(o) => spec_goto(p.spec_y() + 1, p.spec_x() + 1) + o,
                None => Seq::empty(),
            }
        } else {
            Seq::empty()
        };
        piece + spec_render_body(t, outs, i + 1)
    }
}

/// The colour the active pane's frame takes in the given mode.
pub open spec fn spec_active_color(mode: InputMode, green: PaletteColor, orange: PaletteColor) -> PaletteColor {
    match mode {
        InputMode::Normal | InputMode::Locked => green,
        _ => orange,
    }
}

/// A pane after the render marked it: the active pane takes the render
/// timestamp and the mode's frame colour, every other visible pane loses its
/// frame colour, hidden panes keep theirs.
pub open spec fn spec_render_mark(p: Pane, hidden: bool, active: Option<PaneId>, now: u64, color: PaletteColor) -> Pane {
    if Some(p.pid) == active {
        Pane { active_at: now, boundary_color: Some(color), ..p }
    } else if !hidden {
        Pane { boundary_color: None, ..p }
    } else {
        p
    }
}

/// The whole render output.
pub open spec fn spec_render_output(
    t: Tab,
    outs: Seq<(PaneId, String)>,
    boundaries: Seq<char>,
    cursor: Option<(usize, usize)>,
    shape: Seq<char>,
) -> Seq<char> {
    "\u{1b}[?25l"@ + (if t.should_clear_display_before_rendering {
        "\u{1b}[2J"@
    } else {
        Seq::empty()
    }) + spec_render_body(t, outs, 0) + (if !t.draw_pane_frames {
        boundaries
    } else {
        Seq::empty()
    }) + (match cursor {
        Some((cx, cy)) => "\u{1b}[?25h"@ + spec_goto(cy + 1, cx + 1) + shape,
        None => "\u{1b}[?25l"@,
    })
}

impl Tab {
    /// Wrap selected text in the OSC 52 clipboard escape.
    pub fn write_selection_to_clipboard(&self, selection: &str) -> (r: String)
        requires
            selection.spec_bytes().len() <= 0x10000000,
        ensures
            r@ == spec_osc52(selection.spec_bytes()),
    {
        let mut out = String::new();
        out.append("\u{1b}]52;c;");
        let encoded = base64_encode(selection);
        out.append(encoded.as_str());
        out.append("\u{1b}\\");
        proof {
            assert(out@ =~= spec_osc52(selection.spec_bytes()));
        }
        out
    }

    /// Put the active pane's selected text, when there is any, on the
    /// clipboard.
    pub fn copy_selection(&self, selected_text: Option<&str>) -> (r: Option<String>)
        requires
            match selected_text {
                Some(s) => s.spec_bytes().len() <= 0x10000000,
                None => true,
            },
        ensures
            match selected_text {
                Some(s) => r matches Some(out) && out@ == spec_osc52(s.spec_bytes()),
                None => r is None,
            },
    {
        match selected_text {
            Some(s) => Some(self.write_selection_to_clipboard(s)),
            None => None,
        }
    }

    /// Assemble the tab's output from the panes' own outputs, the boundary
    /// lines, and the active pane's cursor, and stamp the active pane with
    /// the render time. Nothing is rendered while no pane is active or the
    /// session is detached.
    pub fn render(
        &mut self,
        now: u64,
        attached: bool,
        pane_outputs: &Vec<(PaneId, String)>,
        boundaries: &str,
        cursor_in_pane: Option<(usize, usize)>,
        cursor_shape_csi: &str,
    ) -> (r: Option<String>)
        requires
            old(self).well_formed(),
            match cursor_in_pane {
                Some((cx, cy)) => cx <= MAX_AXIS_CELLS && cy <= MAX_AXIS_CELLS,
                None => true,
            },
        ensures
            final(self).well_formed(),
            (old(self).active_terminal is None || !attached) ==> *final(self) == *old(self) && r
                is None,
            (old(self).active_terminal is Some && attached) ==> {
                &&& final(self).panes_s().len() == old(self).panes_s().len()
                &&& forall|k: int|
                    0 <= k < old(self).panes_s().len() ==> final(self).panes_s()[k]
                        == spec_render_mark(
                        #[trigger] old(self).panes_s()[k],
                        old(self).hidden(old(self).panes_s()[k].pid),
                        old(self).active_terminal,
                        now,
                        spec_active_color(
                            old(self).mode_info.mode,
                            old(self).colors.green,
                            old(self).colors.orange,
                        ),
                    )
                &&& *final(self) == (Tab {
                    panes: final(self).panes,
                    should_clear_display_before_rendering: false,
                    ..*old(self)
                })
                &&& r matches Some(out) && out@ == spec_render_output(
                    *old(self),
                    pane_outputs@,
                    boundaries@,
                    match (old(self).active_terminal, cursor_in_pane) {
                        (Some(aid), Some((cx, cy))) => if old(self).has_pane(aid) {
                            Some(
                                (
                                    (old(self).pane_of(aid).spec_x() + cx) as usize,
                                    (old(self).pane_of(aid).spec_y() + cy) as usize,
                                ),
                            )
                        } else {
                            None::<(usize, usize)>
                        },
                        _ => None::<(usize, usize)>,
                    },
                    cursor_shape_csi@,
                )
            },
    {
        let aid = match self.active_terminal {
            Some(aid) => aid,
            None => {
                return None;
            }
        };
        if !attached {
            return None;
        }
        let ghost a = *old(self);
        let clear = self.should_clear_display_before_rendering;
        let cursor = self.get_active_terminal_cursor_position(cursor_in_pane);
        let color = match self.mode_info.mode {
            InputMode::Normal | InputMode::Locked => self.colors.green,
            _ => self.colors.orange,
        };
        // First pass: stamp the active pane, clear the other visible frames.
        let ghost orig = self.panes@;
        let mut i: usize = 0;
        while i < self.panes.len()
            invariant
                *self == (Tab { panes: self.panes, ..a }),
                a.well_formed(),
                aid == a.active_terminal.unwrap(),
                a.active_terminal is Some,
                color == spec_active_color(a.mode_info.mode, a.colors.green, a.colors.orange),
                orig == a.panes@,
                i <= self.panes@.len(),
                self.panes@.len() == orig.len(),
                forall|k: int| i <= k < orig.len() ==> self.panes@[k] == orig[k],
                forall|k: int|
                    0 <= k < i ==> self.panes@[k] == spec_render_mark(
                        orig[k],
                        a.hidden(orig[k].pid),
                        a.active_terminal,
                        now,
                        color,
                    ),
            decreases self.panes@.len() - i,
        {
            let p = self.panes[i];
            let np: Pane = if p.pid.eq_id(aid) {
                Pane { active_at: now, boundary_color: Some(color), ..p }
            } else if !crate::queries::ids_contain(&self.panes_to_hide, p.pid) {
                Pane { boundary_color: None, ..p }
            } else {
                p
            };
            let slot = &mut self.panes[i];
            *slot = np;
            i = i + 1;
        }
        self.should_clear_display_before_rendering = false;
        proof {
            Tab::lemma_wf_same_structure(
                a,
                Tab { should_clear_display_before_rendering: a.should_clear_display_before_rendering, ..*self },
            );
            assert(self.well_formed()) by {
                let b = Tab {
                    should_clear_display_before_rendering: a.should_clear_display_before_rendering,
                    ..*self
                };
                assert((Tab {
                    should_clear_display_before_rendering:
                        self.should_clear_display_before_rendering,
                    ..b
                }) == *self);
            }
        }
        // Second pass: assemble the output against the original geometry.
        let mut out = String::new();
        out.append("\u{1b}[?25l");
        if clear {
            out.append("\u{1b}[2J");
        }
        let ghost head = out@;
        let mut j: usize = 0;
        while j < self.panes.len()
            invariant
                *self == (Tab {
                    panes: self.panes,
                    should_clear_display_before_rendering: false,
                    ..a
                }),
                a.well_formed(),
                self.panes@.len() == a.panes_s().len(),
                forall|k: int|
                    0 <= k < a.panes_s().len() ==> (#[trigger] self.panes@[k]).pid
                        == a.panes_s()[k].pid && self.panes@[k].geom == a.panes_s()[k].geom
                        && self.panes@[k].geom_override == a.panes_s()[k].geom_override,
                j <= self.panes@.len(),
                head + spec_render_body(a, pane_outputs@, 0) == out@ + spec_render_body(
                    a,
                    pane_outputs@,
                    j as int,
                ),
            decreases self.panes@.len() - j,
        {
            let p = self.panes[j];
            proof {
                assert(crate::tab::pane_bounded(a.panes_s()[j as int]));
                assert(p.spec_x() == a.panes_s()[j as int].spec_x());
                assert(p.spec_y() == a.panes_s()[j as int].spec_y());
                assert(p.pid == a.panes_s()[j as int].pid);
            }
            let ghost out_before = out@;
            if !crate::queries::ids_contain(&self.panes_to_hide, p.pid) {
                match find_output(pane_outputs, p.pid, 0) {
                    Some(s) => {
                        let y = p.y();
                        let x = p.x();
                        push_goto(&mut out, y + 1, x + 1);
                        out.append(s.as_str());
                        proof {
                            assert(pane_outputs@.skip(0) =~= pane_outputs@);
                            assert(out@ =~= out_before + (spec_goto(
                                a.panes_s()[j as int].spec_y() + 1,
                                a.panes_s()[j as int].spec_x() + 1,
                            ) + s@));
                        }
                    }
                    None => {
                        proof {
                            assert(pane_outputs@.skip(0) =~= pane_outputs@);
                        }
                    }
                }
            }
            proof {
                assert(self.panes_to_hide@ == a.panes_to_hide@);
                assert(head + spec_render_body(a, pane_outputs@, 0) =~= out@ + spec_render_body(
                    a,
                    pane_outputs@,
                    j as int + 1,
                ));
            }
            j = j + 1;
        }
        proof {
            assert(out@ =~= head + spec_render_body(a, pane_outputs@, 0));
        }
        if !self.draw_pane_frames {
            out.append(boundaries);
        }
        match cursor {
            Some((cx, cy)) => {
                out.append("\u{1b}[?25h");
                push_goto(&mut out, cy + 1, cx + 1);
                out.append(cursor_shape_csi);
            }
            None => {
                out.append("\u{1b}[?25l");
            }
        }
        proof {
            assert(out@ =~= spec_render_output(
                a,
                pane_outputs@,
                boundaries@,
                match (a.active_terminal, cursor_in_pane) {
                    (Some(aid0), Some((cx, cy))) => if a.has_pane(aid0) {
                        Some(
                            (
                                (a.pane_of(aid0).spec_x() + cx) as usize,
                                (a.pane_of(aid0).spec_y() + cy) as usize,
                            ),
                        )
                    } else {
                        None::<(usize, usize)>
                    },
                    _ => None::<(usize, usize)>,
                },
                cursor_shape_csi@,
            ));
        }
        Some(out)
    }
}

} // verus!
