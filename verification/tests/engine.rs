//! Scenario tests for the tab layout engine, on an 80x24 viewport with
//! frames off.
use tab_layout::geom::{Constraint, Dimension, PaneGeom, Size, Viewport};
use tab_layout::pane::{InputMode, ModeInfo, Palette, PaletteColor, PaneId};
use tab_layout::tab::{OutboundMessage, Tab};

fn test_viewport() -> Viewport {
    Viewport { x: 0, y: 0, cols: 80, rows: 24 }
}

fn test_mode() -> ModeInfo {
    ModeInfo { mode: InputMode::Normal }
}

fn test_palette() -> Palette {
    Palette { green: PaletteColor::EightBit(2), orange: PaletteColor::EightBit(3) }
}

fn new_tab_with_pane() -> Tab {
    let (tab, msgs) = Tab::new(
        0,
        0,
        String::from("main"),
        test_viewport(),
        None,
        Some(PaneId::Terminal(1)),
        test_mode(),
        test_palette(),
        false,
    );
    assert_eq!(msgs.len(), 1);
    assert_eq!(msgs[0], OutboundMessage::SetTerminalSize(1, 80, 24));
    tab
}

fn pct(p: &PaneGeom, axis_cols: bool) -> u32 {
    let c = if axis_cols { p.cols.constraint } else { p.rows.constraint };
    match c {
        Constraint::Percent(v) => v,
        Constraint::Fixed(_) => panic!("expected a percent dimension"),
    }
}

fn rect_of(tab: &Tab, id: PaneId) -> (usize, usize, usize, usize) {
    let i = tab.find_pane(id).expect("pane missing");
    let p = &tab.panes[i];
    (p.x(), p.y(), p.cols(), p.rows())
}

#[test]
fn single_pane_fills_viewport() {
    let tab = new_tab_with_pane();
    assert_eq!(rect_of(&tab, PaneId::Terminal(1)), (0, 0, 80, 24));
    assert_eq!(pct(&tab.panes[0].geom, true), 10000);
    assert_eq!(pct(&tab.panes[0].geom, false), 10000);
    assert_eq!(tab.active_terminal, Some(PaneId::Terminal(1)));
}

#[test]
fn horizontal_split_halves_height() {
    let mut tab = new_tab_with_pane();
    tab.horizontal_split(PaneId::Terminal(2));
    assert_eq!(rect_of(&tab, PaneId::Terminal(1)), (0, 0, 80, 12));
    assert_eq!(rect_of(&tab, PaneId::Terminal(2)), (0, 13, 80, 11));
    assert_eq!(pct(&tab.panes[0].geom, false), 5000);
    assert_eq!(pct(&tab.panes[1].geom, false), 5000);
    assert_eq!(tab.active_terminal, Some(PaneId::Terminal(2)));
}

#[test]
fn vertical_split_then_focus_left() {
    let mut tab = new_tab_with_pane();
    tab.vertical_split(PaneId::Terminal(2));
    assert_eq!(rect_of(&tab, PaneId::Terminal(1)), (0, 0, 40, 24));
    assert_eq!(rect_of(&tab, PaneId::Terminal(2)), (41, 0, 39, 24));
    assert_eq!(tab.active_terminal, Some(PaneId::Terminal(2)));
    let moved = tab.move_focus_left();
    assert!(moved);
    assert_eq!(tab.active_terminal, Some(PaneId::Terminal(1)));
}

#[test]
fn focus_right_after_split() {
    let mut tab = new_tab_with_pane();
    tab.vertical_split(PaneId::Terminal(2));
    let moved_left = tab.move_focus_left();
    assert!(moved_left);
    let moved_right = tab.move_focus_right();
    assert!(moved_right);
    assert_eq!(tab.active_terminal, Some(PaneId::Terminal(2)));
}

#[test]
fn close_reclaims_width() {
    let mut tab = new_tab_with_pane();
    tab.vertical_split(PaneId::Terminal(2));
    assert_eq!(tab.active_terminal, Some(PaneId::Terminal(2)));
    tab.close_pane(PaneId::Terminal(2));
    assert_eq!(tab.panes.len(), 1);
    assert_eq!(rect_of(&tab, PaneId::Terminal(1)), (0, 0, 80, 24));
    assert_eq!(pct(&tab.panes[0].geom, true), 10000);
    assert_eq!(tab.active_terminal, Some(PaneId::Terminal(1)));
}

#[test]
fn split_then_close_returns_partition() {
    let mut tab = new_tab_with_pane();
    tab.horizontal_split(PaneId::Terminal(2));
    let before: Vec<(PaneId, u32, u32, u32, u32)> = tab
        .panes
        .iter()
        .map(|p| (p.pid, p.geom.px, p.geom.py, pct(&p.geom, true), pct(&p.geom, false)))
        .collect();
    tab.vertical_split(PaneId::Terminal(3));
    tab.close_pane(PaneId::Terminal(3));
    let after: Vec<(PaneId, u32, u32, u32, u32)> = tab
        .panes
        .iter()
        .map(|p| (p.pid, p.geom.px, p.geom.py, pct(&p.geom, true), pct(&p.geom, false)))
        .collect();
    assert_eq!(before, after);
}

fn three_pane_row() -> Tab {
    let (mut tab, _) = Tab::new(
        0,
        0,
        String::from("row"),
        test_viewport(),
        None,
        None,
        test_mode(),
        test_palette(),
        false,
    );
    let positions = vec![
        PaneGeom {
            x: 0,
            y: 0,
            px: 0,
            py: 0,
            cols: Dimension { constraint: Constraint::Percent(3330), inner: 0 },
            rows: Dimension { constraint: Constraint::Percent(10000), inner: 0 },
        },
        PaneGeom {
            x: 0,
            y: 0,
            px: 3330,
            py: 0,
            cols: Dimension { constraint: Constraint::Percent(3330), inner: 0 },
            rows: Dimension { constraint: Constraint::Percent(10000), inner: 0 },
        },
        PaneGeom {
            x: 0,
            y: 0,
            px: 6660,
            py: 0,
            cols: Dimension { constraint: Constraint::Percent(3340), inner: 0 },
            rows: Dimension { constraint: Constraint::Percent(10000), inner: 0 },
        },
    ];
    let pids = vec![1, 2, 3];
    tab.apply_layout(&positions, &pids);
    tab
}

#[test]
fn resize_right_cascades() {
    let mut tab = three_pane_row();
    assert_eq!(rect_of(&tab, PaneId::Terminal(1)), (0, 0, 26, 24));
    assert_eq!(rect_of(&tab, PaneId::Terminal(2)), (27, 0, 26, 24));
    assert_eq!(rect_of(&tab, PaneId::Terminal(3)), (54, 0, 26, 24));
    // Focus the middle pane and push its right border one step out.
    tab.focus_next_pane();
    assert_eq!(tab.active_terminal, Some(PaneId::Terminal(2)));
    tab.resize_right();
    let a = tab.panes[tab.find_pane(PaneId::Terminal(1)).unwrap()].geom;
    let b = tab.panes[tab.find_pane(PaneId::Terminal(2)).unwrap()].geom;
    let c = tab.panes[tab.find_pane(PaneId::Terminal(3)).unwrap()].geom;
    assert_eq!(pct(&a, true), 3330);
    assert_eq!(pct(&b, true), 3680);
    assert_eq!(pct(&c, true), 2990);
    assert_eq!(b.px, 3330);
    assert_eq!(c.px, 7010);
    // The shares along the row still sum to the whole axis.
    assert_eq!(pct(&a, true) + pct(&b, true) + pct(&c, true), 10000);
}

#[test]
fn resize_right_then_left_is_identity() {
    let mut tab = new_tab_with_pane();
    tab.vertical_split(PaneId::Terminal(2));
    let moved = tab.move_focus_left();
    assert!(moved);
    let before: Vec<(u32, u32)> = tab.panes.iter().map(|p| (p.geom.px, pct(&p.geom, true))).collect();
    tab.resize_right();
    let grown: Vec<(u32, u32)> = tab.panes.iter().map(|p| (p.geom.px, pct(&p.geom, true))).collect();
    assert_eq!(grown, vec![(0, 5350), (5350, 4650)]);
    tab.resize_left();
    let after: Vec<(u32, u32)> = tab.panes.iter().map(|p| (p.geom.px, pct(&p.geom, true))).collect();
    assert_eq!(before, after);
}

#[test]
fn resize_denied_at_floor() {
    let mut tab = new_tab_with_pane();
    // A single pane has no neighbours: no direction is permitted.
    let before = rect_of(&tab, PaneId::Terminal(1));
    tab.resize_right();
    assert_eq!(rect_of(&tab, PaneId::Terminal(1)), before);
}

#[test]
fn fullscreen_round_trip() {
    let mut tab = new_tab_with_pane();
    tab.vertical_split(PaneId::Terminal(2));
    let moved = tab.move_focus_left();
    assert!(moved);
    tab.toggle_active_pane_fullscreen();
    assert!(tab.fullscreen_is_active);
    assert_eq!(rect_of(&tab, PaneId::Terminal(1)), (0, 0, 80, 24));
    assert!(tab.panes_to_hide.contains(&PaneId::Terminal(2)));
    tab.toggle_active_pane_fullscreen();
    assert!(!tab.fullscreen_is_active);
    assert!(tab.panes_to_hide.is_empty());
    assert_eq!(rect_of(&tab, PaneId::Terminal(1)), (0, 0, 40, 24));
    assert_eq!(rect_of(&tab, PaneId::Terminal(2)), (41, 0, 39, 24));
}

#[test]
fn fullscreen_alone_is_a_no_op() {
    let mut tab = new_tab_with_pane();
    let msgs = tab.toggle_active_pane_fullscreen();
    assert!(!tab.fullscreen_is_active);
    assert!(msgs.is_empty());
}

#[test]
fn focus_next_previous_round_trip() {
    let mut tab = three_pane_row();
    assert_eq!(tab.active_terminal, Some(PaneId::Terminal(1)));
    tab.focus_next_pane();
    assert_eq!(tab.active_terminal, Some(PaneId::Terminal(2)));
    tab.focus_previous_pane();
    assert_eq!(tab.active_terminal, Some(PaneId::Terminal(1)));
    // Wrap-around backwards and forwards.
    tab.focus_previous_pane();
    assert_eq!(tab.active_terminal, Some(PaneId::Terminal(3)));
    tab.focus_next_pane();
    assert_eq!(tab.active_terminal, Some(PaneId::Terminal(1)));
}

#[test]
fn new_pane_splits_largest() {
    let mut tab = new_tab_with_pane();
    let msgs = tab.new_pane(PaneId::Terminal(2));
    assert_eq!(tab.panes.len(), 2);
    assert_eq!(tab.active_terminal, Some(PaneId::Terminal(2)));
    assert!(!msgs.iter().any(|m| matches!(m, OutboundMessage::PtyClose(_))));
    // An 80x24 pane counts as taller than wide once rows are scaled by the
    // cell ratio, so the new pane stacks below.
    assert_eq!(rect_of(&tab, PaneId::Terminal(1)), (0, 0, 80, 12));
    assert_eq!(rect_of(&tab, PaneId::Terminal(2)), (0, 13, 80, 11));
}

#[test]
fn split_too_small_closes_child() {
    let (mut tab, _) = Tab::new(
        0,
        0,
        String::from("tiny"),
        Viewport { x: 0, y: 0, cols: 8, rows: 6 },
        None,
        Some(PaneId::Terminal(1)),
        test_mode(),
        test_palette(),
        false,
    );
    let msgs = tab.vertical_split(PaneId::Terminal(2));
    assert_eq!(tab.panes.len(), 1);
    assert!(msgs.contains(&OutboundMessage::PtyClose(PaneId::Terminal(2))));
}

#[test]
fn close_unknown_pane_is_a_no_op() {
    let mut tab = new_tab_with_pane();
    let msgs = tab.close_pane(PaneId::Terminal(9));
    assert_eq!(tab.panes.len(), 1);
    assert!(msgs.is_empty());
}

#[test]
fn close_focused_pane_messages_pty() {
    let mut tab = new_tab_with_pane();
    tab.vertical_split(PaneId::Terminal(2));
    let msgs = tab.close_focused_pane();
    assert_eq!(msgs.last(), Some(&OutboundMessage::PtyClose(PaneId::Terminal(2))));
    assert_eq!(tab.panes.len(), 1);
}

#[test]
fn max_panes_trims_from_the_back() {
    let (mut tab, _) = Tab::new(
        0,
        0,
        String::from("capped"),
        test_viewport(),
        Some(2),
        Some(PaneId::Terminal(1)),
        test_mode(),
        test_palette(),
        false,
    );
    tab.vertical_split(PaneId::Terminal(2));
    assert_eq!(tab.panes.len(), 2);
    let msgs = tab.horizontal_split(PaneId::Terminal(3));
    assert!(tab.panes.len() <= 2);
    assert!(msgs.iter().any(|m| matches!(m, OutboundMessage::PtyClose(_))));
}

#[test]
fn resize_whole_tab_rescales_cells() {
    let mut tab = new_tab_with_pane();
    tab.vertical_split(PaneId::Terminal(2));
    tab.resize_whole_tab(Size { cols: 100, rows: 30 });
    assert_eq!(tab.display_area, Size { cols: 100, rows: 30 });
    assert_eq!(rect_of(&tab, PaneId::Terminal(1)), (0, 0, 50, 30));
    assert_eq!(rect_of(&tab, PaneId::Terminal(2)), (51, 0, 49, 30));
    assert!(tab.should_clear_display_before_rendering);
}

#[test]
fn default_tab_name_counts_from_one() {
    let (tab, _) = Tab::new(
        3,
        4,
        String::new(),
        test_viewport(),
        None,
        None,
        test_mode(),
        test_palette(),
        false,
    );
    assert_eq!(tab.name, "Tab #5");
}

#[test]
fn pane_minimums_after_split() {
    let mut tab = new_tab_with_pane();
    tab.vertical_split(PaneId::Terminal(2));
    tab.horizontal_split(PaneId::Terminal(3));
    for p in tab.panes.iter() {
        assert!(p.cols() >= 5);
        assert!(p.rows() >= 5);
    }
}

#[test]
fn selectable_panes_tile_the_viewport() {
    // Coverage and disjointness of the realized rectangles: every cell of
    // the 80x24 viewport belongs to exactly one pane or to a boundary line
    // between two panes.
    let mut tab = new_tab_with_pane();
    tab.vertical_split(PaneId::Terminal(2));
    tab.horizontal_split(PaneId::Terminal(3));
    let mut owners = vec![vec![0u32; 80]; 24];
    for p in tab.panes.iter() {
        for y in p.y()..p.y() + p.rows() {
            for x in p.x()..p.x() + p.cols() {
                owners[y][x] += 1;
            }
        }
    }
    for y in 0..24 {
        for x in 0..80 {
            assert!(owners[y][x] <= 1, "panes overlap at {},{}", x, y);
        }
    }
    // The uncovered cells are exactly the boundary lines: the column between
    // the left and right halves, and the row between the two right panes.
    for y in 0..24 {
        for x in 0..80 {
            let on_boundary = x == 40 || (y == 12 && x > 40);
            assert_eq!(owners[y][x] == 0, on_boundary, "coverage wrong at {},{}", x, y);
        }
    }
}

#[test]
fn percent_shares_sum_to_full_axis() {
    let mut tab = three_pane_row();
    let total: u32 = tab.panes.iter().map(|p| pct(&p.geom, true)).sum();
    assert_eq!(total, 10000);
    tab.focus_next_pane();
    tab.resize_right();
    let total_after: u32 = tab.panes.iter().map(|p| pct(&p.geom, true)).sum();
    assert_eq!(total_after, 10000);
}

#[test]
fn active_pane_always_known() {
    let mut tab = new_tab_with_pane();
    tab.vertical_split(PaneId::Terminal(2));
    tab.close_pane(PaneId::Terminal(2));
    let active = tab.active_terminal.expect("no active pane");
    assert!(tab.find_pane(active).is_some());
    tab.close_pane(PaneId::Terminal(1));
    assert!(tab.active_terminal.is_none());
}

#[test]
fn focus_up_and_down_report_movement() {
    let mut tab = new_tab_with_pane();
    tab.horizontal_split(PaneId::Terminal(2));
    // Active is the bottom pane; up moves, up again has nowhere to go.
    assert!(tab.move_focus_up());
    assert_eq!(tab.active_terminal, Some(PaneId::Terminal(1)));
    assert!(!tab.move_focus_up());
    assert!(tab.move_focus_down());
    assert_eq!(tab.active_terminal, Some(PaneId::Terminal(2)));
    assert!(!tab.move_focus_down());
}

#[test]
fn resize_without_permission_changes_no_pane() {
    let mut tab = three_pane_row();
    // The left pane cannot grow upward or shrink downward: no pane sits
    // above or below.
    let before: Vec<(u32, u32)> = tab.panes.iter().map(|p| (p.geom.py, pct(&p.geom, false))).collect();
    tab.resize_up();
    tab.resize_down();
    let after: Vec<(u32, u32)> = tab.panes.iter().map(|p| (p.geom.py, pct(&p.geom, false))).collect();
    assert_eq!(before, after);
}

#[test]
fn pane_cap_keeps_the_front_of_the_id_order() {
    let (mut tab, _) = Tab::new(
        0,
        0,
        String::from("capped"),
        test_viewport(),
        Some(2),
        Some(PaneId::Terminal(1)),
        test_mode(),
        test_palette(),
        false,
    );
    tab.vertical_split(PaneId::Terminal(2));
    // Splitting again first closes panes until one slot is free; pane 2, the
    // back of the id order, goes.
    let msgs = tab.vertical_split(PaneId::Terminal(3));
    assert!(tab.find_pane(PaneId::Terminal(1)).is_some());
    assert!(tab.find_pane(PaneId::Terminal(2)).is_none());
    assert!(msgs.contains(&OutboundMessage::PtyClose(PaneId::Terminal(2))));
}

fn stacked_rows(bottom_ph: u32) -> Tab {
    // A full-width top pane over a bottom row of two panes, on 80x30.
    let (mut tab, _) = Tab::new(
        0,
        0,
        String::from("stack"),
        Viewport { x: 0, y: 0, cols: 80, rows: 30 },
        None,
        None,
        test_mode(),
        test_palette(),
        false,
    );
    let top_ph = 10000 - bottom_ph;
    let positions = vec![
        PaneGeom {
            x: 0,
            y: 0,
            px: 0,
            py: 0,
            cols: Dimension { constraint: Constraint::Percent(10000), inner: 0 },
            rows: Dimension { constraint: Constraint::Percent(top_ph), inner: 0 },
        },
        PaneGeom {
            x: 0,
            y: 0,
            px: 0,
            py: top_ph,
            cols: Dimension { constraint: Constraint::Percent(5000), inner: 0 },
            rows: Dimension { constraint: Constraint::Percent(bottom_ph), inner: 0 },
        },
        PaneGeom {
            x: 0,
            y: 0,
            px: 5000,
            py: top_ph,
            cols: Dimension { constraint: Constraint::Percent(5000), inner: 0 },
            rows: Dimension { constraint: Constraint::Percent(bottom_ph), inner: 0 },
        },
    ];
    let pids = vec![1, 2, 3];
    tab.apply_layout(&positions, &pids);
    // Focus the bottom-left pane.
    tab.focus_next_pane();
    assert_eq!(tab.active_terminal, Some(PaneId::Terminal(2)));
    tab
}

#[test]
fn shrink_aborts_when_a_band_pane_would_lose_its_minimum() {
    // The bottom row is 5 cells tall: its sibling would keep only 4 cells
    // after the step, under the 5-cell minimum, so nothing moves.
    let mut tab = stacked_rows(2000);
    assert_eq!(rect_of(&tab, PaneId::Terminal(3)).3, 5);
    let before: Vec<(u32, u32)> = tab.panes.iter().map(|p| (p.geom.py, pct(&p.geom, false))).collect();
    tab.resize_down();
    let after: Vec<(u32, u32)> = tab.panes.iter().map(|p| (p.geom.py, pct(&p.geom, false))).collect();
    assert_eq!(before, after);
}

#[test]
fn shrink_runs_when_the_band_keeps_its_minimum() {
    // A 12-cell bottom row keeps 10 cells after the step: the shrink runs,
    // the top pane takes the space, and the sibling moves with the border.
    let mut tab = stacked_rows(4000);
    tab.resize_down();
    let top = tab.panes[tab.find_pane(PaneId::Terminal(1)).unwrap()].geom;
    let left = tab.panes[tab.find_pane(PaneId::Terminal(2)).unwrap()].geom;
    let sibling = tab.panes[tab.find_pane(PaneId::Terminal(3)).unwrap()].geom;
    assert_eq!(pct(&top, false), 6350);
    assert_eq!((left.py, pct(&left, false)), (6350, 3650));
    assert_eq!((sibling.py, pct(&sibling, false)), (6350, 3650));
}

#[test]
fn closing_under_fullscreen_exits_first_and_reclaims() {
    let mut tab = new_tab_with_pane();
    tab.vertical_split(PaneId::Terminal(2));
    let moved = tab.move_focus_left();
    assert!(moved);
    tab.toggle_active_pane_fullscreen();
    assert!(tab.fullscreen_is_active);
    // Closing the fullscreen pane leaves fullscreen, then its right-hand
    // neighbour reclaims the freed width and takes focus.
    tab.close_pane(PaneId::Terminal(1));
    assert!(!tab.fullscreen_is_active);
    assert!(tab.panes_to_hide.is_empty());
    assert_eq!(tab.panes.len(), 1);
    assert_eq!(rect_of(&tab, PaneId::Terminal(2)), (0, 0, 80, 24));
    assert_eq!(pct(&tab.panes[0].geom, true), 10000);
    assert_eq!(tab.active_terminal, Some(PaneId::Terminal(2)));
}
