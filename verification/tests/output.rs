//! Tests of the assembled terminal output, the clipboard escape, and the
//! input-routing decisions.
use tab_layout::geom::Position;
use tab_layout::input::WriteDestination;
use tab_layout::pane::{InputMode, ModeInfo, Palette, PaletteColor, PaneId};
use tab_layout::tab::Tab;
use tab_layout::fmt::decimal_string;

fn small_tab() -> Tab {
    let (tab, _) = Tab::new(
        0,
        0,
        String::from("t"),
        tab_layout::geom::Viewport { x: 0, y: 0, cols: 80, rows: 24 },
        None,
        Some(PaneId::Terminal(1)),
        ModeInfo { mode: InputMode::Normal },
        Palette { green: PaletteColor::EightBit(2), orange: PaletteColor::EightBit(3) },
        false,
    );
    tab
}

#[test]
fn decimal_formatting() {
    assert_eq!(decimal_string(0), "0");
    assert_eq!(decimal_string(7), "7");
    assert_eq!(decimal_string(42), "42");
    assert_eq!(decimal_string(65535), "65535");
}

#[test]
fn clipboard_escape_wraps_base64() {
    let tab = small_tab();
    let out = tab.write_selection_to_clipboard("hello");
    assert_eq!(out, "\u{1b}]52;c;aGVsbG8=\u{1b}\\");
}

#[test]
fn clipboard_escape_of_empty_selection() {
    let tab = small_tab();
    let out = tab.write_selection_to_clipboard("");
    assert_eq!(out, "\u{1b}]52;c;\u{1b}\\");
}

#[test]
fn copy_selection_without_text_is_nothing() {
    let tab = small_tab();
    assert_eq!(tab.copy_selection(None), None);
    let framed = tab.copy_selection(Some("hi")).expect("framed selection");
    assert_eq!(framed, "\u{1b}]52;c;aGk=\u{1b}\\");
}

#[test]
fn render_positions_pane_output() {
    let mut tab = small_tab();
    let outputs = vec![(PaneId::Terminal(1), String::from("hi"))];
    let r = tab.render(7, true, &outputs, "", None, "\u{1b}[0 q").expect("an output");
    assert_eq!(r, "\u{1b}[?25l\u{1b}[1;1H\u{1b}[mhi\u{1b}[?25l");
    // The active pane carries the render timestamp afterwards.
    let i = tab.find_pane(PaneId::Terminal(1)).unwrap();
    assert_eq!(tab.panes[i].active_at, 7);
}

#[test]
fn render_with_cursor_restores_it() {
    let mut tab = small_tab();
    let outputs = vec![(PaneId::Terminal(1), String::from("x"))];
    let r = tab.render(1, true, &outputs, "", Some((2, 3)), "\u{1b}[0 q").expect("an output");
    assert_eq!(
        r,
        "\u{1b}[?25l\u{1b}[1;1H\u{1b}[mx\u{1b}[?25h\u{1b}[4;3H\u{1b}[m\u{1b}[0 q"
    );
}

#[test]
fn render_detached_session_is_suppressed() {
    let mut tab = small_tab();
    let outputs = vec![(PaneId::Terminal(1), String::from("x"))];
    assert_eq!(tab.render(1, false, &outputs, "", None, ""), None);
}

#[test]
fn render_clears_once_after_whole_tab_resize() {
    let mut tab = small_tab();
    tab.resize_whole_tab(tab_layout::geom::Size { cols: 80, rows: 24 });
    assert!(tab.should_clear_display_before_rendering);
    let outputs: Vec<(PaneId, String)> = Vec::new();
    let r = tab.render(1, true, &outputs, "", None, "").expect("an output");
    assert!(r.starts_with("\u{1b}[?25l\u{1b}[2J"));
    assert!(!tab.should_clear_display_before_rendering);
}

#[test]
fn pty_bytes_for_unknown_pane_are_dropped() {
    let tab = small_tab();
    assert!(tab.handle_pty_bytes(1));
    assert!(!tab.handle_pty_bytes(2));
}

#[test]
fn writes_route_by_pane_kind() {
    let tab = small_tab();
    assert_eq!(tab.write_to_pane_id(PaneId::Terminal(1)), Some(WriteDestination::Tty(1)));
    assert_eq!(tab.write_to_pane_id(PaneId::Plugin(9)), None);
    assert_eq!(tab.write_to_active_terminal(), Some(WriteDestination::Tty(1)));
    assert_eq!(tab.write_to_terminals_on_current_tab(), vec![WriteDestination::Tty(1)]);
}

#[test]
fn mouse_click_focuses_pane_under_cursor() {
    let mut tab = small_tab();
    tab.vertical_split(PaneId::Terminal(2));
    let hit = tab.handle_left_click(&Position { line: 5, column: 3 });
    assert_eq!(tab.active_terminal, Some(PaneId::Terminal(1)));
    let (id, rel) = hit.expect("a pane under the click");
    assert_eq!(id, PaneId::Terminal(1));
    assert_eq!((rel.line, rel.column), (5, 3));
    // A click on the boundary column hits nothing and keeps focus.
    let miss = tab.handle_left_click(&Position { line: 5, column: 40 });
    assert!(miss.is_none());
    assert_eq!(tab.active_terminal, Some(PaneId::Terminal(1)));
}

#[test]
fn page_scroll_is_one_row_short_of_the_pane() {
    let tab = small_tab();
    assert_eq!(tab.scroll_active_terminal_up_page(), Some((1, 23)));
    assert_eq!(tab.scroll_active_terminal_down_page(), Some((1, 23)));
    assert_eq!(tab.scroll_active_terminal_up(), Some(1));
    assert_eq!(tab.clear_active_terminal_scroll(), Some(1));
}

#[test]
fn cursor_position_lands_in_screen_space() {
    let mut tab = small_tab();
    tab.vertical_split(PaneId::Terminal(2));
    // The right pane starts at column 41.
    assert_eq!(tab.get_active_terminal_cursor_position(Some((2, 1))), Some((43, 1)));
    assert_eq!(tab.get_active_terminal_cursor_position(None), None);
}

#[test]
fn selectability_moves_focus_away() {
    let mut tab = small_tab();
    tab.vertical_split(PaneId::Terminal(2));
    tab.set_pane_selectable(PaneId::Terminal(2), false);
    assert_eq!(tab.active_terminal, Some(PaneId::Terminal(1)));
    tab.set_pane_invisible_borders(PaneId::Terminal(1), true);
    let i = tab.find_pane(PaneId::Terminal(1)).unwrap();
    assert!(tab.panes[i].invisible_borders);
}

#[test]
fn scroll_by_position_names_the_pane_under_it() {
    let mut tab = small_tab();
    tab.vertical_split(PaneId::Terminal(2));
    let left = tab.scroll_terminal_up(&Position { line: 3, column: 2 }, 4);
    assert_eq!(left, Some((PaneId::Terminal(1), 4)));
    let boundary = tab.scroll_terminal_down(&Position { line: 3, column: 40 }, 4);
    assert_eq!(boundary, None);
}

#[test]
fn mouse_drag_follows_the_active_pane() {
    let mut tab = small_tab();
    tab.vertical_split(PaneId::Terminal(2));
    // The active pane is the right one, starting at column 41.
    let held = tab.handle_mouse_hold(&Position { line: 2, column: 45 }).expect("an active pane");
    assert_eq!(held.0, PaneId::Terminal(2));
    assert_eq!((held.1.line, held.1.column), (2, 4));
    let released = tab.handle_mouse_release(&Position { line: 2, column: 3 }).expect("an active pane");
    // Released outside the active pane: the selection ends without a point.
    assert_eq!(released, (PaneId::Terminal(2), None));
}
