use termojinal::terminal::TerminalState;
use termojinal::control::{
    backspace_col, control_action, esc_action, line_feed_col, next_tab_stop, set_tab_stop,
    ControlAction, EscAction, SavedCursor, SavedCursors,
};
use termojinal::csi::{csi_dispatch, CsiAction, CursorShape};
use termojinal::sgr::Pen;

fn g(v: &[u16]) -> Vec<Vec<u16>> {
    v.iter().map(|&x| vec![x]).collect()
}

fn feed_csi(t: &mut TerminalState, params: &[u16], marker: &[u8], action: char) {
    let a = csi_dispatch(&g(params), marker, action, 24);
    t.csi(&a);
}

fn cursor_at(col: usize, row: usize) -> SavedCursor {
    SavedCursor { col, row, pen: Pen::new(), cursor_visible: true, cursor_shape: CursorShape::Block }
}

#[test]
fn test_cursor_save_restore() {
    let mut term = TerminalState::new(80, 24);
    feed_csi(&mut term, &[5, 10], b"", 'H');
    term.esc_dispatch(b"", b'7');
    feed_csi(&mut term, &[1, 1], b"", 'H');
    assert_eq!(term.cursor().col, 0);
    assert_eq!(term.cursor().row, 0);
    term.esc_dispatch(b"", b'8');
    assert_eq!(term.cursor().col, 9);
    assert_eq!(term.cursor().row, 4);
}

#[test]
fn saved_cursor_slots_are_per_screen() {
    let mut slots = SavedCursors::new();
    assert_eq!(slots.restore(false), None);
    slots.save(false, cursor_at(1, 2));
    slots.save(true, cursor_at(3, 4));
    assert_eq!(slots.restore(false), Some(cursor_at(1, 2)));
    assert_eq!(slots.restore(true), Some(cursor_at(3, 4)));
    slots.save(false, cursor_at(5, 6));
    assert_eq!(slots.restore(false), Some(cursor_at(5, 6)));
    assert_eq!(slots.restore(true), Some(cursor_at(3, 4)));
}

#[test]
fn esc_actions() {
    assert_eq!(esc_action(b"", b'M'), EscAction::ReverseIndex);
    assert_eq!(esc_action(b"", b'D'), EscAction::Index);
    assert_eq!(esc_action(b"", b'E'), EscAction::NextLine);
    assert_eq!(esc_action(b"", b'H'), EscAction::SetTabStop);
    assert_eq!(esc_action(b"", b'c'), EscAction::FullReset);
    assert_eq!(esc_action(b"", b'Z'), EscAction::Ignore);
    assert_eq!(esc_action(b"(", b'B'), EscAction::Ignore);
    assert_eq!(esc_action(b"#", b'7'), EscAction::Ignore);
}

#[test]
fn control_actions() {
    assert_eq!(control_action(0x07), ControlAction::Bell);
    assert_eq!(control_action(0x08), ControlAction::Backspace);
    assert_eq!(control_action(0x09), ControlAction::Tab);
    assert_eq!(control_action(0x0A), ControlAction::LineFeed);
    assert_eq!(control_action(0x0B), ControlAction::LineFeed);
    assert_eq!(control_action(0x0C), ControlAction::LineFeed);
    assert_eq!(control_action(0x0D), ControlAction::CarriageReturn);
    assert_eq!(control_action(0x0E), ControlAction::Ignore);
    assert_eq!(control_action(0x1B), ControlAction::Ignore);
    assert_eq!(backspace_col(0), 0);
    assert_eq!(backspace_col(7), 6);
    assert_eq!(line_feed_col(5, true), 0);
    assert_eq!(line_feed_col(5, false), 5);
}

fn default_stops(cols: usize) -> Vec<bool> {
    (0..cols).map(|i| i % 8 == 0).collect()
}

#[test]
fn tab_stops() {
    let stops = default_stops(80);
    assert_eq!(next_tab_stop(&stops, 0, 80), 8);
    assert_eq!(next_tab_stop(&stops, 8, 80), 16);
    assert_eq!(next_tab_stop(&stops, 13, 80), 16);
    assert_eq!(next_tab_stop(&stops, 75, 80), 79);
    assert_eq!(next_tab_stop(&stops, 79, 80), 79);
    let stops = vec![false; 10];
    assert_eq!(next_tab_stop(&stops, 2, 10), 9);
    let mut stops = vec![false; 10];
    set_tab_stop(&mut stops, 4, 10);
    assert_eq!(next_tab_stop(&stops, 0, 10), 4);
    set_tab_stop(&mut stops, 12, 10);
    assert_eq!(stops.iter().filter(|&&s| s).count(), 1);
}
