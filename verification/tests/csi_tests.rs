use termojinal::terminal::TerminalState;
use termojinal::cursor::CursorState;
use termojinal::csi::{
    csi_dispatch, cursor_position_report, private_mode_change, CsiAction, CursorShape,
    EraseRegion, KeyboardFlagStack, LineRegion, ModeChange, MouseFormat, MouseMode, TabClear,
};

fn g(v: &[u16]) -> Vec<Vec<u16>> {
    v.iter().map(|&x| vec![x]).collect()
}


fn feed_csi(t: &mut TerminalState, params: &[u16], marker: &[u8], action: char) {
    let a = csi_dispatch(&g(params), marker, action, 24);
    t.csi(&a);
}

#[test]
fn test_dsr_status_report() {
    let mut term = TerminalState::new(80, 24);
    feed_csi(&mut term, &[5], b"", 'n');
    let responses = term.drain_responses();
    assert_eq!(responses.len(), 1);
    assert_eq!(responses[0], b"\x1b[0n".to_vec());
}

#[test]
fn test_dsr_cursor_position_report() {
    let mut term = TerminalState::new(80, 24);
    // Move cursor to (9, 4).
    feed_csi(&mut term, &[5, 10], b"", 'H');
    feed_csi(&mut term, &[6], b"", 'n');
    let responses = term.drain_responses();
    assert_eq!(responses.len(), 1);
    assert_eq!(responses[0], b"\x1b[5;10R".to_vec());
    assert_eq!(cursor_position_report(4, 9), b"\x1b[5;10R".to_vec());
}

#[test]
fn test_da_primary() {
    match csi_dispatch(&g(&[0]), b"", 'c', 24) {
        CsiAction::Reply(r) => {
            let resp = std::str::from_utf8(&r).expect("valid utf8");
            assert!(resp.starts_with("\x1b[?"));
            assert!(resp.contains("62"));
            assert!(resp.contains("4"));
            assert_eq!(resp, "\x1b[?62;4;22c");
        }
        other => panic!("unexpected {other:?}"),
    }
    assert!(matches!(csi_dispatch(&g(&[1]), b"", 'c', 24), CsiAction::Ignore));
}

#[test]
fn test_da_secondary() {
    match csi_dispatch(&g(&[0]), b">", 'c', 24) {
        CsiAction::Reply(r) => {
            let resp = std::str::from_utf8(&r).expect("valid utf8");
            assert!(resp.starts_with("\x1b[>"));
            assert_eq!(resp, "\x1b[>1;1;0c");
        }
        other => panic!("unexpected {other:?}"),
    }
}

#[test]
fn cursor_movement_defaults() {
    assert!(matches!(csi_dispatch(&Vec::new(), b"", 'A', 24), CsiAction::CursorUp(1)));
    assert!(matches!(csi_dispatch(&g(&[0]), b"", 'B', 24), CsiAction::CursorDown(1)));
    assert!(matches!(csi_dispatch(&g(&[7]), b"", 'C', 24), CsiAction::CursorForward(7)));
    assert!(matches!(csi_dispatch(&g(&[3]), b"", 'D', 24), CsiAction::CursorBack(3)));
    assert!(matches!(csi_dispatch(&g(&[2]), b"", 'E', 24), CsiAction::NextLine(2)));
    assert!(matches!(csi_dispatch(&g(&[2]), b"", 'F', 24), CsiAction::PrecedingLine(2)));
    assert!(matches!(csi_dispatch(&g(&[12]), b"", 'G', 24), CsiAction::CursorColumn(11)));
    assert!(matches!(csi_dispatch(&Vec::new(), b"", 'f', 24), CsiAction::CursorPosition { row: 0, col: 0 }));
    assert!(matches!(csi_dispatch(&g(&[4]), b"", 'd', 24), CsiAction::LinePosition(3)));
    assert!(matches!(csi_dispatch(&vec![vec![]], b"", 'A', 24), CsiAction::CursorUp(1)));
}

#[test]
fn erase_and_edit() {
    assert!(matches!(csi_dispatch(&Vec::new(), b"", 'J', 24), CsiAction::EraseInDisplay(EraseRegion::Below)));
    assert!(matches!(csi_dispatch(&g(&[1]), b"", 'J', 24), CsiAction::EraseInDisplay(EraseRegion::Above)));
    assert!(matches!(csi_dispatch(&g(&[3]), b"", 'J', 24), CsiAction::EraseInDisplay(EraseRegion::All)));
    assert!(matches!(csi_dispatch(&g(&[4]), b"", 'J', 24), CsiAction::Ignore));
    assert!(matches!(csi_dispatch(&g(&[2]), b"", 'K', 24), CsiAction::EraseInLine(LineRegion::Whole)));
    assert!(matches!(csi_dispatch(&g(&[1]), b"", 'K', 24), CsiAction::EraseInLine(LineRegion::FromStart)));
    assert!(matches!(csi_dispatch(&g(&[2]), b"", 'L', 24), CsiAction::InsertLines(2)));
    assert!(matches!(csi_dispatch(&g(&[2]), b"", 'M', 24), CsiAction::DeleteLines(2)));
    assert!(matches!(csi_dispatch(&g(&[2]), b"", 'P', 24), CsiAction::DeleteChars(2)));
    assert!(matches!(csi_dispatch(&g(&[2]), b"", '@', 24), CsiAction::InsertChars(2)));
    assert!(matches!(csi_dispatch(&g(&[2]), b"", 'X', 24), CsiAction::EraseChars(2)));
    assert!(matches!(csi_dispatch(&g(&[2]), b"", 'S', 24), CsiAction::ScrollUp(2)));
    assert!(matches!(csi_dispatch(&g(&[2]), b"", 'T', 24), CsiAction::ScrollDown(2)));
    assert!(matches!(csi_dispatch(&g(&[1]), b"", 'm', 24), CsiAction::SelectGraphicRendition));
    assert!(matches!(csi_dispatch(&g(&[2]), b"", 'Z', 24), CsiAction::BackTab(2)));
    assert!(matches!(csi_dispatch(&g(&[3]), b"", 'g', 24), CsiAction::ClearTabStops(TabClear::All)));
    assert!(matches!(csi_dispatch(&Vec::new(), b"", 'g', 24), CsiAction::ClearTabStops(TabClear::Current)));
    assert!(matches!(csi_dispatch(&g(&[1]), b"", 'y', 24), CsiAction::Ignore));
}

#[test]
fn test_scroll_region() {
    // An 80x10 screen, CSI 3;7 r: margins stored 0-based, cursor homed.
    let stops = vec![false; 80];
    let mut cur = CursorState::new(80, 10);
    cur.apply_csi(&csi_dispatch(&g(&[4, 8]), b"", 'H', 10), &stops);
    assert_eq!((cur.row, cur.col), (3, 7));
    let action = csi_dispatch(&g(&[3, 7]), b"", 'r', 10);
    assert!(matches!(action, CsiAction::SetMargins { top: 2, bottom: 6 }));
    cur.apply_csi(&action, &stops);
    assert_eq!((cur.scroll_top, cur.scroll_bottom), (2, 6));
    assert_eq!((cur.row, cur.col), (0, 0));
}

#[test]
fn scroll_region_edges() {
    assert!(matches!(csi_dispatch(&g(&[5, 10]), b"", 'r', 24), CsiAction::SetMargins { top: 4, bottom: 9 }));
    assert!(matches!(csi_dispatch(&Vec::new(), b"", 'r', 24), CsiAction::SetMargins { top: 0, bottom: 23 }));
    assert!(matches!(csi_dispatch(&g(&[5, 99]), b"", 'r', 24), CsiAction::SetMargins { top: 4, bottom: 23 }));
    assert!(matches!(csi_dispatch(&g(&[10, 5]), b"", 'r', 24), CsiAction::SetMargins { top: 0, bottom: 23 }));
    assert!(matches!(csi_dispatch(&g(&[1, 1]), b"", 'r', 24), CsiAction::SetMargins { top: 0, bottom: 23 }));
    assert!(matches!(csi_dispatch(&g(&[1]), b"", 'r', 0), CsiAction::Ignore));
}

#[test]
fn modes_and_cursor_shape() {
    assert!(matches!(csi_dispatch(&g(&[4]), b"", 'h', 24), CsiAction::InsertMode(true)));
    assert!(matches!(csi_dispatch(&g(&[20]), b"", 'l', 24), CsiAction::LinefeedMode(false)));
    assert!(matches!(csi_dispatch(&g(&[3]), b"", 'h', 24), CsiAction::Ignore));
    assert!(matches!(csi_dispatch(&g(&[2]), b" ", 'q', 24), CsiAction::SetCursorShape(CursorShape::Block)));
    assert!(matches!(csi_dispatch(&g(&[6]), b" ", 'q', 24), CsiAction::SetCursorShape(CursorShape::Bar)));
    assert!(matches!(csi_dispatch(&g(&[9]), b" ", 'q', 24), CsiAction::SetCursorShape(CursorShape::BlinkingBlock)));
    match csi_dispatch(&g(&[1000, 1006]), b"?", 'h', 24) {
        CsiAction::PrivateModes { codes, enable } => {
            assert_eq!(codes, vec![1000, 1006]);
            assert!(enable);
        }
        other => panic!("unexpected {other:?}"),
    }
}

fn feed_keyboard(stack: &mut KeyboardFlagStack, params: &[u16], marker: &[u8]) {
    let action = csi_dispatch(&g(params), marker, 'u', 24);
    stack.apply(&action);
}

#[test]
fn test_kitty_keyboard_push_pop() {
    let mut term = TerminalState::new(80, 24);
    assert_eq!(term.kitty_keyboard_mode(), 0);
    feed_csi(&mut term, &[1], b">", 'u');
    assert_eq!(term.kitty_keyboard_mode(), 1);
    feed_csi(&mut term, &[3], b">", 'u');
    assert_eq!(term.kitty_keyboard_mode(), 3);
    feed_csi(&mut term, &[1], b"<", 'u');
    assert_eq!(term.kitty_keyboard_mode(), 1);
    feed_csi(&mut term, &[1], b"<", 'u');
    assert_eq!(term.kitty_keyboard_mode(), 0);
}

#[test]
fn test_kitty_keyboard_pop_multiple() {
    let mut term = TerminalState::new(80, 24);
    feed_csi(&mut term, &[1], b">", 'u');
    feed_csi(&mut term, &[2], b">", 'u');
    feed_csi(&mut term, &[3], b">", 'u');
    assert_eq!(term.kitty_keyboard_mode(), 3);
    feed_csi(&mut term, &[2], b"<", 'u');
    assert_eq!(term.kitty_keyboard_mode(), 1);
}

#[test]
fn test_kitty_keyboard_pop_empty_stack() {
    let mut stack = KeyboardFlagStack::new();
    feed_keyboard(&mut stack, &[5], b"<");
    assert_eq!(stack.mode(), 0);
}

#[test]
fn test_kitty_keyboard_query() {
    let mut stack = KeyboardFlagStack::new();
    feed_keyboard(&mut stack, &[], b"?");
    assert_eq!(stack.mode(), 0);
    feed_keyboard(&mut stack, &[5], b">");
    feed_keyboard(&mut stack, &[], b"?");
    assert_eq!(stack.mode(), 5);
}

#[test]
fn keyboard_actions_decoded() {
    assert!(matches!(csi_dispatch(&g(&[1]), b">", 'u', 24), CsiAction::PushKeyboardFlags(1)));
    assert!(matches!(csi_dispatch(&g(&[3]), b"<", 'u', 24), CsiAction::PopKeyboardFlags(3)));
    assert!(matches!(csi_dispatch(&Vec::new(), b"<", 'u', 24), CsiAction::PopKeyboardFlags(1)));
    assert!(matches!(csi_dispatch(&Vec::new(), b"?", 'u', 24), CsiAction::Ignore));
}

#[test]
fn push_then_pop_restores_flags() {
    let mut stack = KeyboardFlagStack::new();
    stack.push(7);
    let before = stack.mode();
    stack.push(9);
    assert_eq!(stack.mode(), 9);
    stack.pop(1);
    assert_eq!(stack.mode(), before);
}

#[test]
fn test_bracketed_paste_mode() {
    assert_eq!(private_mode_change(2004, true), ModeChange::BracketedPaste(true));
    assert_eq!(private_mode_change(2004, false), ModeChange::BracketedPaste(false));
}

#[test]
fn private_modes() {
    assert_eq!(private_mode_change(1, true), ModeChange::ApplicationCursorKeys(true));
    assert_eq!(private_mode_change(6, false), ModeChange::OriginMode(false));
    assert_eq!(private_mode_change(7, false), ModeChange::AutoWrap(false));
    assert_eq!(private_mode_change(9, true), ModeChange::Mouse(MouseMode::Click));
    assert_eq!(private_mode_change(1000, false), ModeChange::Mouse(MouseMode::Off));
    assert_eq!(private_mode_change(1002, true), ModeChange::Mouse(MouseMode::ButtonMotion));
    assert_eq!(private_mode_change(1003, true), ModeChange::Mouse(MouseMode::AnyMotion));
    assert_eq!(private_mode_change(1004, true), ModeChange::FocusEvents(true));
    assert_eq!(private_mode_change(1005, true), ModeChange::MouseEncoding(MouseFormat::Utf8));
    assert_eq!(private_mode_change(1006, true), ModeChange::MouseEncoding(MouseFormat::Sgr));
    assert_eq!(private_mode_change(1015, true), ModeChange::MouseEncoding(MouseFormat::Urxvt));
    assert_eq!(private_mode_change(1006, false), ModeChange::MouseEncoding(MouseFormat::X10));
    assert_eq!(private_mode_change(25, false), ModeChange::CursorVisible(false));
    assert_eq!(private_mode_change(47, true), ModeChange::AlternateScreen(true));
    assert_eq!(private_mode_change(1047, false), ModeChange::AlternateScreen(false));
    assert_eq!(private_mode_change(1049, true), ModeChange::AlternateScreen(true));
    assert_eq!(private_mode_change(1048, true), ModeChange::SaveCursor);
    assert_eq!(private_mode_change(1048, false), ModeChange::RestoreCursor);
    assert_eq!(private_mode_change(80, true), ModeChange::SixelDisplayMode(true));
    assert_eq!(private_mode_change(2004, true), ModeChange::BracketedPaste(true));
    assert_eq!(private_mode_change(12, true), ModeChange::Ignore);
    assert_eq!(private_mode_change(9999, true), ModeChange::Ignore);
}

#[test]
fn position_reports_are_one_based() {
    assert_eq!(cursor_position_report(0, 0), b"\x1b[1;1R".to_vec());
    assert_eq!(cursor_position_report(23, 79), b"\x1b[24;80R".to_vec());
    assert_eq!(cursor_position_report(99, 1234), b"\x1b[100;1235R".to_vec());
}
