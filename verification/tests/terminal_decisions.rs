use termojinal::terminal::TerminalState;
use termojinal::color::{parse_extended_color, Color, NamedColor};
use termojinal::sgr::{apply_sgr, Pen};
use termojinal::control::{control_action, ControlAction, SavedCursor, SavedCursors};
use termojinal::csi::{
    csi_dispatch, private_mode_change, CsiAction, CursorShape, ModeChange, MouseFormat, MouseMode,
};
use termojinal::cursor::CursorState;
use termojinal::screen::Screens;
use termojinal::print::{erase_in_line, plan_print, write_char, Cell, PrintOutcome};
use termojinal::drcs::{begin_decdld, load_decdld_glyphs, DrcsFontStore};
use termojinal::osc::{osc_dispatch, OscAction};
use termojinal::width::char_width;

fn g(v: &[u16]) -> Vec<Vec<u16>> {
    v.iter().map(|&x| vec![x]).collect()
}


fn feed_csi(t: &mut TerminalState, params: &[u16], marker: &[u8], action: char) {
    let a = csi_dispatch(&g(params), marker, action, 24);
    t.csi(&a);
}

/// The mode changes that `CSI ? codes h` (or `l`) asks for, in order.
fn private_modes(codes: &[u16], enable: bool) -> Vec<ModeChange> {
    let marker: &[u8] = b"?";
    let action = if enable { 'h' } else { 'l' };
    match csi_dispatch(&g(codes), marker, action, 24) {
        CsiAction::PrivateModes { codes, enable } => {
            codes.iter().map(|&c| private_mode_change(c, enable)).collect()
        }
        other => panic!("unexpected {other:?}"),
    }
}

#[test]
fn test_cursor_movement() {
    assert!(matches!(
        csi_dispatch(&g(&[5, 10]), b"", 'H', 24),
        CsiAction::CursorPosition { row: 4, col: 9 }
    ));
}

#[test]
fn test_erase_in_line() {
    // A 10x1 screen holding ABCDEFGHIJ; CSI 6 G then CSI K.
    let mut row = vec![Cell::blank(); 10];
    for (i, c) in "ABCDEFGHIJ".chars().enumerate() {
        write_char(&mut row, i, c, 1, Pen::new(), false);
    }
    let mut cur = CursorState::new(10, 1);
    let stops = vec![false; 10];
    cur.apply_csi(&csi_dispatch(&g(&[6]), b"", 'G', 1), &stops);
    assert_eq!(cur.col, 5);
    match csi_dispatch(&Vec::new(), b"", 'K', 1) {
        CsiAction::EraseInLine(region) => erase_in_line(&mut row, cur.col, region, Color::Default),
        other => panic!("unexpected {other:?}"),
    }
    assert_eq!(row[4].c, 'E');
    assert_eq!(row[5].c, ' ');
    assert_eq!(row[9].c, ' ');
}

/// Apply the screen switches that `CSI ? code h/l` asks for.
fn switch_screens(screens: &mut Screens, code: u16, enable: bool) {
    for m in private_modes(&[code], enable) {
        match m {
            ModeChange::AlternateScreen(true) => screens.enter_alt(),
            ModeChange::AlternateScreen(false) => screens.leave_alt(),
            other => panic!("unexpected {other:?}"),
        }
    }
}

fn put_text(screens: &mut Screens, text: &str) {
    for (i, c) in text.chars().enumerate() {
        screens.write(0, i, c, 1, Pen::new(), false);
    }
}

#[test]
fn test_alternate_screen() {
    let mut screens = Screens::new(80, 24);
    put_text(&mut screens, "Main");
    assert_eq!(screens.cell(0, 0).c, 'M');
    switch_screens(&mut screens, 1049, true);
    assert!(screens.using_alt());
    assert_eq!(screens.cell(0, 0).c, ' ');
    put_text(&mut screens, "Alt");
    assert_eq!(screens.cell(0, 0).c, 'A');
    switch_screens(&mut screens, 1049, false);
    assert!(!screens.using_alt());
    assert_eq!(screens.cell(0, 0).c, 'M');
}

#[test]
fn test_sgr_truecolor() {
    // CSI 38;2;255;128;0 m: the colour follows the 38; the next group is past it.
    let groups = g(&[38, 2, 255, 128, 0]);
    assert_eq!(parse_extended_color(&groups, 1), (Color::Rgb(255, 128, 0), 5));
}

#[test]
fn test_sgr_256color() {
    let groups = g(&[38, 5, 196]);
    assert_eq!(parse_extended_color(&groups, 1), (Color::Indexed(196), 3));
}

#[test]
fn test_wide_char() {
    // "A\u{6f22}B" on an 80-column line.
    let mut row = vec![Cell::blank(); 80];
    let mut col = 0;
    for c in "A\u{6f22}B".chars() {
        match plan_print(c, false, 80, 24, col, false, true) {
            PrintOutcome::Write { col: at, width, next_col, .. } => {
                write_char(&mut row, at, c, width, Pen::new(), false);
                col = next_col;
            }
            other => panic!("unexpected {other:?}"),
        }
    }
    assert_eq!(row[0].c, 'A');
    assert_eq!(row[0].width, 1);
    assert_eq!(row[1].c, '\u{6f22}');
    assert_eq!(row[1].width, 2);
    assert_eq!(row[2].width, 0);
    assert_eq!(row[3].c, 'B');
    assert_eq!(col, 4);
}

#[test]
fn test_emoji() {
    assert_eq!(char_width('\u{1F600}', false), 2);
}

#[test]
fn test_cjk_width_terminal_print() {
    assert_eq!(char_width('\u{25EF}', true), 2);
}

#[test]
fn test_narrow_width_terminal_print() {
    assert_eq!(char_width('\u{25EF}', false), 1);
}

#[test]
fn test_mouse_mode_click() {
    assert_eq!(private_modes(&[1000], true), vec![ModeChange::Mouse(MouseMode::Click)]);
    assert_eq!(private_modes(&[1000], false), vec![ModeChange::Mouse(MouseMode::Off)]);
}

#[test]
fn test_mouse_mode_button_motion() {
    assert_eq!(private_modes(&[1002], true), vec![ModeChange::Mouse(MouseMode::ButtonMotion)]);
    assert_eq!(private_modes(&[1002], false), vec![ModeChange::Mouse(MouseMode::Off)]);
}

#[test]
fn test_mouse_mode_any_motion() {
    assert_eq!(private_modes(&[1003], true), vec![ModeChange::Mouse(MouseMode::AnyMotion)]);
    assert_eq!(private_modes(&[1003], false), vec![ModeChange::Mouse(MouseMode::Off)]);
}

#[test]
fn test_mouse_format_sgr() {
    assert_eq!(private_modes(&[1006], true), vec![ModeChange::MouseEncoding(MouseFormat::Sgr)]);
    assert_eq!(private_modes(&[1006], false), vec![ModeChange::MouseEncoding(MouseFormat::X10)]);
}

#[test]
fn test_mouse_format_utf8() {
    assert_eq!(private_modes(&[1005], true), vec![ModeChange::MouseEncoding(MouseFormat::Utf8)]);
    assert_eq!(private_modes(&[1005], false), vec![ModeChange::MouseEncoding(MouseFormat::X10)]);
}

#[test]
fn test_mouse_format_urxvt() {
    assert_eq!(private_modes(&[1015], true), vec![ModeChange::MouseEncoding(MouseFormat::Urxvt)]);
    assert_eq!(private_modes(&[1015], false), vec![ModeChange::MouseEncoding(MouseFormat::X10)]);
}

#[test]
fn test_focus_events_mode() {
    assert_eq!(private_modes(&[1004], true), vec![ModeChange::FocusEvents(true)]);
    assert_eq!(private_modes(&[1004], false), vec![ModeChange::FocusEvents(false)]);
}

#[test]
fn test_osc8_hyperlink() {
    let mut term = TerminalState::new(80, 24);
    let start = osc_dispatch(&[b"8", b"", b"https://example.com"]);
    match &start {
        OscAction::Hyperlink(Some(uri)) => assert_eq!(uri, "https://example.com"),
        other => panic!("unexpected {other:?}"),
    }
    term.osc(&start, String::new(), 0);
    assert_eq!(term.current_hyperlink().map(|s| s.as_str()), Some("https://example.com"));
    let end = osc_dispatch(&[b"8", b"", b""]);
    assert!(matches!(end, OscAction::Hyperlink(None)));
    term.osc(&end, String::new(), 0);
    assert_eq!(term.current_hyperlink(), None);
}

#[test]
fn test_decckm_application_cursor_keys() {
    assert_eq!(private_modes(&[1], true), vec![ModeChange::ApplicationCursorKeys(true)]);
    assert_eq!(private_modes(&[1], false), vec![ModeChange::ApplicationCursorKeys(false)]);
}

#[test]
fn test_decom_origin_mode() {
    let mut term = TerminalState::new(80, 24);
    assert!(!term.cursor().origin_mode);
    feed_csi(&mut term, &[5, 20], b"", 'r');
    feed_csi(&mut term, &[10, 10], b"", 'H');
    assert_eq!((term.cursor().row, term.cursor().col), (9, 9));
    feed_csi(&mut term, &[6], b"?", 'h');
    assert!(term.cursor().origin_mode);
    assert_eq!((term.cursor().row, term.cursor().col), (4, 0));
    feed_csi(&mut term, &[6], b"?", 'l');
    assert!(!term.cursor().origin_mode);
    assert_eq!((term.cursor().row, term.cursor().col), (0, 0));
}

#[test]
fn test_x10_mouse_mode() {
    assert_eq!(private_modes(&[9], true), vec![ModeChange::Mouse(MouseMode::Click)]);
    assert_eq!(private_modes(&[9], false), vec![ModeChange::Mouse(MouseMode::Off)]);
}

#[test]
fn test_decsdm_sixel_display_mode() {
    assert_eq!(private_modes(&[80], true), vec![ModeChange::SixelDisplayMode(true)]);
    assert_eq!(private_modes(&[80], false), vec![ModeChange::SixelDisplayMode(false)]);
}

#[test]
fn test_mode_1047_alt_screen() {
    let mut screens = Screens::new(80, 24);
    put_text(&mut screens, "Main");
    assert_eq!(screens.cell(0, 0).c, 'M');
    switch_screens(&mut screens, 1047, true);
    assert!(screens.using_alt());
    assert_eq!(screens.cell(0, 0).c, ' ');
    switch_screens(&mut screens, 1047, false);
    assert!(!screens.using_alt());
    assert_eq!(screens.cell(0, 0).c, 'M');
}

#[test]
fn test_mode_1048_save_restore_cursor() {
    let mut term = TerminalState::new(80, 24);
    feed_csi(&mut term, &[5, 10], b"", 'H');
    assert_eq!((term.cursor().row, term.cursor().col), (4, 9));
    assert_eq!(private_modes(&[1048], true), vec![ModeChange::SaveCursor]);
    feed_csi(&mut term, &[1048], b"?", 'h');
    feed_csi(&mut term, &[1, 1], b"", 'H');
    assert_eq!((term.cursor().row, term.cursor().col), (0, 0));
    assert_eq!(private_modes(&[1048], false), vec![ModeChange::RestoreCursor]);
    feed_csi(&mut term, &[1048], b"?", 'l');
    assert_eq!((term.cursor().row, term.cursor().col), (4, 9));
}

#[test]
fn test_lnm_linefeed_mode() {
    let stops = vec![false; 80];
    let mut cur = CursorState::new(80, 24);
    assert!(!cur.linefeed_mode);
    cur.apply_csi(&csi_dispatch(&g(&[20]), b"", 'h', 24), &stops);
    assert!(cur.linefeed_mode);
    cur.apply_csi(&csi_dispatch(&g(&[1, 6]), b"", 'H', 24), &stops);
    assert_eq!(cur.col, 5);
    assert_eq!(control_action(b'\n'), ControlAction::LineFeed);
    assert!(!cur.line_feed());
    assert_eq!((cur.row, cur.col), (1, 0));
    cur.apply_csi(&csi_dispatch(&g(&[20]), b"", 'l', 24), &stops);
    assert!(!cur.linefeed_mode);
    cur.apply_csi(&csi_dispatch(&g(&[3, 6]), b"", 'H', 24), &stops);
    assert_eq!(cur.col, 5);
    cur.line_feed();
    assert_eq!((cur.row, cur.col), (3, 5));
}

#[test]
fn line_feed_at_the_bottom_margin_scrolls() {
    let stops = vec![false; 80];
    let mut cur = CursorState::new(80, 24);
    cur.apply_csi(&csi_dispatch(&g(&[2, 5]), b"", 'r', 24), &stops);
    cur.apply_csi(&csi_dispatch(&g(&[5, 1]), b"", 'H', 24), &stops);
    assert!(cur.line_feed());
    assert_eq!(cur.row, 4);
    cur.apply_csi(&csi_dispatch(&g(&[24, 1]), b"", 'H', 24), &stops);
    assert!(!cur.line_feed());
    assert_eq!(cur.row, 23);
}

#[test]
fn cursor_moves_are_clamped() {
    let mut stops = vec![false; 80];
    stops[8] = true;
    stops[16] = true;
    let mut cur = CursorState::new(80, 24);
    cur.apply_csi(&csi_dispatch(&g(&[99, 999]), b"", 'H', 24), &stops);
    assert_eq!((cur.row, cur.col), (23, 79));
    cur.apply_csi(&csi_dispatch(&g(&[50]), b"", 'A', 24), &stops);
    assert_eq!(cur.row, 0);
    cur.apply_csi(&csi_dispatch(&g(&[5]), b"", 'B', 24), &stops);
    assert_eq!(cur.row, 5);
    cur.apply_csi(&csi_dispatch(&g(&[20]), b"", 'G', 24), &stops);
    cur.apply_csi(&csi_dispatch(&g(&[1]), b"", 'Z', 24), &stops);
    assert_eq!(cur.col, 16);
    cur.apply_csi(&csi_dispatch(&g(&[2]), b"", 'Z', 24), &stops);
    assert_eq!(cur.col, 0);
    cur.carriage_return();
    cur.backspace();
    assert_eq!(cur.col, 0);
}

#[test]
fn test_decdld_basic_dcs_hook() {
    // DCS 0;0;0;10;0;0;20;0 { B~ ST
    let mut term = TerminalState::new(80, 24);
    term.dcs_hook(&g(&[0, 0, 0, 10, 0, 0, 20, 0]), '{');
    for &b in b"B~" {
        term.dcs_put(b);
    }
    assert_eq!(term.dcs_unhook(), None);
    assert!(!term.drcs_fonts().is_empty());
    // The same through the pieces.
    let mut store = DrcsFontStore::new();
    let hd = begin_decdld(&g(&[0, 0, 0, 10, 0, 0, 20, 0]), &mut store);
    load_decdld_glyphs(&hd, b"B~", &mut store);
    assert_eq!(store.glyphs().len(), term.drcs_fonts().glyphs().len());
}

#[test]
fn test_response_queue_drain() {
    let mut term = TerminalState::new(80, 24);
    assert!(!term.has_pending_responses());
    feed_csi(&mut term, &[5], b"", 'n');
    assert!(term.has_pending_responses());
    let responses = term.drain_responses();
    assert_eq!(responses.len(), 1);
    assert!(!term.has_pending_responses());
}

#[test]
fn test_multiple_private_modes() {
    assert_eq!(
        private_modes(&[1, 7, 2004], true),
        vec![
            ModeChange::ApplicationCursorKeys(true),
            ModeChange::AutoWrap(true),
            ModeChange::BracketedPaste(true),
        ]
    );
    assert_eq!(
        private_modes(&[1, 7, 2004], false),
        vec![
            ModeChange::ApplicationCursorKeys(false),
            ModeChange::AutoWrap(false),
            ModeChange::BracketedPaste(false),
        ]
    );
}

#[test]
fn test_sgr_colors() {
    // CSI 1;31;44 m
    let mut pen = Pen::new();
    apply_sgr(&mut pen, &g(&[1, 31, 44]));
    assert_eq!(pen.fg, Color::Named(NamedColor::Red));
    assert_eq!(pen.bg, Color::Named(NamedColor::Blue));
    assert!(pen.attrs.bold);
}

#[test]
fn sgr_extended_and_default_colours() {
    let mut pen = Pen::new();
    apply_sgr(&mut pen, &g(&[38, 5, 196, 48, 2, 1, 2, 3, 58, 5, 9, 4]));
    assert_eq!(pen.fg, Color::Indexed(196));
    assert_eq!(pen.bg, Color::Rgb(1, 2, 3));
    assert_eq!(pen.underline_color, Color::Indexed(9));
    assert!(pen.attrs.underline);
    apply_sgr(&mut pen, &g(&[39, 49, 59]));
    assert_eq!(pen.fg, Color::Default);
    assert_eq!(pen.bg, Color::Default);
    assert_eq!(pen.underline_color, Color::Default);
    assert!(pen.attrs.underline);
    apply_sgr(&mut pen, &g(&[97, 100]));
    assert_eq!(pen.fg, Color::Named(NamedColor::BrightWhite));
    assert_eq!(pen.bg, Color::Named(NamedColor::BrightBlack));
}

#[test]
fn sgr_attributes_set_and_clear() {
    let mut pen = Pen::new();
    apply_sgr(&mut pen, &g(&[1, 2, 3, 5, 7, 8, 9]));
    let a = pen.attrs;
    assert!(a.bold && a.dim && a.italic && a.blink && a.reverse && a.hidden && a.strikethrough);
    apply_sgr(&mut pen, &g(&[22, 23, 25, 27, 28, 29]));
    assert_eq!(pen, Pen::new());
    apply_sgr(&mut pen, &vec![vec![4, 3], vec![21]]);
    assert!(pen.attrs.curly_underline && pen.attrs.double_underline);
    apply_sgr(&mut pen, &vec![vec![4, 0]]);
    assert!(!pen.attrs.curly_underline && !pen.attrs.double_underline && !pen.attrs.underline);
    apply_sgr(&mut pen, &vec![vec![4, 5], vec![24]]);
    assert!(!pen.attrs.dashed_underline);
}

#[test]
fn sgr_reset_forms() {
    let mut pen = Pen::new();
    apply_sgr(&mut pen, &g(&[1, 31]));
    apply_sgr(&mut pen, &Vec::new());
    assert_eq!(pen, Pen::new());
    apply_sgr(&mut pen, &g(&[1, 31, 0, 4]));
    assert!(!pen.attrs.bold && pen.attrs.underline);
    assert_eq!(pen.fg, Color::Default);
    apply_sgr(&mut pen, &g(&[12345]));
    assert!(pen.attrs.underline);
}
