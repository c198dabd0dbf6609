use base64::Engine as _;
use termojinal::csi::{csi_dispatch, CursorShape};
use termojinal::osc::{osc_dispatch, OscAction};
use termojinal::terminal::{RegionScroll, TerminalState};

fn g(v: &[u16]) -> Vec<Vec<u16>> {
    v.iter().map(|&x| vec![x]).collect()
}

fn feed_csi(t: &mut TerminalState, params: &[u16], marker: &[u8], action: char) {
    let a = csi_dispatch(&g(params), marker, action, 24);
    t.csi(&a);
}

fn feed_osc(t: &mut TerminalState, params: &[&[u8]], text: &str, now_ms: i64) {
    let a = osc_dispatch(params);
    t.osc(&a, text.to_string(), now_ms);
}

#[test]
fn fresh_terminal_state() {
    let t = TerminalState::new(80, 24);
    let c = t.cursor();
    assert_eq!((c.row, c.col, c.rows, c.cols), (0, 0, 24, 80));
    assert!(t.cursor_visible());
    assert_eq!(t.cursor_shape(), CursorShape::BlinkingBlock);
    assert!(!t.using_alt());
    assert!(!t.has_pending_responses());
    assert_eq!(t.kitty_keyboard_mode(), 0);
    assert_eq!(t.total_scrolled_lines(), 0);
    assert_eq!(t.title(), "");
    assert!(t.command_history().is_empty());
}

#[test]
fn restore_brings_back_visibility_and_shape() {
    let mut t = TerminalState::new(80, 24);
    feed_csi(&mut t, &[3, 4], b"", 'H');
    feed_csi(&mut t, &[6], b" ", 'q');
    t.esc_dispatch(b"", b'7');
    feed_csi(&mut t, &[25], b"?", 'l');
    feed_csi(&mut t, &[2], b" ", 'q');
    feed_csi(&mut t, &[20, 30], b"", 'H');
    assert!(!t.cursor_visible());
    assert_eq!(t.cursor_shape(), CursorShape::Block);
    t.esc_dispatch(b"", b'8');
    assert_eq!((t.cursor().row, t.cursor().col), (2, 3));
    assert!(t.cursor_visible());
    assert_eq!(t.cursor_shape(), CursorShape::Bar);
}

#[test]
fn restore_without_save_changes_nothing() {
    let mut t = TerminalState::new(80, 24);
    feed_csi(&mut t, &[7, 8], b"", 'H');
    t.esc_dispatch(b"", b'8');
    assert_eq!((t.cursor().row, t.cursor().col), (6, 7));
}

#[test]
fn tabs_and_line_feeds_through_execute() {
    let mut t = TerminalState::new(80, 24);
    assert!(!t.execute(b'\t'));
    assert_eq!(t.cursor().col, 8);
    assert!(!t.execute(b'\t'));
    assert_eq!(t.cursor().col, 16);
    assert!(!t.execute(b'\n'));
    assert_eq!((t.cursor().row, t.cursor().col), (1, 16));
    assert!(!t.execute(b'\r'));
    assert_eq!(t.cursor().col, 0);
    assert!(!t.execute(0x08));
    assert_eq!(t.cursor().col, 0);
    // TBC 3 clears every stop: a tab then goes to the last column.
    feed_csi(&mut t, &[3], b"", 'g');
    t.execute(b'\t');
    assert_eq!(t.cursor().col, 79);
    // HTS at column 4, then a tab from column 0 stops there.
    feed_csi(&mut t, &[1, 5], b"", 'H');
    t.esc_dispatch(b"", b'H');
    t.execute(b'\r');
    t.execute(b'\t');
    assert_eq!(t.cursor().col, 4);
}

#[test]
fn scrolled_lines_are_counted_on_the_main_screen() {
    let mut t = TerminalState::new(80, 3);
    t.execute(b'\n');
    t.execute(b'\n');
    assert_eq!(t.total_scrolled_lines(), 0);
    // On the bottom row a line feed scrolls the region and counts a line.
    assert!(t.execute(b'\n'));
    assert_eq!(t.total_scrolled_lines(), 1);
    assert_eq!(t.esc_dispatch(b"", b'D'), RegionScroll::Up);
    assert_eq!(t.total_scrolled_lines(), 2);
    // SU counts at most the region's height.
    feed_csi(&mut t, &[10], b"", 'S');
    assert_eq!(t.total_scrolled_lines(), 5);
    feed_csi(&mut t, &[1], b"", 'S');
    assert_eq!(t.total_scrolled_lines(), 6);
    // RI on the top row scrolls down and counts nothing.
    feed_csi(&mut t, &[1, 1], b"", 'H');
    assert_eq!(t.esc_dispatch(b"", b'M'), RegionScroll::Down);
    assert_eq!(t.total_scrolled_lines(), 6);
    // On the alternate screen nothing is counted.
    feed_csi(&mut t, &[1049], b"?", 'h');
    assert!(t.using_alt());
    feed_csi(&mut t, &[2], b"", 'S');
    assert_eq!(t.total_scrolled_lines(), 6);
}

#[test]
fn scrolling_inside_a_region_below_the_top_is_not_counted() {
    let mut t = TerminalState::new(80, 10);
    feed_csi(&mut t, &[3, 5], b"", 'r');
    feed_csi(&mut t, &[5, 1], b"", 'H');
    assert!(t.execute(b'\n'));
    feed_csi(&mut t, &[2], b"", 'S');
    assert_eq!(t.total_scrolled_lines(), 0);
}

#[test]
fn full_reset_keeps_session_state() {
    let mut t = TerminalState::new(80, 24);
    feed_osc(&mut t, &[b"2", b"build"], "", 0);
    feed_csi(&mut t, &[10, 10], b"", 'H');
    feed_csi(&mut t, &[1], b">", 'u');
    feed_csi(&mut t, &[5], b"", 'n');
    t.esc_dispatch(b"", b'c');
    assert_eq!((t.cursor().row, t.cursor().col), (0, 0));
    assert_eq!(t.kitty_keyboard_mode(), 0);
    assert!(!t.has_pending_responses());
    assert_eq!(t.title(), "build");
}

#[test]
fn osc_sets_title_cwd_and_notification() {
    let mut t = TerminalState::new(80, 24);
    feed_osc(&mut t, &[b"0", b"vim"], "", 0);
    assert_eq!(t.title(), "vim");
    feed_osc(&mut t, &[b"7", b"file://host/home/user"], "", 0);
    assert_eq!(t.cwd(), "/home/user");
    feed_osc(&mut t, &[b"9", b"done"], "", 0);
    assert_eq!(t.last_notification().map(|s| s.as_str()), Some("done"));
    feed_osc(&mut t, &[b"11", b"?"], "", 0);
    let r = t.drain_responses();
    assert_eq!(r, vec![b"\x1b]11;rgb:1e1e/1e1e/2e2e\x1b\\".to_vec()]);
}

#[test]
fn osc133_records_a_command_on_the_terminal() {
    let mut t = TerminalState::new(80, 24);
    feed_osc(&mut t, &[b"7", b"file://host/tmp"], "", 0);
    feed_osc(&mut t, &[b"133", b"A"], "", 0);
    assert_eq!(t.prompt_mark(), Some((0, 0)));
    feed_csi(&mut t, &[1, 3], b"", 'H');
    feed_osc(&mut t, &[b"133", b"B"], "", 0);
    assert_eq!(t.command_mark(), Some((2, 0)));
    assert_eq!(t.pending_input_start(), Some((0, 2)));
    feed_csi(&mut t, &[2, 1], b"", 'H');
    feed_osc(&mut t, &[b"133", b"C"], "ls -l", 1_000);
    feed_csi(&mut t, &[4, 1], b"", 'H');
    feed_osc(&mut t, &[b"133", b"D;0"], "", 1_250);
    let h = t.command_history();
    assert_eq!(h.len(), 1);
    assert_eq!(h[0].id, 0);
    assert_eq!(h[0].command_text, "ls -l");
    assert_eq!(h[0].cwd, "/tmp");
    assert_eq!(h[0].duration_ms, Some(250));
    assert_eq!(h[0].exit_code, Some(0));
    assert_eq!(h[0].prompt_line, 0);
    assert_eq!(h[0].scrollback_line_start, 1);
    assert_eq!(h[0].scrollback_line_end, Some(3));
}

#[test]
fn osc133_marks_land_on_absolute_lines() {
    let mut t = TerminalState::new(80, 2);
    t.execute(b'\n');
    t.execute(b'\n');
    t.execute(b'\n');
    assert_eq!(t.total_scrolled_lines(), 2);
    feed_osc(&mut t, &[b"133", b"A"], "", 0);
    feed_osc(&mut t, &[b"133", b"C"], "x", 0);
    feed_osc(&mut t, &[b"133", b"D"], "", 5);
    assert_eq!(t.command_history()[0].prompt_line, 3);
}

#[test]
fn disabled_history_ignores_marks_but_notes_them() {
    let mut t = TerminalState::new(80, 24);
    t.set_command_history_enabled(false);
    feed_csi(&mut t, &[3, 5], b"", 'H');
    feed_osc(&mut t, &[b"133", b"A"], "", 0);
    assert_eq!(t.prompt_mark(), Some((4, 2)));
    feed_osc(&mut t, &[b"133", b"B"], "", 0);
    assert_eq!(t.command_mark(), Some((4, 2)));
    feed_osc(&mut t, &[b"133", b"C"], "make", 10);
    feed_osc(&mut t, &[b"133", b"D;1"], "", 20);
    assert!(t.command_history().is_empty());
    assert_eq!(t.pending_input_start(), None);
    // Turned on again, the next command is recorded.
    t.set_command_history_enabled(true);
    feed_osc(&mut t, &[b"133", b"A"], "", 0);
    feed_osc(&mut t, &[b"133", b"C"], "make", 10);
    feed_osc(&mut t, &[b"133", b"D;1"], "", 20);
    assert_eq!(t.command_history().len(), 1);
    assert_eq!(t.command_history()[0].exit_code, Some(1));
}

#[test]
fn history_limit_applies_on_the_terminal() {
    let mut t = TerminalState::new(80, 24);
    t.set_max_command_history(2);
    for (i, cmd) in ["a", "b", "c"].iter().enumerate() {
        feed_osc(&mut t, &[b"133", b"A"], "", 0);
        feed_osc(&mut t, &[b"133", b"C"], cmd, i as i64);
        feed_osc(&mut t, &[b"133", b"D"], "", i as i64);
    }
    let h = t.command_history();
    assert_eq!(h.len(), 2);
    assert_eq!(h[0].command_text, "b");
    assert_eq!(h[1].command_text, "c");
    assert_eq!(h[1].id, 2);
}

#[test]
fn unhandled_osc_actions_leave_the_state() {
    let mut t = TerminalState::new(80, 24);
    let a = osc_dispatch(&[b"52", b"c", b"?"]);
    assert!(matches!(a, OscAction::ClipboardQuery { .. }));
    t.osc(&a, String::new(), 0);
    assert!(!t.has_pending_responses());
    assert_eq!(t.title(), "");
}

fn png_bytes(w: u32, h: u32) -> Vec<u8> {
    let img = image::RgbaImage::from_pixel(w, h, image::Rgba([10, 20, 30, 255]));
    let mut out = std::io::Cursor::new(Vec::new());
    img.write_to(&mut out, image::ImageFormat::Png).expect("png encodes");
    out.into_inner()
}

fn b64(bytes: &[u8]) -> String {
    base64::engine::general_purpose::STANDARD.encode(bytes)
}

#[test]
fn inline_image_is_placed_at_the_cursor_and_capped() {
    let mut t = TerminalState::new(80, 24);
    feed_csi(&mut t, &[3, 5], b"", 'H');
    let payload = format!("File=inline=1;width=100;height=50:{}", b64(&png_bytes(4, 2)));
    assert_eq!(t.place_iterm2_image(&payload), Some(24));
    let p = t.images().placements()[0];
    assert_eq!((p.col, p.row, p.cell_cols, p.cell_rows), (4, 2, 80, 24));
    // A payload that does not decode places nothing.
    assert_eq!(t.place_iterm2_image("File=inline=1:!!!"), None);
    assert_eq!(t.images().placements().len(), 1);
}

#[test]
fn sixel_image_is_placed_at_the_cursor() {
    let mut t = TerminalState::new(80, 24);
    feed_csi(&mut t, &[2, 3], b"", 'H');
    assert_eq!(t.place_sixel(b"#0;2;100;0;0~"), Some(1));
    let p = t.images().placements()[0];
    assert_eq!((p.col, p.row, p.cell_cols, p.cell_rows), (2, 1, 1, 1));
    assert_eq!(t.place_sixel(b""), None);
}

#[test]
fn scroll_up_moves_images_on_the_main_screen() {
    let mut t = TerminalState::new(80, 24);
    feed_csi(&mut t, &[5, 1], b"", 'H');
    assert_eq!(t.place_sixel(b"#0;2;100;0;0~"), Some(1));
    feed_csi(&mut t, &[2], b"", 'S');
    assert_eq!(t.images().placements()[0].row, 2);
    feed_csi(&mut t, &[3], b"", 'S');
    assert!(t.images().placements().is_empty());
}

#[test]
fn inline_image_through_osc() {
    let mut t = TerminalState::new(80, 24);
    let payload = format!("File=inline=1;height=2:{}", b64(&png_bytes(2, 2)));
    let (name, rest) = payload.split_at(payload.find(';').unwrap());
    let rest = &rest[1..];
    assert_eq!(t.osc(&osc_dispatch(&[b"1337", name.as_bytes(), rest.as_bytes()]), String::new(), 0), Some(2));
    assert_eq!(t.images().placements().len(), 1);
}

#[test]
fn multipart_image_through_osc() {
    let mut t = TerminalState::new(80, 24);
    feed_csi(&mut t, &[2, 2], b"", 'H');
    let data = b64(&png_bytes(2, 2));
    let (a, b) = data.split_at(data.len() / 2);
    assert_eq!(t.osc(&osc_dispatch(&[b"1337", b"MultipartFile=inline=1", b"height=30"]), String::new(), 0), None);
    assert!(t.iterm2_transfer_active());
    t.osc(&osc_dispatch(&[b"1337", format!("FilePart={a}").as_bytes()]), String::new(), 0);
    t.osc(&osc_dispatch(&[b"1337", format!("FilePart={b}").as_bytes()]), String::new(), 0);
    assert_eq!(t.osc(&osc_dispatch(&[b"1337", b"FileEnd"]), String::new(), 0), Some(24));
    assert!(!t.iterm2_transfer_active());
    let p = t.images().placements()[0];
    assert_eq!((p.col, p.row, p.cell_rows), (1, 1, 24));
    // FileEnd with nothing in progress places nothing.
    assert_eq!(t.osc(&osc_dispatch(&[b"1337", b"FileEnd"]), String::new(), 0), None);
}

#[test]
fn file_transfer_waits_to_be_taken() {
    let mut t = TerminalState::new(80, 24);
    let name = b64(b"notes.txt");
    let data = b64(b"hi there");
    let a = osc_dispatch(&[b"1337", format!("File=name={name}").as_bytes(), format!("size=8:{data}").as_bytes()]);
    assert!(matches!(a, OscAction::FileTransfer { .. }));
    t.osc(&a, String::new(), 0);
    let (n, d) = t.take_file_transfer().expect("a file was sent");
    assert_eq!(n, "notes.txt");
    assert_eq!(d, b"hi there".to_vec());
    assert!(t.take_file_transfer().is_none());
}

#[test]
fn sixel_through_dcs() {
    let mut t = TerminalState::new(80, 24);
    feed_csi(&mut t, &[3, 3], b"", 'H');
    t.dcs_hook(&g(&[0, 0, 0]), 'q');
    for &b in b"#0;2;0;100;0!3~-~" {
        t.dcs_put(b);
    }
    assert_eq!(t.dcs_unhook(), Some(1));
    let p = t.images().placements()[0];
    assert_eq!((p.col, p.row, p.src_width, p.src_height), (2, 2, 3, 12));
    // Bytes outside a DCS the terminal handles are dropped.
    t.dcs_hook(&g(&[1]), 'p');
    t.dcs_put(b'x');
    assert_eq!(t.dcs_unhook(), None);
    assert_eq!(t.images().placements().len(), 1);
}

#[test]
fn other_sequences_leave_the_history() {
    let mut t = TerminalState::new(80, 4);
    feed_osc(&mut t, &[b"133", b"A"], "", 0);
    feed_osc(&mut t, &[b"133", b"C"], "true", 0);
    feed_osc(&mut t, &[b"133", b"D;0"], "", 3);
    assert_eq!(t.command_history().len(), 1);
    let (text, id) = (t.command_history()[0].command_text.clone(), t.command_history()[0].id);
    feed_csi(&mut t, &[2], b"", 'J');
    feed_csi(&mut t, &[1049], b"?", 'h');
    feed_csi(&mut t, &[1049], b"?", 'l');
    t.esc_dispatch(b"", b'c');
    for _ in 0..6 {
        t.execute(b'\n');
    }
    t.dcs_hook(&g(&[0]), 'q');
    t.dcs_put(b'~');
    t.dcs_unhook();
    assert_eq!(t.command_history().len(), 1);
    assert_eq!(t.command_history()[0].command_text, text);
    assert_eq!(t.command_history()[0].id, id);
}
