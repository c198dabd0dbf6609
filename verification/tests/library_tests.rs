use base64::Engine as _;
use std::io::Cursor;
use termojinal::color::{parse_extended_color, Color};
use termojinal::history::{
    abs_line, abs_line_to_scroll_offset, current_visible_command_idx, find_next_command_idx,
    find_prev_command_idx, jump_to_command, jump_to_next_command, jump_to_prev_command,
    viewport_top_abs,
};
use termojinal::ipc::ipc_response;
use termojinal::process_info::{parse_child_pid, parse_process_name};
use termojinal::iterm2::{parse_iterm2_dimension, parse_iterm2_image, Iterm2Accumulator};
use termojinal::kitty::{
    parse_kitty_header, process_kitty_command, KittyAccumulator, KittyAction, KittyFormat,
};
use termojinal::sixel::{decode_sixel, hls_to_rgb, process_sixel};
use termojinal::tab_title::{
    default_tab_format, default_tab_position, expand_variables, format_tab_title,
    resolve_variable,
};
use termojinal::text::{replace_str, usize_to_string};
use termojinal::{is_jpeg, is_png, ImagePlacement, ImageStore, TerminalImage};

fn png_bytes(w: u32, h: u32) -> Vec<u8> {
    let img = image::RgbaImage::from_pixel(w, h, image::Rgba([10, 20, 30, 255]));
    let mut out = Cursor::new(Vec::new());
    img.write_to(&mut out, image::ImageFormat::Png).expect("png encodes");
    out.into_inner()
}

fn jpeg_bytes(w: u32, h: u32) -> Vec<u8> {
    let img = image::RgbImage::from_pixel(w, h, image::Rgb([200, 100, 50]));
    let mut out = Cursor::new(Vec::new());
    img.write_to(&mut out, image::ImageFormat::Jpeg).expect("jpeg encodes");
    out.into_inner()
}

fn b64(bytes: &[u8]) -> String {
    base64::engine::general_purpose::STANDARD.encode(bytes)
}

// -- Tab titles --

#[test]
fn tab_title_prefers_title() {
    let f = default_tab_format();
    assert_eq!(format_tab_title(&f, "vim", "/home/u/src", 3, 0), "vim");
}

#[test]
fn tab_title_falls_back_to_cwd_base() {
    let f = default_tab_format();
    assert_eq!(format_tab_title(&f, "", "/home/u/src", 3, 0), "src");
    assert_eq!(format_tab_title(&f, "", "/home/u/src/", 3, 0), "src");
}

#[test]
fn tab_title_falls_back_to_literal_with_index() {
    let f = default_tab_format();
    assert_eq!(format_tab_title(&f, "", "/", 7, 0), "Tab 7");
    assert_eq!(format_tab_title(&f, "", "", 12, 0), "Tab 12");
}

#[test]
fn tab_title_all_alternatives_empty() {
    assert_eq!(format_tab_title("{title|cwd_base}", "", "/", 4, 0), "Tab 4");
    assert_eq!(format_tab_title("  {title}  ", "", "", 0, 0), "Tab 0");
}

#[test]
fn tab_title_trims_alternatives() {
    assert_eq!(format_tab_title("{ title | cwd }", "", "/tmp", 1, 0), "/tmp");
}

#[test]
fn tab_title_general_format_expands_all() {
    assert_eq!(
        format_tab_title("[{index}] {title} @ {cwd_base}", "zsh", "/var/log", 2, 0),
        "[2] zsh @ log"
    );
    assert_eq!(format_tab_title("{cwd_base}", "t", "/", 2, 0), "Tab 2");
    assert_eq!(format_tab_title("x{cwd_base}", "t", "/", 2, 0), "x~");
    assert_eq!(format_tab_title("plain", "t", "/", 2, 0), "plain");
    // Two groups: not a single fallback chain.
    assert_eq!(format_tab_title("{title}{index}", "a", "/", 9, 0), "a9");
}

#[test]
fn tab_title_chain_without_inner_open_brace() {
    assert_eq!(format_tab_title("{}}", "t", "/", 1, 0), "}");
    assert_eq!(format_tab_title("{a}b}", "t", "/", 1, 0), "a}b");
    assert_eq!(format_tab_title("{title|cwd_base}", "", "/home/u/proj", 3, 0), "proj");
}

#[test]
fn tab_title_expands_pid() {
    assert_eq!(format_tab_title("{title} [{pid}]", "vim", "/tmp", 1, 4242), "vim [4242]");
    assert_eq!(format_tab_title("{pid}", "vim", "/tmp", 1, 77), "77");
    assert_eq!(resolve_variable("pid", "t", "/a/b", 5, 9), "9");
}

#[test]
fn resolve_and_expand_variables() {
    assert_eq!(resolve_variable("title", "t", "/a/b", 5, 0), "t");
    assert_eq!(resolve_variable("cwd", "t", "/a/b", 5, 0), "/a/b");
    assert_eq!(resolve_variable("cwd_base", "t", "/a/b", 5, 0), "b");
    assert_eq!(resolve_variable("cwd_base", "t", "/", 5, 0), "");
    assert_eq!(resolve_variable("index", "t", "/a/b", 5, 0), "5");
    assert_eq!(resolve_variable("Tab {index}", "t", "/a/b", 5, 0), "Tab 5");
    assert_eq!(expand_variables("{title}-{title}", "x", "/", 0, 0), "x-x");
    assert_eq!(expand_variables("{cwd_base}", "x", "/a/..", 0, 0), "~");
}

#[test]
fn tab_defaults() {
    assert_eq!(default_tab_format(), "{title|cwd_base|Tab {index}}");
    assert_eq!(default_tab_position(), "top");
}

#[test]
fn replace_and_decimal() {
    assert_eq!(replace_str("aaa", "aa", "b"), "ba");
    assert_eq!(replace_str("abcabc", "bc", "X"), "aXaX");
    assert_eq!(replace_str("", "x", "y"), "");
    assert_eq!(usize_to_string(0), "0");
    assert_eq!(usize_to_string(1234567890), "1234567890");
    assert_eq!(usize_to_string(usize::MAX), usize::MAX.to_string());
}

// -- Daemon replies --

#[test]
fn ipc_replies() {
    let none: Vec<String> = Vec::new();
    assert_eq!(ipc_response("ping", &none), "pong\n");
    assert_eq!(ipc_response("  ping\n", &none), "pong\n");
    assert_eq!(ipc_response("list", &none), "no sessions\n");
    let ids = vec!["a1".to_string(), "b2".to_string()];
    assert_eq!(ipc_response("list\n", &ids), "a1\nb2\n");
    assert_eq!(ipc_response(" frob ", &ids), "unknown command: frob\n");
}

// -- Command history navigation --

#[test]
fn history_lines_and_offsets() {
    assert_eq!(abs_line(100, 5), 105);
    assert_eq!(abs_line_to_scroll_offset(100, 40), 60);
    assert_eq!(abs_line_to_scroll_offset(100, 100), 0);
    assert_eq!(abs_line_to_scroll_offset(100, 150), 0);
    assert_eq!(viewport_top_abs(100, 0, 24), 124);
    assert_eq!(viewport_top_abs(100, 60, 24), 40);
    assert_eq!(viewport_top_abs(10, 60, 24), 0);
}

#[test]
fn history_binary_search() {
    let lines = vec![3, 10, 10, 25, 40];
    assert_eq!(find_prev_command_idx(&lines, 10), Some(0));
    assert_eq!(find_prev_command_idx(&lines, 11), Some(2));
    assert_eq!(find_prev_command_idx(&lines, 3), None);
    assert_eq!(find_prev_command_idx(&Vec::new(), 3), None);
    assert_eq!(find_next_command_idx(&lines, 10), Some(3));
    assert_eq!(find_next_command_idx(&lines, 2), Some(0));
    assert_eq!(find_next_command_idx(&lines, 40), None);
    assert_eq!(current_visible_command_idx(&lines, 10), Some(2));
    assert_eq!(current_visible_command_idx(&lines, 2), None);
}

#[test]
fn history_jumps() {
    let lines = vec![3, 10, 25];
    // Live screen: 30 lines scrolled, 24 rows; viewport top 54.
    assert_eq!(jump_to_prev_command(&lines, 30, 0, 24), Some((2, 5)));
    // Scrolled so that line 10 is at the top; previous command is at line 3.
    assert_eq!(jump_to_prev_command(&lines, 30, 20, 24), Some((0, 27)));
    assert_eq!(jump_to_next_command(&lines, 30, 0, 24), None);
    assert_eq!(jump_to_next_command(&lines, 30, 20, 24), Some((2, 5)));
    let ids = vec![7u64, 8, 9];
    assert_eq!(jump_to_command(&ids, &lines, 30, 8), Some((1, 20)));
    assert_eq!(jump_to_command(&ids, &lines, 30, 1), None);
}

// -- Extended colours --

#[test]
fn extended_colors() {
    let g = |v: &[&[u16]]| v.iter().map(|s| s.to_vec()).collect::<Vec<Vec<u16>>>();
    assert_eq!(parse_extended_color(&g(&[&[5], &[196]]), 0), (Color::Indexed(196), 2));
    assert_eq!(parse_extended_color(&g(&[&[5]]), 0), (Color::Default, 1));
    assert_eq!(parse_extended_color(&g(&[&[5], &[1, 2]]), 0), (Color::Default, 2));
    assert_eq!(
        parse_extended_color(&g(&[&[2], &[10], &[20], &[30], &[1]]), 0),
        (Color::Rgb(10, 20, 30), 4)
    );
    assert_eq!(parse_extended_color(&g(&[&[2], &[10]]), 0), (Color::Rgb(10, 0, 0), 2));
    assert_eq!(parse_extended_color(&g(&[&[2, 1, 2, 3]]), 0), (Color::Rgb(1, 2, 3), 1));
    assert_eq!(parse_extended_color(&g(&[&[2, 300]]), 0), (Color::Rgb(44, 0, 0), 1));
    assert_eq!(parse_extended_color(&g(&[&[5, 17]]), 0), (Color::Indexed(17), 1));
    assert_eq!(parse_extended_color(&g(&[&[9]]), 0), (Color::Default, 1));
    assert_eq!(parse_extended_color(&g(&[]), 0), (Color::Default, 0));
    assert_eq!(parse_extended_color(&g(&[&[1], &[5], &[3]]), 1), (Color::Indexed(3), 3));
}

// -- iTerm2 images --

#[test]
fn iterm2_dimensions() {
    assert_eq!(parse_iterm2_dimension("auto"), Some(0));
    assert_eq!(parse_iterm2_dimension(""), Some(0));
    assert_eq!(parse_iterm2_dimension("80px"), Some(0));
    assert_eq!(parse_iterm2_dimension("xpx"), None);
    assert_eq!(parse_iterm2_dimension("10"), Some(10));
    assert_eq!(parse_iterm2_dimension("50%"), None);
}

#[test]
fn iterm2_single_payload_png() {
    let mut store = ImageStore::new();
    store.set_cell_size(8, 16);
    let payload = format!("File=name=eA==;inline=1;width=3:{}", b64(&png_bytes(4, 2)));
    parse_iterm2_image(&payload, &mut store, 2, 7);
    let img = store.get_image(1).expect("stored under the first fresh ID");
    assert_eq!((img.width, img.height), (4, 2));
    assert_eq!(img.data.len(), 4 * 2 * 4);
    assert_eq!(&img.data[0..4], &[10, 20, 30, 255]);
    let p = store.placements()[0];
    assert_eq!((p.col, p.row, p.cell_cols, p.cell_rows), (2, 7, 3, 1));
}

#[test]
fn iterm2_single_payload_jpeg() {
    let mut store = ImageStore::new();
    let raw = jpeg_bytes(3, 5);
    assert!(is_jpeg(&raw));
    let payload = format!("File=inline=1:{}", b64(&raw));
    parse_iterm2_image(&payload, &mut store, 0, 0);
    let img = store.get_image(1).expect("jpeg decoded");
    assert_eq!((img.width, img.height), (3, 5));
    assert_eq!(img.data.len(), 3 * 5 * 4);
}

#[test]
fn iterm2_rejections_leave_store_alone() {
    let mut store = ImageStore::new();
    let data = b64(&png_bytes(1, 1));
    parse_iterm2_image(&format!("File=inline=0:{data}"), &mut store, 0, 0);
    parse_iterm2_image(&format!("Fil=inline=1:{data}"), &mut store, 0, 0);
    parse_iterm2_image("File=inline=1", &mut store, 0, 0);
    parse_iterm2_image("File=inline=1:!!!", &mut store, 0, 0);
    parse_iterm2_image(&format!("File=inline=1:{}", b64(b"GIF89a")), &mut store, 0, 0);
    assert!(store.images().is_empty());
    assert!(!store.has_placements());
    assert!(!store.take_dirty());
}

#[test]
fn iterm2_multipart_transfer() {
    let mut store = ImageStore::new();
    let mut acc = Iterm2Accumulator::new();
    assert!(!acc.is_active());
    acc.begin("MultipartFile=inline=1;height=2");
    assert!(acc.is_active());
    let data = b64(&png_bytes(2, 2));
    let (a, b) = data.split_at(data.len() / 2);
    acc.add_part(&format!("FilePart={a}"));
    acc.add_part(&format!("FilePart={b}"));
    acc.add_part("Junk=ignored");
    assert!(acc.finish(&mut store, 1, 1));
    assert!(!acc.is_active());
    let p = store.placements()[0];
    assert_eq!((p.cell_cols, p.cell_rows), (1, 2));
    // The same image through a single payload.
    let mut single = ImageStore::new();
    parse_iterm2_image(&format!("File=inline=1;height=2:{data}"), &mut single, 1, 1);
    let q = single.placements()[0];
    assert_eq!((q.col, q.row, q.cell_cols, q.cell_rows), (p.col, p.row, p.cell_cols, p.cell_rows));
    assert_eq!((q.src_width, q.src_height), (p.src_width, p.src_height));
    assert_eq!(single.get_image(1).unwrap().data, store.get_image(1).unwrap().data);
}

#[test]
fn iterm2_finish_without_begin_or_inline() {
    let mut store = ImageStore::new();
    let mut acc = Iterm2Accumulator::new();
    assert!(!acc.finish(&mut store, 0, 0));
    acc.begin("File=inline=1");
    assert!(!acc.is_active());
    acc.begin("MultipartFile=inline=0");
    acc.add_part(&format!("FilePart={}", b64(&png_bytes(1, 1))));
    assert!(!acc.finish(&mut store, 0, 0));
    assert!(!acc.is_active());
    assert!(store.images().is_empty());
}

// -- Kitty, beyond the pipeline tests --

#[test]
fn kitty_png_transmission() {
    let mut store = ImageStore::new();
    let raw = png_bytes(3, 1);
    assert!(is_png(&raw));
    let cmd = parse_kitty_header("a=T,f=100,c=2,r=2");
    process_kitty_command(&cmd, &raw, &mut store, 4, 4);
    let img = store.get_image(1).expect("auto ID 1");
    assert_eq!((img.width, img.height), (3, 1));
    assert_eq!(store.placements()[0].cell_cols, 2);
    // Bad PNG data is ignored.
    process_kitty_command(&cmd, b"not a png", &mut store, 0, 0);
    assert_eq!(store.images().len(), 1);
}

#[test]
fn kitty_rejects_size_mismatch_and_other_transmissions() {
    let mut store = ImageStore::new();
    let cmd = parse_kitty_header("a=T,f=32,s=2,v=2,i=3");
    process_kitty_command(&cmd, &[0; 15], &mut store, 0, 0);
    assert!(store.get_image(3).is_none());
    let file = parse_kitty_header("a=T,f=32,s=1,v=1,i=3,t=f");
    process_kitty_command(&file, &[0; 4], &mut store, 0, 0);
    assert!(store.get_image(3).is_none());
    let no_size = parse_kitty_header("a=T,f=24,i=3");
    process_kitty_command(&no_size, &[0; 3], &mut store, 0, 0);
    assert!(store.get_image(3).is_none());
}

#[test]
fn kitty_delete_all_and_query() {
    let mut store = ImageStore::new();
    for id in 1..=2 {
        store.store_image(TerminalImage { id, data: vec![0; 4], width: 1, height: 1 });
    }
    process_kitty_command(&parse_kitty_header("a=q"), &[], &mut store, 0, 0);
    assert_eq!(store.images().len(), 2);
    process_kitty_command(&parse_kitty_header("a=d,d=x"), &[], &mut store, 0, 0);
    assert_eq!(store.images().len(), 2);
    process_kitty_command(&parse_kitty_header("a=d,d=i"), &[], &mut store, 0, 0);
    assert_eq!(store.images().len(), 2);
    process_kitty_command(&parse_kitty_header("a=d,i=1"), &[], &mut store, 0, 0);
    assert_eq!(store.images().len(), 1);
    process_kitty_command(&parse_kitty_header("a=d"), &[], &mut store, 0, 0);
    assert!(store.images().is_empty());
}

#[test]
fn kitty_place_missing_image_is_ignored() {
    let mut store = ImageStore::new();
    process_kitty_command(&parse_kitty_header("a=p,i=9"), &[], &mut store, 0, 0);
    process_kitty_command(&parse_kitty_header("a=p"), &[], &mut store, 0, 0);
    assert!(!store.has_placements());
}

#[test]
fn kitty_header_details() {
    let cmd = parse_kitty_header(" a = p , q=2, t=s ,d=, junk, i=4294967296, c=+7");
    assert_eq!(cmd.action, KittyAction::Place);
    assert_eq!(cmd.quiet, 2);
    assert_eq!(cmd.transmission, 's');
    assert_eq!(cmd.delete_target, None);
    assert_eq!(cmd.image_id, None);
    assert_eq!(cmd.cell_cols, Some(7));
    assert_eq!(parse_kitty_header("q=300").quiet, 0);
    assert_eq!(parse_kitty_header("a=z").action, KittyAction::TransmitAndDisplay);
    assert_eq!(parse_kitty_header("f=8").format, KittyFormat::Rgba);
    assert_eq!(parse_kitty_header("t=").transmission, 'd');
}

#[test]
fn kitty_two_chunks_equal_one() {
    let bytes = [1u8, 2, 3, 4, 5, 6, 7, 8, 9];
    let text = b64(&bytes);
    let mut chunked = KittyAccumulator::new();
    assert!(chunked.feed("a=t,f=24,s=3,v=1,m=1", &text[..5]).is_none());
    assert_eq!(chunked.base64_data, text[..5]);
    let (cmd, data) = chunked.feed("m=0", &text[5..]).unwrap();
    assert_eq!(data, bytes.to_vec());
    assert_eq!(cmd.action, KittyAction::Transmit);
    assert!(cmd.more_chunks);
    assert!(chunked.command.is_none());
    assert!(chunked.base64_data.is_empty());
    let mut single = KittyAccumulator::new();
    let (_, once) = single.feed("a=t,f=24,s=3,v=1", &text).unwrap();
    assert_eq!(once, data);
}

#[test]
fn kitty_bad_base64_decodes_to_nothing() {
    let mut acc = KittyAccumulator::new();
    let (_, data) = acc.feed("a=T", "@@@").unwrap();
    assert!(data.is_empty());
    acc.feed("m=1", "QUJD");
    acc.reset();
    assert!(acc.command.is_none());
    assert!(acc.base64_data.is_empty());
}

// -- Image store behaviour --

#[test]
fn scroll_drops_offscreen_placements_and_images() {
    let mut store = ImageStore::new();
    for id in 1..=2 {
        store.store_image(TerminalImage { id, data: vec![0; 4], width: 1, height: 1 });
    }
    store.add_placement(ImagePlacement {
        image_id: 1, col: 0, row: 0, cell_cols: 1, cell_rows: 2, src_width: 1, src_height: 1,
    });
    store.add_placement(ImagePlacement {
        image_id: 2, col: 0, row: 5, cell_cols: 1, cell_rows: 1, src_width: 1, src_height: 1,
    });
    store.take_dirty();
    store.scroll_up(2);
    assert!(store.take_dirty());
    assert_eq!(store.placements().len(), 1);
    assert_eq!(store.placements()[0].row, 3);
    assert!(store.get_image(1).is_none());
    assert!(store.get_image(2).is_some());
    store.scroll_up(0);
    assert!(!store.take_dirty());
}

#[test]
fn placement_spans_round_up_and_cap() {
    let mut store = ImageStore::new();
    store.set_cell_size(10, 0);
    store.add_placement(ImagePlacement {
        image_id: 1, col: 0, row: 0, cell_cols: 0, cell_rows: 0, src_width: 21, src_height: 33,
    });
    let p = store.placements()[0];
    assert_eq!((p.cell_cols, p.cell_rows), (3, 3));
    store.add_placement(ImagePlacement {
        image_id: 1, col: 0, row: 0, cell_cols: 0, cell_rows: 0, src_width: 0, src_height: 0,
    });
    assert_eq!(store.placements()[1].cell_cols, 1);
    assert_eq!(store.placements()[1].cell_rows, 1);
    store.add_placement(ImagePlacement {
        image_id: 1, col: 0, row: 0, cell_cols: 50, cell_rows: 60, src_width: 0, src_height: 0,
    });
    store.cap_placement_size(40, 20);
    let last = store.placements()[2];
    assert_eq!((last.cell_cols, last.cell_rows), (40, 20));
    assert_eq!(store.placements()[0].cell_cols, 3);
}

#[test]
fn ids_skip_zero_on_wrap() {
    let mut store = ImageStore::default();
    assert_eq!(store.next_id(), 1);
    store.store_image(TerminalImage { id: 7, data: vec![], width: 0, height: 0 });
    store.store_image(TerminalImage { id: 7, data: vec![1], width: 1, height: 0 });
    assert_eq!(store.get_image(7).unwrap().data, vec![1]);
    assert_eq!(store.images().len(), 1);
}

// -- Sixel --

#[test]
fn sixel_hls_colors() {
    assert_eq!(hls_to_rgb(0, 50, 100), (255, 0, 0));
    assert_eq!(hls_to_rgb(120, 50, 100), (0, 255, 0));
    assert_eq!(hls_to_rgb(240, 50, 100), (0, 0, 255));
    assert_eq!(hls_to_rgb(360, 50, 100), (255, 0, 0));
    assert_eq!(hls_to_rgb(0, 100, 0), (255, 255, 255));
    assert_eq!(hls_to_rgb(0, 0, 0), (0, 0, 0));
    assert_eq!(hls_to_rgb(0, 50, 0), (127, 127, 127));
    assert_eq!(hls_to_rgb(60, 200, 100), (255, 255, 255));
}

#[test]
fn sixel_hls_definition_and_raster() {
    // Color 1 defined in HLS as pure red; raster attributes ignored.
    let img = decode_sixel(b"\"1;1;4;6#1;1;0;50;100~~").expect("decodes");
    assert_eq!((img.width, img.height), (2, 6));
    assert_eq!(&img.data[0..4], &[255, 0, 0, 255]);
}

#[test]
fn sixel_default_palette_and_carriage_return() {
    // Color 2 of the default palette is red (VGA order); `$` returns to column 0.
    let img = decode_sixel(b"#2@$#4A").expect("decodes");
    assert_eq!((img.width, img.height), (1, 6));
    assert_eq!(&img.data[0..4], &[170, 0, 0, 255]);
}

#[test]
fn sixel_into_store() {
    let mut store = ImageStore::new();
    process_sixel(b"#0;2;100;0;0~~~", &mut store, 3, 4);
    let img = store.get_image(1).expect("stored");
    assert_eq!((img.width, img.height), (3, 6));
    assert_eq!(store.placements()[0].col, 3);
    process_sixel(b"", &mut store, 0, 0);
    assert_eq!(store.images().len(), 1);
}

// -- Process output --

#[test]
fn child_pid_from_pgrep_output() {
    assert_eq!(parse_child_pid("4242\n4243\n"), Some(4242));
    assert_eq!(parse_child_pid("  17 \r\nx"), Some(17));
    assert_eq!(parse_child_pid(""), None);
    assert_eq!(parse_child_pid("\n12\n"), None);
    assert_eq!(parse_child_pid("abc\n"), None);
    assert_eq!(parse_child_pid("-2147483648"), Some(i32::MIN));
    assert_eq!(parse_child_pid("+7"), Some(7));
    assert_eq!(parse_child_pid("-+7"), None);
    assert_eq!(parse_child_pid("2147483648"), None);
    assert_eq!(parse_process_name("  vim\n"), Some("vim".to_string()));
    assert_eq!(parse_process_name(" \n"), None);
}
