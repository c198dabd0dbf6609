use termojinal::iterm2::Iterm2Accumulator;
use termojinal::kitty::{parse_kitty_header, process_kitty_command};
use termojinal::sixel::decode_sixel;
use termojinal::{ImagePlacement, ImageStore, TerminalImage};

#[test]
fn dirty_mark_over_calls() {
    let mut store = ImageStore::new();
    store.take_dirty();
    assert!(!store.take_dirty());
    store.store_image(TerminalImage { id: 1, data: vec![0; 4], width: 1, height: 1 });
    store.set_cell_size(8, 16);
    assert!(store.take_dirty());
    assert!(!store.take_dirty());
    // A scroll without placements is no change.
    store.scroll_up(3);
    assert!(!store.take_dirty());
    store.add_placement(ImagePlacement {
        image_id: 1,
        col: 0,
        row: 0,
        cell_cols: 1,
        cell_rows: 1,
        src_width: 1,
        src_height: 1,
    });
    store.scroll_up(0);
    assert!(store.take_dirty());
    store.scroll_up(1);
    assert!(store.take_dirty());
}

#[test]
fn iterm2_active_flag_over_calls() {
    let mut acc = Iterm2Accumulator::new();
    let mut store = ImageStore::new();
    assert!(!acc.is_active());
    acc.add_part("FilePart=AAAA");
    assert!(!acc.is_active());
    acc.begin("File=inline=1");
    assert!(!acc.is_active());
    acc.begin("MultipartFile=inline=1");
    assert!(acc.is_active());
    acc.add_part("FilePart=AAAA");
    assert!(acc.is_active());
    acc.finish(&mut store, 0, 0);
    assert!(!acc.is_active());
}

#[test]
fn rejected_kitty_commands_leave_the_store() {
    let mut store = ImageStore::new();
    store.take_dirty();
    let before_images = store.images().len();
    // Raw RGBA of the wrong length; a placement of a missing image; a query.
    for header in ["a=T,f=32,s=2,v=2", "a=p,i=77", "a=q", "a=T,t=f,f=32,s=1,v=1"] {
        let cmd = parse_kitty_header(header);
        process_kitty_command(&cmd, &[1, 2, 3], &mut store, 0, 0);
    }
    assert_eq!(store.images().len(), before_images);
    assert!(store.placements().is_empty());
    assert!(!store.take_dirty());
    assert_eq!(store.next_id(), 1);
}

#[test]
fn sixel_height_is_whole_rows_and_pixels_opaque_or_clear() {
    let img = decode_sixel(b"#1~-@").expect("image");
    assert_eq!(img.height % 6, 0);
    assert_eq!(img.height, 12);
    for px in img.data.chunks(4) {
        assert!(px[3] == 255 || px == [0, 0, 0, 0]);
    }
    assert!(decode_sixel(b"#1;2;100;0;0$-").is_none());
}
