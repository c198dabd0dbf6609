use termojinal::drcs::{begin_decdld, load_decdld_glyphs, DrcsFontStore, DrcsGlyph};

#[test]
fn test_drcs_font_store() {
    let mut store = DrcsFontStore::new();
    assert!(store.is_empty());

    store.set_glyph(
        0,
        0,
        DrcsGlyph {
            bitmap: vec![0xFF, 0x00],
            width: 10,
            height: 20,
        },
    );

    assert!(!store.is_empty());
    assert!(store.get_glyph(0, 0).is_some());
    assert!(store.get_glyph(0, 1).is_none());
    assert!(store.get_glyph(1, 0).is_none());

    let glyph = store.get_glyph(0, 0).expect("glyph exists");
    assert_eq!(glyph.width, 10);
    assert_eq!(glyph.height, 20);

    // Erase font 0.
    store.erase_font(0);
    assert!(store.is_empty());
}

#[test]
fn test_drcs_font_store_erase_all() {
    let mut store = DrcsFontStore::new();
    store.set_glyph(
        0,
        0,
        DrcsGlyph {
            bitmap: vec![0xFF],
            width: 8,
            height: 16,
        },
    );
    store.set_glyph(
        1,
        0,
        DrcsGlyph {
            bitmap: vec![0xFF],
            width: 8,
            height: 16,
        },
    );
    assert_eq!(store.glyphs().len(), 2);

    store.erase_all();
    assert!(store.is_empty());
}

fn groups(v: &[u16]) -> Vec<Vec<u16>> {
    v.iter().map(|&x| vec![x]).collect()
}

#[test]
fn decdld_header_defaults_and_caps() {
    let mut store = DrcsFontStore::new();
    let hd = begin_decdld(&groups(&[0, 0, 0, 10, 0, 0, 20, 0]), &mut store);
    assert_eq!((hd.font_number, hd.start_char, hd.erase_control), (0, 0, 0));
    assert_eq!((hd.cell_width, hd.cell_height), (10, 20));
    let hd = begin_decdld(&groups(&[9, 200, 7]), &mut store);
    assert_eq!((hd.font_number, hd.start_char, hd.erase_control), (3, 95, 2));
    assert_eq!((hd.cell_width, hd.cell_height), (10, 20));
    let hd = begin_decdld(&groups(&[1, 1, 1, 264, 0, 0, 6]), &mut store);
    assert_eq!((hd.cell_width, hd.cell_height), (8, 6));
    let hd = begin_decdld(&Vec::new(), &mut store);
    assert_eq!(hd.font_number, 0);
}

#[test]
fn decdld_erase_control() {
    let mut store = DrcsFontStore::new();
    let g = || DrcsGlyph { bitmap: vec![1], width: 1, height: 1 };
    store.set_glyph(1, 5, g());
    store.set_glyph(2, 5, g());
    begin_decdld(&groups(&[1, 0, 1]), &mut store);
    assert!(store.get_glyph(1, 5).is_some());
    begin_decdld(&groups(&[1, 0, 2]), &mut store);
    assert!(store.get_glyph(1, 5).is_none());
    assert!(store.get_glyph(2, 5).is_some());
}

#[test]
fn decdld_basic_glyph_bitmap() {
    let mut store = DrcsFontStore::new();
    let hd = begin_decdld(&groups(&[0, 0, 0, 10, 0, 0, 20, 0]), &mut store);
    // The designator `B` reads as a sixel column too (bits 0 and 1).
    load_decdld_glyphs(&hd, b"B~", &mut store);
    assert!(!store.is_empty());
    let g = store.get_glyph(0, 0).expect("glyph 0");
    assert_eq!((g.width, g.height), (10, 20));
    assert_eq!(g.bitmap.len(), 25);
    let mut expected = vec![0u8; 25];
    expected[0] = 0xC0;
    expected[1] = 0x30;
    expected[2] = 0x04;
    expected[3] = 0x01;
    expected[5] = 0x40;
    expected[6] = 0x10;
    assert_eq!(g.bitmap, expected);
}

#[test]
fn decdld_rows_repeats_and_consecutive_chars() {
    let mut store = DrcsFontStore::new();
    let hd = begin_decdld(&groups(&[2, 10, 0, 8, 0, 0, 12]), &mut store);
    // Glyph 1: a full 8-wide top band, then one column in the second band.
    // Glyph 2 is empty (skipped); glyph 3 has a repeat without a sixel char.
    load_decdld_glyphs(&hd, b"!8~/@;;!3#@", &mut store);
    let g = store.get_glyph(2, 10).expect("first glyph");
    assert_eq!(g.bitmap.len(), 12);
    assert_eq!(&g.bitmap[0..6], &[0xFF; 6]);
    assert_eq!(g.bitmap[6], 0x80);
    assert_eq!(&g.bitmap[7..12], &[0; 5]);
    assert!(store.get_glyph(2, 11).is_none());
    let g3 = store.get_glyph(2, 12).expect("third glyph");
    assert_eq!(g3.bitmap[0], 0x80);
    assert_eq!(g3.bitmap[1], 0x00);
}

#[test]
fn decdld_clips_to_cell_and_wraps_codes() {
    let mut store = DrcsFontStore::new();
    let hd = begin_decdld(&groups(&[0, 95, 1, 2, 0, 0, 3]), &mut store);
    load_decdld_glyphs(&hd, b"~~~;~", &mut store);
    let g = store.get_glyph(0, 95).expect("clipped glyph");
    // 2 by 3 pixels, all set: six bits in one byte.
    assert_eq!(g.bitmap, vec![0xFC]);
    assert!(store.get_glyph(0, 96).is_some());
}
