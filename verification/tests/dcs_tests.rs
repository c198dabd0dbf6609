use termojinal::dcs::{DcsCollector, DcsPayload};
use termojinal::drcs::{load_decdld_glyphs, DrcsFontStore, DrcsGlyph};

fn g(v: &[u16]) -> Vec<Vec<u16>> {
    v.iter().map(|&x| vec![x]).collect()
}

fn feed(c: &mut DcsCollector, bytes: &[u8]) {
    for &b in bytes {
        c.put(b);
    }
}

#[test]
fn sixel_data_is_collected() {
    let mut fonts = DrcsFontStore::new();
    let mut c = DcsCollector::new();
    c.hook(&g(&[0, 1]), 'q', &mut fonts);
    feed(&mut c, b"#0~~");
    match c.unhook() {
        DcsPayload::Sixel(d) => assert_eq!(d, b"#0~~".to_vec()),
        other => panic!("unexpected {other:?}"),
    }
    assert!(matches!(c.unhook(), DcsPayload::Nothing));
}

#[test]
fn decdld_through_the_collector() {
    let mut fonts = DrcsFontStore::new();
    fonts.set_glyph(0, 9, DrcsGlyph { bitmap: vec![1], width: 1, height: 1 });
    let mut c = DcsCollector::new();
    c.hook(&g(&[0, 0, 0, 10, 0, 0, 20, 0]), '{', &mut fonts);
    // Erase control 0 erased the font.
    assert!(fonts.is_empty());
    feed(&mut c, b"B~");
    match c.unhook() {
        DcsPayload::Decdld(hd, data) => {
            assert_eq!((hd.font_number, hd.cell_width, hd.cell_height), (0, 10, 20));
            load_decdld_glyphs(&hd, &data, &mut fonts);
        }
        other => panic!("unexpected {other:?}"),
    }
    assert!(fonts.get_glyph(0, 0).is_some());
}

#[test]
fn other_dcs_is_not_collected() {
    let mut fonts = DrcsFontStore::new();
    let mut c = DcsCollector::new();
    c.hook(&Vec::new(), 'p', &mut fonts);
    feed(&mut c, b"ignored");
    assert!(matches!(c.unhook(), DcsPayload::Nothing));
    c.hook(&Vec::new(), 'q', &mut fonts);
    match c.unhook() {
        DcsPayload::Sixel(d) => assert!(d.is_empty()),
        other => panic!("unexpected {other:?}"),
    }
}
