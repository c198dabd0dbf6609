use termojinal::width::{char_width, is_zero_width_combining, str_display_width};

#[test]
fn test_char_width_basic() {
    // ASCII characters are always 1-cell wide.
    assert_eq!(char_width('A', false), 1);
    assert_eq!(char_width('A', true), 1);

    // CJK ideographs are always 2-cell wide.
    assert_eq!(char_width('\u{3042}', false), 2);
    assert_eq!(char_width('\u{3042}', true), 2);
    assert_eq!(char_width('\u{6f22}', false), 2);
    assert_eq!(char_width('\u{6f22}', true), 2);

    // Fullwidth forms are always 2-cell wide.
    assert_eq!(char_width('\u{ff01}', false), 2);
    assert_eq!(char_width('\u{ff01}', true), 2);
}

#[test]
fn test_char_width_ambiguous() {
    // U+25EF LARGE CIRCLE — East Asian Width: Ambiguous.
    // Narrow in Western locales, wide in CJK locales.
    assert_eq!(char_width('\u{25EF}', false), 1);
    assert_eq!(char_width('\u{25EF}', true), 2);

    // Other common ambiguous-width characters:
    // U+25CB WHITE CIRCLE
    assert_eq!(char_width('\u{25CB}', false), 1);
    assert_eq!(char_width('\u{25CB}', true), 2);

    // U+25CF BLACK CIRCLE
    assert_eq!(char_width('\u{25CF}', false), 1);
    assert_eq!(char_width('\u{25CF}', true), 2);

    // U+25A0 BLACK SQUARE
    assert_eq!(char_width('\u{25A0}', false), 1);
    assert_eq!(char_width('\u{25A0}', true), 2);

    // U+25B3 WHITE UP-POINTING TRIANGLE
    assert_eq!(char_width('\u{25B3}', false), 1);
    assert_eq!(char_width('\u{25B3}', true), 2);

    // U+2605 BLACK STAR
    assert_eq!(char_width('\u{2605}', false), 1);
    assert_eq!(char_width('\u{2605}', true), 2);

    // U+2460 CIRCLED DIGIT ONE
    assert_eq!(char_width('\u{2460}', false), 1);
    assert_eq!(char_width('\u{2460}', true), 2);
}

#[test]
fn control_characters_take_one_cell() {
    assert_eq!(char_width('\u{7}', false), 1);
    assert_eq!(char_width('\u{1b}', true), 1);
    assert_eq!(char_width('\u{85}', false), 1);
}

#[test]
fn combining_marks_have_no_cell_in_tables() {
    // U+0301 COMBINING ACUTE ACCENT is zero width per the Unicode tables.
    assert_eq!(char_width('\u{301}', false), 0);
}

#[test]
fn zero_width_combining_ranges() {
    assert!(is_zero_width_combining('\u{FE0F}'));
    assert!(is_zero_width_combining('\u{FE00}'));
    assert!(is_zero_width_combining('\u{200D}'));
    assert!(is_zero_width_combining('\u{200B}'));
    assert!(is_zero_width_combining('\u{1F3FB}'));
    assert!(is_zero_width_combining('\u{E0061}'));
    assert!(is_zero_width_combining('\u{E0001}'));
    assert!(is_zero_width_combining('\u{20E3}'));
    assert!(is_zero_width_combining('\u{2064}'));
    assert!(is_zero_width_combining('\u{FEFF}'));
    assert!(!is_zero_width_combining('a'));
    assert!(!is_zero_width_combining('\u{FE10}'));
    assert!(!is_zero_width_combining('\u{2065}'));
    assert!(!is_zero_width_combining('\u{1F600}'));
}

#[test]
fn string_width_sums_characters() {
    assert_eq!(str_display_width("", false), 0);
    assert_eq!(str_display_width("abc", false), 3);
    assert_eq!(str_display_width("a\u{3042}b", false), 4);
    assert_eq!(str_display_width("\u{25EF}\u{25EF}", false), 2);
    assert_eq!(str_display_width("\u{25EF}\u{25EF}", true), 4);
}
