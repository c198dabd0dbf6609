use termojinal::control::{control_action, line_feed_col, ControlAction};
use termojinal::print::{plan_print, write_char, Cell, PrintOutcome};
use termojinal::sgr::Pen;

/// A one-line screen: the row, the cursor column and the pending wrap.
struct Line {
    row: Vec<Cell>,
    col: usize,
    wrap_pending: bool,
    line_feeds: usize,
}

impl Line {
    fn new(cols: usize) -> Line {
        Line { row: vec![Cell::blank(); cols], col: 0, wrap_pending: false, line_feeds: 0 }
    }

    fn print(&mut self, s: &str, cjk: bool, auto_wrap: bool) {
        for c in s.chars() {
            let cols = self.row.len();
            match plan_print(c, cjk, cols, 1, self.col, self.wrap_pending, auto_wrap) {
                PrintOutcome::Unchanged => {}
                PrintOutcome::Dropped => self.wrap_pending = false,
                PrintOutcome::Write { line_feeds, col, width, next_col, wrap_pending } => {
                    if line_feeds > 0 {
                        // A new line on this one-line screen: it starts blank.
                        self.row = vec![Cell::blank(); cols];
                        self.line_feeds += line_feeds;
                    }
                    write_char(&mut self.row, col, c, width, Pen::new(), false);
                    self.col = next_col;
                    self.wrap_pending = wrap_pending;
                }
            }
        }
    }
}

#[test]
fn test_print_basic() {
    let mut line = Line::new(80);
    line.print("Hello", false, true);
    assert_eq!(line.row[0].c, 'H');
    assert_eq!(line.row[4].c, 'o');
    assert_eq!(line.col, 5);
}

#[test]
fn wide_character_cells() {
    let mut line = Line::new(80);
    line.print("A\u{6f22}B", false, true);
    assert_eq!(line.row[0].c, 'A');
    assert_eq!(line.row[0].width, 1);
    assert_eq!(line.row[1].c, '\u{6f22}');
    assert_eq!(line.row[1].width, 2);
    assert_eq!(line.row[2].width, 0);
    assert_eq!(line.row[2].c, '\0');
    assert_eq!(line.row[3].c, 'B');
}

#[test]
fn emoji_cells() {
    let mut line = Line::new(80);
    line.print("A\u{1F600}B", false, true);
    assert_eq!(line.row[1].c, '\u{1F600}');
    assert_eq!(line.row[1].width, 2);
    assert_eq!(line.row[2].width, 0);
    assert_eq!(line.row[3].c, 'B');
}

#[test]
fn ambiguous_width_follows_cjk_setting() {
    let mut wide = Line::new(80);
    wide.print("\u{25EF}", true, true);
    assert_eq!(wide.row[0].width, 2);
    assert_eq!(wide.row[1].c, '\0');
    assert_eq!(wide.row[1].width, 0);
    assert_eq!(wide.col, 2);
    let mut narrow = Line::new(80);
    narrow.print("\u{25EF}", false, true);
    assert_eq!(narrow.row[0].width, 1);
    assert_eq!(narrow.col, 1);
}

#[test]
fn zero_width_combining_is_skipped() {
    let mut line = Line::new(10);
    line.print("a\u{FE0F}\u{200D}b", false, true);
    assert_eq!(line.row[0].c, 'a');
    assert_eq!(line.row[1].c, 'b');
    assert_eq!(line.col, 2);
}

#[test]
fn right_margin_sets_pending_wrap() {
    let mut line = Line::new(3);
    line.print("abc", false, true);
    assert_eq!(line.col, 2);
    assert!(line.wrap_pending);
    line.print("d", false, true);
    assert_eq!(line.line_feeds, 1);
    assert_eq!(line.row[0].c, 'd');
    assert_eq!(line.col, 1);
    assert!(!line.wrap_pending);
}

#[test]
fn no_auto_wrap_overwrites_last_column() {
    let mut line = Line::new(3);
    line.print("abcd", false, false);
    assert_eq!(line.line_feeds, 0);
    assert_eq!(line.row[2].c, 'd');
    assert_eq!(line.col, 2);
    assert!(line.wrap_pending);
}

#[test]
fn wide_character_at_margin() {
    // With auto-wrap it moves to the next line.
    let mut line = Line::new(3);
    line.print("ab\u{6f22}", false, true);
    assert_eq!(line.line_feeds, 1);
    assert_eq!(line.row[0].c, '\u{6f22}');
    assert_eq!(line.col, 2);
    // Without auto-wrap it is dropped.
    let mut line = Line::new(3);
    line.print("ab\u{6f22}", false, false);
    assert_eq!(line.line_feeds, 0);
    assert_eq!(line.row[2].c, ' ');
    assert_eq!(line.col, 2);
    assert_eq!(plan_print('\u{6f22}', false, 3, 1, 2, true, false), PrintOutcome::Dropped);
}

#[test]
fn overwriting_wide_character_fragments() {
    // Overwrite the continuation cell: the leading cell is cleared.
    let mut row = vec![Cell::blank(); 5];
    write_char(&mut row, 1, '\u{6f22}', 2, Pen::new(), false);
    write_char(&mut row, 2, 'x', 1, Pen::new(), false);
    assert_eq!(row[1], Cell::blank());
    assert_eq!(row[2].c, 'x');
    // Overwrite the leading cell: the continuation is cleared.
    let mut row = vec![Cell::blank(); 5];
    write_char(&mut row, 1, '\u{6f22}', 2, Pen::new(), false);
    write_char(&mut row, 1, 'y', 1, Pen::new(), false);
    assert_eq!(row[1].c, 'y');
    assert_eq!(row[2], Cell::blank());
    // A wide write whose continuation lands on another wide character.
    let mut row = vec![Cell::blank(); 5];
    write_char(&mut row, 2, '\u{6f22}', 2, Pen::new(), false);
    write_char(&mut row, 1, '\u{5b57}', 2, Pen::new(), true);
    assert_eq!(row[1].c, '\u{5b57}');
    assert_eq!(row[2].width, 0);
    assert!(row[2].hyperlink);
    assert_eq!(row[3], Cell::blank());
}

#[test]
fn one_column_screen() {
    assert!(matches!(
        plan_print('\u{6f22}', false, 1, 1, 0, false, true),
        PrintOutcome::Write { line_feeds: 1, col: 0, width: 2, next_col: 0, wrap_pending: true }
    ));
    assert_eq!(plan_print('a', false, 0, 24, 0, false, true), PrintOutcome::Unchanged);
}

#[test]
fn test_osc8_hyperlink_not_set_by_default() {
    let mut line = Line::new(80);
    line.print("hello", false, true);
    assert!(!line.row[0].hyperlink);
    assert!(!line.row[4].hyperlink);
}

#[test]
fn test_newline() {
    // "Line1\r\nLine2": CR returns to column 0, LF moves down a line.
    let mut line = Line::new(80);
    line.print("Line1", false, true);
    assert_eq!(line.row[0].c, 'L');
    assert_eq!(control_action(b'\r'), ControlAction::CarriageReturn);
    assert_eq!(control_action(b'\n'), ControlAction::LineFeed);
    let mut next = Line::new(80);
    next.col = line_feed_col(0, false);
    next.print("Line2", false, true);
    assert_eq!(next.row[0].c, 'L');
    assert_eq!(next.col, 5);
}
