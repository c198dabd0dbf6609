//! Printing a character: where it goes (wrapping at the right margin) and
//! how it is written into a row of cells, wide characters included.

use vstd::prelude::*;
use crate::color::Color;
use crate::csi::LineRegion;
use crate::sgr::{no_attrs, Attrs, Pen};
use crate::width::{char_width, display_width, is_zero_width_combining, zero_width_combining};

verus! {

/// One cell of the screen.
#[derive(Debug, Clone, Copy, PartialEq, Eq, Structural)]
pub struct Cell {
    pub c: char,
    pub fg: Color,
    pub bg: Color,
    pub underline_color: Color,
    pub attrs: Attrs,
    /// 1 for a narrow character, 2 for the leading cell of a wide one, 0
    /// for the cell a wide character continues into.
    pub width: u8,
    /// Written while a hyperlink (OSC 8) was open.
    pub hyperlink: bool,
}

/// An empty cell: a space in the default colours.
pub open spec fn blank_cell() -> Cell {
    Cell {
        c: ' ',
        fg: Color::Default,
        bg: Color::Default,
        underline_color: Color::Default,
        attrs: no_attrs(),
        width: 1,
        hyperlink: false,
    }
}

impl Cell {
    /// An empty cell.
    pub fn blank() -> (cell: Cell)
        ensures
            cell == blank_cell(),
    {
        Cell {
            c: ' ',
            fg: Color::Default,
            bg: Color::Default,
            underline_color: Color::Default,
            attrs: Attrs {
                bold: false,
                dim: false,
                italic: false,
                underline: false,
                double_underline: false,
                curly_underline: false,
                dotted_underline: false,
                dashed_underline: false,
                blink: false,
                reverse: false,
                hidden: false,
                strikethrough: false,
            },
            width: 1,
            hyperlink: false,
        }
    }
}

/// What printing one character does to the cursor.
#[derive(Debug, Clone, Copy, PartialEq, Eq, Structural)]
pub enum PrintOutcome {
    /// Nothing changes: a zero-width combining character, or a screen
    /// without cells.
    Unchanged,
    /// A wide character that does not fit before the right margin while
    /// auto-wrap is off: it is dropped, and a pending wrap is cleared.
    Dropped,
    /// The character is written at `col` after `line_feeds` line feeds
    /// (each one after a return to column 0); the cursor then stands at
    /// `next_col`, with a wrap pending when the character reached the
    /// right margin.
    Write { line_feeds: usize, col: usize, width: usize, next_col: usize, wrap_pending: bool },
}

/// The outcome of printing `c` with the cursor at `cursor_col` on a screen
/// of `cols` by `rows` cells. A pending wrap first moves to the next line
/// (with auto-wrap on); a wide character that would not fit before the
/// right margin moves to the next line too (auto-wrap on) or is dropped
/// (auto-wrap off). After writing, the cursor advances by the width and
/// stops at the last column with a wrap pending.
pub open spec fn print_outcome(
    c: char,
    cjk: bool,
    cols: usize,
    rows: usize,
    cursor_col: usize,
    wrap_pending: bool,
    auto_wrap: bool,
) -> PrintOutcome {
    if zero_width_combining(c) || cols == 0 || rows == 0 {
        PrintOutcome::Unchanged
    } else {
        let w = display_width(c, cjk);
        let first_wrap = wrap_pending && auto_wrap;
        let col1: int = if first_wrap {
            0
        } else {
            cursor_col as int
        };
        let no_room = w == 2 && col1 >= cols - 1;
        if no_room && !auto_wrap {
            PrintOutcome::Dropped
        } else {
            let col: int = if no_room {
                0
            } else {
                col1
            };
            let end = col + w;
            PrintOutcome::Write {
                line_feeds: ((if first_wrap {
                    1int
                } else {
                    0
                }) + (if no_room {
                    1int
                } else {
                    0
                })) as usize,
                col: col as usize,
                width: w,
                next_col: (if end >= cols {
                    cols - 1
                } else {
                    end
                }) as usize,
                wrap_pending: end >= cols,
            }
        }
    }
}

/// Decide what printing `c` does (the cursor part of the terminal's print
/// handler; the line feeds themselves belong to the screen).
pub fn plan_print(
    c: char,
    cjk: bool,
    cols: usize,
    rows: usize,
    cursor_col: usize,
    wrap_pending: bool,
    auto_wrap: bool,
) -> (r: PrintOutcome)
    requires
        cols == 0 || cursor_col < cols,
    ensures
        r == print_outcome(c, cjk, cols, rows, cursor_col, wrap_pending, auto_wrap),
{
    if is_zero_width_combining(c) || cols == 0 || rows == 0 {
        return PrintOutcome::Unchanged;
    }
    let w = char_width(c, cjk);
    let first_wrap = wrap_pending && auto_wrap;
    let col1: usize = if first_wrap {
        0
    } else {
        cursor_col
    };
    let no_room = w == 2 && col1 >= cols - 1;
    if no_room && !auto_wrap {
        return PrintOutcome::Dropped;
    }
    let col: usize = if no_room {
        0
    } else {
        col1
    };
    let line_feeds: usize = (if first_wrap {
        1
    } else {
        0
    }) + (if no_room {
        1
    } else {
        0
    });
    let reaches_margin = w >= cols - col;
    let next_col = if reaches_margin {
        cols - 1
    } else {
        col + w
    };
    PrintOutcome::Write { line_feeds, col, width: w, next_col, wrap_pending: reaches_margin }
}

/// A row is well formed when every continuation cell (width 0) follows the
/// leading cell of a wide character, and every wide character short of the
/// last column is followed by its continuation cell.
pub open spec fn row_wf(row: Seq<Cell>) -> bool {
    &&& forall|i: int|
        0 <= i < row.len() && #[trigger] row[i].width == 0 ==> i > 0 && row[i - 1].width == 2
    &&& forall|i: int|
        0 <= i < row.len() - 1 && #[trigger] row[i].width == 2 ==> row[i + 1].width == 0
}

/// The cell a character is written to.
pub open spec fn char_cell(c: char, width: usize, pen: Pen, hyperlink: bool) -> Cell {
    Cell {
        c,
        fg: pen.fg,
        bg: pen.bg,
        underline_color: pen.underline_color,
        attrs: pen.attrs,
        width: width as u8,
        hyperlink,
    }
}

/// The continuation cell of a wide character written over `old` (its
/// underline colour is left as it was).
pub open spec fn continuation_cell(old: Cell, pen: Pen, hyperlink: bool) -> Cell {
    Cell { c: '\0', width: 0, fg: pen.fg, bg: pen.bg, attrs: pen.attrs, hyperlink, ..old }
}

/// The row after clearing the fragments of wide characters that a write of
/// width `width` at `col` breaks: the leading cell when `col` continues a
/// wide character, the continuation when `col` leads one, and (for a wide
/// write) the continuation of a wide character that starts at `col + 1`.
pub open spec fn cleared_fragments(row: Seq<Cell>, col: int, width: usize) -> Seq<Cell> {
    let n = row.len();
    let r1 = if col > 0 && row[col].width == 0 {
        row.update(col - 1, blank_cell())
    } else {
        row
    };
    let r2 = if r1[col].width == 2 && col + 1 < n {
        r1.update(col + 1, blank_cell())
    } else {
        r1
    };
    if width == 2 && col + 1 < n && r2[col + 1].width == 2 && col + 2 < n {
        r2.update(col + 2, blank_cell())
    } else {
        r2
    }
}

/// The row after writing `c` of width `width` at `col` with `pen`: the
/// broken fragments cleared, the character's cell written, and for a wide
/// character its continuation cell after it (when the row has room).
pub open spec fn written_row(
    row: Seq<Cell>,
    col: int,
    c: char,
    width: usize,
    pen: Pen,
    hyperlink: bool,
) -> Seq<Cell> {
    let r = cleared_fragments(row, col, width).update(col, char_cell(c, width, pen, hyperlink));
    if width == 2 && col + 1 < row.len() {
        r.update(col + 1, continuation_cell(r[col + 1], pen, hyperlink))
    } else {
        r
    }
}

/// Write `c` (of display width `width`) at `col` of `row`, as the print
/// handler does once the cursor is placed.
pub fn write_char(row: &mut Vec<Cell>, col: usize, c: char, width: usize, pen: Pen, hyperlink: bool)
    requires
        col < old(row)@.len(),
    ensures
        final(row)@ == written_row(old(row)@, col as int, c, width, pen, hyperlink),
{
    let n = row.len();
    if col > 0 && row[col].width == 0 {
        row.set(col - 1, Cell::blank());
    }
    if row[col].width == 2 && col + 1 < n {
        row.set(col + 1, Cell::blank());
    }
    if width == 2 && col + 1 < n && row[col + 1].width == 2 && col + 2 < n {
        row.set(col + 2, Cell::blank());
    }
    let cell = Cell {
        c,
        fg: pen.fg,
        bg: pen.bg,
        underline_color: pen.underline_color,
        attrs: pen.attrs,
        width: #[verifier::truncate]
        (width as u8),
        hyperlink,
    };
    row.set(col, cell);
    if width == 2 && col + 1 < n {
        let old = row[col + 1];
        row.set(
            col + 1,
            Cell { c: '\0', width: 0, fg: pen.fg, bg: pen.bg, attrs: pen.attrs, hyperlink, ..old },
        );
    }
}

/// Writing a narrow or wide character keeps a row well formed: no
/// continuation cell is left without its leading cell, and no wide
/// character loses its continuation.
pub proof fn lemma_write_keeps_row_wf(
    row: Seq<Cell>,
    col: int,
    c: char,
    width: usize,
    pen: Pen,
    hyperlink: bool,
)
    requires
        row_wf(row),
        0 <= col < row.len(),
        width == 1 || width == 2,
    ensures
        row_wf(written_row(row, col, c, width, pen, hyperlink)),
{
    let n = row.len();
    let out = written_row(row, col, c, width, pen, hyperlink);
    assert(width as u8 == width);
    // Which cells change, and to what.
    let lead_cleared = col > 0 && row[col].width == 0;
    let cont_cleared = row[col].width == 2 && col + 1 < n;
    let next_cleared = width == 2 && col + 2 < n && row[col + 1].width == 2;
    if cont_cleared {
        assert(row[col + 1].width == 0);
    }
    assert forall|j: int| 0 <= j < n implies {
        &&& j == col ==> out[j].width == width
        &&& (j == col + 1 && width == 2) ==> out[j].width == 0
        &&& (j == col - 1 && lead_cleared) ==> out[j] == blank_cell()
        &&& (j == col + 1 && cont_cleared && width != 2) ==> out[j] == blank_cell()
        &&& (j == col + 2 && next_cleared) ==> out[j] == blank_cell()
        &&& (j != col && !(j == col + 1 && width == 2)) ==> {
            ||| out[j] == row[j]
            ||| (out[j] == blank_cell() && ((j == col - 1 && lead_cleared) || (j == col + 1
                && cont_cleared) || (j == col + 2 && next_cleared)))
        }
    } by {
        let r1 = if lead_cleared {
            row.update(col - 1, blank_cell())
        } else {
            row
        };
        assert(r1[col] == row[col]);
        let r2 = if r1[col].width == 2 && col + 1 < n {
            r1.update(col + 1, blank_cell())
        } else {
            r1
        };
        if cont_cleared {
            assert(r2[col + 1] == blank_cell());
        } else if col + 1 < n {
            assert(r2[col + 1] == row[col + 1]);
        }
        if col + 2 < n {
            assert(r2[col + 2] == row[col + 2]);
        }
        assert(cleared_fragments(row, col, width).len() == n);
    }
    assert forall|i: int| 0 <= i < n && #[trigger] out[i].width == 0 implies i > 0 && out[i
        - 1].width == 2 by {
        if i != col && !(i == col + 1 && width == 2) {
            assert(out[i] == row[i]);
            assert(row[i - 1].width == 2);
            if i - 1 == col + 1 && width == 2 {
                assert(out[i] == blank_cell());
            } else if i - 1 != col && i - 1 != col - 1 && out[i - 1] == blank_cell() {
                assert(row[col + 2].width == 0);
            }
        }
    }
    assert forall|i: int| 0 <= i < n - 1 && #[trigger] out[i].width == 2 implies out[i + 1].width
        == 0 by {
        if i != col && !(i == col + 1 && width == 2) {
            assert(out[i] == row[i]);
            assert(row[i + 1].width == 0);
        }
    }
}

/// Printing never leaves the cursor beyond the last column, and a wide
/// character written on a screen of two or more columns always has room
/// for its continuation cell.
pub proof fn lemma_print_stays_on_screen(
    c: char,
    cjk: bool,
    cols: usize,
    rows: usize,
    cursor_col: usize,
    wrap_pending: bool,
    auto_wrap: bool,
)
    requires
        cols == 0 || cursor_col < cols,
    ensures
        print_outcome(c, cjk, cols, rows, cursor_col, wrap_pending, auto_wrap) matches
            PrintOutcome::Write { col, width, next_col, line_feeds, .. } ==> {
            &&& col < cols
            &&& next_col < cols
            &&& line_feeds <= 2
            &&& (width == 2 && cols >= 2 ==> col + 1 < cols)
        },
{
}

/// An erased cell: blank, in background colour `bg`.
pub open spec fn erased_cell(bg: Color) -> Cell {
    Cell { bg, ..blank_cell() }
}

/// The columns EL erases with the cursor at `col` on a row of `len`
/// cells: from the cursor to the end, from the start through the cursor,
/// or the whole row.
pub open spec fn line_erase_range(col: int, len: int, region: LineRegion) -> (int, int) {
    match region {
        LineRegion::ToEnd => (col, len),
        LineRegion::FromStart => (0, if col + 1 < len {
            col + 1
        } else {
            len
        }),
        LineRegion::Whole => (0, len),
    }
}

/// `row` with the cells `from..to` erased in background colour `bg`.
pub open spec fn erased_row(row: Seq<Cell>, from: int, to: int, bg: Color) -> Seq<Cell> {
    Seq::new(row.len(), |i: int| if from <= i < to { erased_cell(bg) } else { row[i] })
}

/// EL: erase part of the cursor's row in the pen's background colour.
pub fn erase_in_line(row: &mut Vec<Cell>, col: usize, region: LineRegion, bg: Color)
    ensures
        final(row)@ == erased_row(
            old(row)@,
            line_erase_range(col as int, old(row)@.len() as int, region).0,
            line_erase_range(col as int, old(row)@.len() as int, region).1,
            bg,
        ),
{
    let n = row.len();
    let (from, to) = match region {
        LineRegion::ToEnd => (col, n),
        LineRegion::FromStart => (0, if col < n && col + 1 < n {
            col + 1
        } else {
            n
        }),
        LineRegion::Whole => (0, n),
    };
    let ghost r0 = row@;
    let blank = Cell { bg, ..Cell::blank() };
    let mut i = from;
    if i > to {
        i = to;
    }
    while i < to
        invariant
            n == row@.len() == r0.len(),
            to <= n,
            i <= to,
            from <= to ==> from <= i,
            from > to ==> i == to,
            forall|k: int| 0 <= k < n ==> #[trigger] row@[k] == if from <= k < i {
                erased_cell(bg)
            } else {
                r0[k]
            },
            blank == erased_cell(bg),
        decreases to - i,
    {
        row.set(i, blank);
        i = i + 1;
    }
    proof {
        assert(row@ =~= erased_row(r0, from as int, to as int, bg));
    }
}

/// Writing `c` at `col` with `pen` leaves that cell holding `c` in the
/// pen's colours and attributes (and the link state), with the width
/// given; a wide character's next cell becomes its continuation in the
/// pen's colours; the row keeps its length, and no cell more than one
/// before or two after `col` changes.
pub proof fn lemma_written_cell_carries_pen(
    row: Seq<Cell>,
    col: int,
    c: char,
    width: usize,
    pen: Pen,
    hyperlink: bool,
)
    requires
        0 <= col < row.len(),
        width <= 2,
    ensures
        ({
            let w = written_row(row, col, c, width, pen, hyperlink);
            &&& w.len() == row.len()
            &&& w[col].c == c
            &&& w[col].fg == pen.fg
            &&& w[col].bg == pen.bg
            &&& w[col].attrs == pen.attrs
            &&& w[col].underline_color == pen.underline_color
            &&& w[col].hyperlink == hyperlink
            &&& w[col].width == width
            &&& (width == 2 && col + 1 < row.len()) ==> {
                &&& w[col + 1].width == 0
                &&& w[col + 1].fg == pen.fg
                &&& w[col + 1].bg == pen.bg
                &&& w[col + 1].attrs == pen.attrs
                &&& w[col + 1].hyperlink == hyperlink
            }
            &&& forall|k: int| 0 <= k < row.len() && (k < col - 1 || k > col + 2) ==> w[k] == row[k]
        }),
{
}

/// EL in terms of the cursor's column: `ToEnd` blanks the cursor's cell
/// and every cell after it, `FromStart` every cell up to and including the
/// cursor's, `Whole` the whole row; the blanked cells are spaces in the
/// given background, the rest stay as they were.
pub proof fn lemma_line_erase_cells(row: Seq<Cell>, col: int, bg: Color)
    requires
        0 <= col < row.len(),
    ensures
        ({
            let len = row.len() as int;
            let to_end = erased_row(
                row,
                line_erase_range(col, len, LineRegion::ToEnd).0,
                line_erase_range(col, len, LineRegion::ToEnd).1,
                bg,
            );
            let from_start = erased_row(
                row,
                line_erase_range(col, len, LineRegion::FromStart).0,
                line_erase_range(col, len, LineRegion::FromStart).1,
                bg,
            );
            let whole = erased_row(
                row,
                line_erase_range(col, len, LineRegion::Whole).0,
                line_erase_range(col, len, LineRegion::Whole).1,
                bg,
            );
            &&& to_end.len() == len && from_start.len() == len && whole.len() == len
            &&& forall|k: int|
                0 <= k < len ==> {
                    &&& (k >= col ==> to_end[k].c == ' ' && to_end[k].bg == bg)
                    &&& (k < col ==> to_end[k] == row[k])
                    &&& (k <= col ==> from_start[k].c == ' ' && from_start[k].bg == bg)
                    &&& (k > col ==> from_start[k] == row[k])
                    &&& whole[k].c == ' ' && whole[k].bg == bg
                }
        }),
{
}

/// Printing moves the cursor as a terminal does, for a printable
/// character of width `w` (not a zero-width one) on a non-empty screen:
/// without a pending wrap it is written at the cursor and the cursor
/// advances by `w`, stopping on the last column with a wrap pending when
/// the character reaches it; with a wrap pending and auto-wrap on, it goes
/// to column 0 of the next line first; with auto-wrap off it overwrites at
/// the cursor. A wide character that does not fit before the right margin
/// goes to the next line (auto-wrap on) or is dropped (off).
pub proof fn lemma_print_advances(
    c: char,
    cjk: bool,
    cols: usize,
    rows: usize,
    cursor_col: usize,
    wrap_pending: bool,
    auto_wrap: bool,
)
    requires
        !zero_width_combining(c),
        cols > 0,
        rows > 0,
        cursor_col < cols,
    ensures
        ({
            let w = display_width(c, cjk) as int;
            let o = print_outcome(c, cjk, cols, rows, cursor_col, wrap_pending, auto_wrap);
            let start: int = if wrap_pending && auto_wrap { 0 } else { cursor_col as int };
            let fits = w != 2 || start < cols - 1;
            &&& (fits ==> o == PrintOutcome::Write {
                line_feeds: if wrap_pending && auto_wrap { 1 } else { 0 },
                col: start as usize,
                width: w as usize,
                next_col: if start + w >= cols { (cols - 1) as usize } else { (start + w) as usize },
                wrap_pending: start + w >= cols,
            })
            &&& (!fits && auto_wrap ==> o == PrintOutcome::Write {
                line_feeds: if wrap_pending { 2 } else { 1 },
                col: 0,
                width: w as usize,
                next_col: if w >= cols { (cols - 1) as usize } else { w as usize },
                wrap_pending: w >= cols,
            })
            &&& (!fits && !auto_wrap ==> o == PrintOutcome::Dropped)
        }),
{
}

} // verus!
