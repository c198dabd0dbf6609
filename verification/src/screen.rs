//! The main and alternate screens: full-screen applications switch to the
//! alternate screen, which starts blank, and switching back shows the main
//! screen as it was left.

use vstd::prelude::*;
use crate::print::{blank_cell, write_char, written_row, Cell};
use crate::sgr::Pen;

verus! {

/// A blank row of `cols` cells.
pub open spec fn blank_row(cols: nat) -> Seq<Cell> {
    Seq::new(cols, |i: int| blank_cell())
}

/// The rows of a grid as sequences of cells.
pub open spec fn rows_of(grid: Seq<Vec<Cell>>) -> Seq<Seq<Cell>> {
    grid.map_values(|r: Vec<Cell>| r@)
}

/// A blank grid of `rows` rows of `cols` cells.
pub open spec fn blank_grid(cols: nat, rows: nat) -> Seq<Seq<Cell>> {
    Seq::new(rows, |i: int| blank_row(cols))
}

/// The two screens as plain values.
pub struct ScreensView {
    pub main: Seq<Seq<Cell>>,
    pub alt: Seq<Seq<Cell>>,
    pub using_alt: bool,
    pub cols: nat,
    pub rows: nat,
}

impl ScreensView {
    /// The screen in use.
    pub open spec fn active(self) -> Seq<Seq<Cell>> {
        if self.using_alt {
            self.alt
        } else {
            self.main
        }
    }

    /// Both screens are `rows` rows of `cols` cells.
    pub open spec fn wf(self) -> bool {
        &&& self.main.len() == self.rows
        &&& self.alt.len() == self.rows
        &&& forall|i: int| 0 <= i < self.rows ==> #[trigger] self.main[i].len() == self.cols
        &&& forall|i: int| 0 <= i < self.rows ==> #[trigger] self.alt[i].len() == self.cols
    }
}

/// The main and the alternate screen.
pub struct Screens {
    main: Vec<Vec<Cell>>,
    alt: Vec<Vec<Cell>>,
    using_alt: bool,
    cols: usize,
    rows: usize,
}

impl View for Screens {
    type V = ScreensView;

    closed spec fn view(&self) -> ScreensView {
        ScreensView {
            main: rows_of(self.main@),
            alt: rows_of(self.alt@),
            using_alt: self.using_alt,
            cols: self.cols as nat,
            rows: self.rows as nat,
        }
    }
}

/// A blank row.
fn make_blank_row(cols: usize) -> (r: Vec<Cell>)
    ensures
        r@ == blank_row(cols as nat),
{
    let mut r: Vec<Cell> = Vec::new();
    let mut i: usize = 0;
    while i < cols
        invariant
            i <= cols,
            r@ == blank_row(i as nat),
        decreases cols - i,
    {
        r.push(Cell::blank());
        proof {
            assert(r@ =~= blank_row((i + 1) as nat));
        }
        i = i + 1;
    }
    r
}

/// A blank grid.
fn make_blank_grid(cols: usize, rows: usize) -> (g: Vec<Vec<Cell>>)
    ensures
        rows_of(g@) == blank_grid(cols as nat, rows as nat),
{
    let mut g: Vec<Vec<Cell>> = Vec::new();
    let mut i: usize = 0;
    while i < rows
        invariant
            i <= rows,
            g@.len() == i,
            rows_of(g@) == blank_grid(cols as nat, i as nat),
        decreases rows - i,
    {
        let row = make_blank_row(cols);
        let ghost before = g@;
        g.push(row);
        proof {
            assert(g@ == before.push(row));
            assert forall|k: int| 0 <= k < i + 1 implies #[trigger] rows_of(g@)[k] == blank_grid(
                cols as nat,
                (i + 1) as nat,
            )[k] by {
                if k < i {
                    assert(rows_of(g@)[k] == g@[k]@);
                    assert(g@[k] == before[k]);
                    assert(rows_of(before)[k] == before[k]@);
                }
            }
            assert(rows_of(g@) =~= blank_grid(cols as nat, (i + 1) as nat));
        }
        i = i + 1;
    }
    g
}

impl Screens {
    /// Two blank screens of `cols` by `rows`, the main one in use.
    pub fn new(cols: usize, rows: usize) -> (s: Self)
        ensures
            s@.wf(),
            s@.main == blank_grid(cols as nat, rows as nat),
            s@.alt == blank_grid(cols as nat, rows as nat),
            !s@.using_alt,
            s@.cols == cols,
            s@.rows == rows,
    {
        Screens {
            main: make_blank_grid(cols, rows),
            alt: make_blank_grid(cols, rows),
            using_alt: false,
            cols,
            rows,
        }
    }

    /// Whether the alternate screen is in use.
    pub fn using_alt(&self) -> (r: bool)
        ensures
            r == self@.using_alt,
    {
        self.using_alt
    }

    /// The cell at `col`, `row` of the screen in use.
    pub fn cell(&self, col: usize, row: usize) -> (c: Cell)
        requires
            self@.wf(),
            row < self@.rows,
            col < self@.cols,
        ensures
            c == self@.active()[row as int][col as int],
    {
        if self.using_alt {
            proof {
                assert(self@.alt[row as int] == self.alt@[row as int]@);
            }
            self.alt[row][col]
        } else {
            proof {
                assert(self@.main[row as int] == self.main@[row as int]@);
            }
            self.main[row][col]
        }
    }

    /// Switch to the alternate screen (modes 47, 1047, 1049 set): it starts
    /// blank; already on it, nothing changes.
    pub fn enter_alt(&mut self)
        requires
            old(self)@.wf(),
        ensures
            final(self)@.wf(),
            old(self)@.using_alt ==> final(self)@ == old(self)@,
            !old(self)@.using_alt ==> final(self)@ == (ScreensView {
                alt: blank_grid(old(self)@.cols, old(self)@.rows),
                using_alt: true,
                ..old(self)@
            }),
    {
        if !self.using_alt {
            self.alt = make_blank_grid(self.cols, self.rows);
            self.using_alt = true;
        }
    }

    /// Switch back to the main screen (the modes reset), which shows what
    /// it held when it was left.
    pub fn leave_alt(&mut self)
        ensures
            final(self)@ == (ScreensView { using_alt: false, ..old(self)@ }),
    {
        self.using_alt = false;
    }

    /// Write `c` of width `width` at `col`, `row` of the screen in use.
    pub fn write(&mut self, row: usize, col: usize, c: char, width: usize, pen: Pen, hyperlink: bool)
        requires
            old(self)@.wf(),
            row < old(self)@.rows,
            col < old(self)@.cols,
        ensures
            final(self)@.wf(),
            final(self)@.using_alt == old(self)@.using_alt,
            final(self)@.using_alt ==> final(self)@ == (ScreensView {
                alt: old(self)@.alt.update(
                    row as int,
                    written_row(old(self)@.alt[row as int], col as int, c, width, pen, hyperlink),
                ),
                ..old(self)@
            }),
            !final(self)@.using_alt ==> final(self)@ == (ScreensView {
                main: old(self)@.main.update(
                    row as int,
                    written_row(old(self)@.main[row as int], col as int, c, width, pen, hyperlink),
                ),
                ..old(self)@
            }),
    {
        if self.using_alt {
            let mut r = self.alt[row].clone();
            proof {
                assert(r@ == old(self)@.alt[row as int]);
            }
            write_char(&mut r, col, c, width, pen, hyperlink);
            self.alt.set(row, r);
            proof {
                assert(rows_of(self.alt@) =~= old(self)@.alt.update(
                    row as int,
                    written_row(old(self)@.alt[row as int], col as int, c, width, pen, hyperlink),
                ));
            }
        } else {
            let mut r = self.main[row].clone();
            proof {
                assert(r@ == old(self)@.main[row as int]);
            }
            write_char(&mut r, col, c, width, pen, hyperlink);
            self.main.set(row, r);
            proof {
                assert(rows_of(self.main@) =~= old(self)@.main.update(
                    row as int,
                    written_row(old(self)@.main[row as int], col as int, c, width, pen, hyperlink),
                ));
            }
        }
    }
}

/// Entering the alternate screen and leaving it again gives back the main
/// screen untouched, whatever was written on the alternate one.
pub proof fn lemma_alt_round_trip(s: ScreensView, alt_after: Seq<Seq<Cell>>)
    requires
        !s.using_alt,
    ensures
        ({
            let entered = ScreensView { alt: blank_grid(s.cols, s.rows), using_alt: true, ..s };
            let written = ScreensView { alt: alt_after, ..entered };
            let left = ScreensView { using_alt: false, ..written };
            &&& entered.active() == blank_grid(s.cols, s.rows)
            &&& left.active() == s.main
        }),
{
}

} // verus!
