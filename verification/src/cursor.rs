//! Where the cursor stands after an escape sequence or a control character:
//! moves clamped to the screen, the scrolling region and its homing, origin
//! mode, back tabs, and line feeds at the bottom margin.

use vstd::prelude::*;
use crate::csi::{csi_effect, first_sent, CsiAction, CsiEffect, ModeChange};

verus! {

/// The cursor and the parts of the terminal that decide where it moves.
#[derive(Debug, Clone, Copy, PartialEq, Eq, Structural)]
pub struct CursorState {
    pub row: usize,
    pub col: usize,
    pub rows: usize,
    pub cols: usize,
    /// First row of the scrolling region.
    pub scroll_top: usize,
    /// Last row of the scrolling region.
    pub scroll_bottom: usize,
    /// DECOM.
    pub origin_mode: bool,
    /// The next printed character wraps first.
    pub wrap_pending: bool,
    /// LNM: a line feed also returns to column 0.
    pub linefeed_mode: bool,
}

impl CursorState {
    /// The cursor on the screen, inside a scrolling region on the screen.
    pub open spec fn wf(self) -> bool {
        &&& 0 < self.rows
        &&& 0 < self.cols
        &&& self.row < self.rows
        &&& self.col < self.cols
        &&& self.scroll_top <= self.scroll_bottom < self.rows
    }
}

/// `v` moved onto `0..n` (the last position when it is beyond).
pub open spec fn clamp_to(v: int, n: usize) -> usize {
    if v >= n {
        (n - 1) as usize
    } else if v < 0 {
        0
    } else {
        v as usize
    }
}

/// `a - n`, stopping at 0.
pub open spec fn minus(a: usize, n: usize) -> usize {
    if n >= a {
        0
    } else {
        (a - n) as usize
    }
}

/// The column at or before `c` that is 0 or holds a tab stop.
pub open spec fn stop_at_or_before(stops: Seq<bool>, c: int) -> int
    decreases c,
{
    if c <= 0 {
        0
    } else if stops[c] {
        c
    } else {
        stop_at_or_before(stops, c - 1)
    }
}

/// The column after `n` back tabs from `col`: each moves at least one
/// column left, to the previous tab stop (or column 0).
pub open spec fn back_tab_col(stops: Seq<bool>, col: int, n: nat) -> int
    decreases n,
{
    if n == 0 || col <= 0 {
        col
    } else {
        back_tab_col(stops, stop_at_or_before(stops, col - 1), (n - 1) as nat)
    }
}

/// The cursor after a CSI action. Moves stop at the screen's edges;
/// DECSTBM sets the region (the whole screen when it is not one on the
/// screen) and homes the cursor; CBT moves back by tab stops; SM/RM 20
/// sets LNM. Moving actions clear a pending wrap; the others leave the
/// cursor alone.
pub open spec fn cursor_after_csi(s: CursorState, e: CsiEffect, stops: Seq<bool>) -> CursorState {
    match e {
        CsiEffect::CursorUp(n) => CursorState { row: minus(s.row, n), wrap_pending: false, ..s },
        CsiEffect::CursorDown(n) => CursorState {
            row: clamp_to(s.row + n, s.rows),
            wrap_pending: false,
            ..s
        },
        CsiEffect::CursorForward(n) => CursorState {
            col: clamp_to(s.col + n, s.cols),
            wrap_pending: false,
            ..s
        },
        CsiEffect::CursorBack(n) => CursorState { col: minus(s.col, n), wrap_pending: false, ..s },
        CsiEffect::NextLine(n) => CursorState {
            row: clamp_to(s.row + n, s.rows),
            col: 0,
            wrap_pending: false,
            ..s
        },
        CsiEffect::PrecedingLine(n) => CursorState {
            row: minus(s.row, n),
            col: 0,
            wrap_pending: false,
            ..s
        },
        CsiEffect::CursorColumn(c) => CursorState {
            col: clamp_to(c as int, s.cols),
            wrap_pending: false,
            ..s
        },
        CsiEffect::CursorPosition { row, col } => CursorState {
            row: clamp_to(row as int, s.rows),
            col: clamp_to(col as int, s.cols),
            wrap_pending: false,
            ..s
        },
        CsiEffect::LinePosition(r) => CursorState {
            row: clamp_to(r as int, s.rows),
            wrap_pending: false,
            ..s
        },
        CsiEffect::SetMargins { top, bottom } => {
            let valid = top <= bottom && bottom < s.rows;
            CursorState {
                scroll_top: if valid {
                    top
                } else {
                    0
                },
                scroll_bottom: if valid {
                    bottom
                } else {
                    (s.rows - 1) as usize
                },
                row: 0,
                col: 0,
                wrap_pending: false,
                ..s
            }
        },
        CsiEffect::BackTab(n) => CursorState {
            col: back_tab_col(stops, s.col as int, n as nat) as usize,
            wrap_pending: false,
            ..s
        },
        CsiEffect::LinefeedMode(on) => CursorState { linefeed_mode: on, ..s },
        _ => s,
    }
}

/// The cursor after a private mode change: DECOM set moves it to the top
/// of the scrolling region, reset to the top of the screen, both at
/// column 0; other modes leave it alone.
pub open spec fn cursor_after_mode(s: CursorState, m: ModeChange) -> CursorState {
    match m {
        ModeChange::OriginMode(on) => CursorState {
            origin_mode: on,
            row: if on {
                s.scroll_top
            } else {
                0
            },
            col: 0,
            wrap_pending: false,
            ..s
        },
        _ => s,
    }
}

/// Whether a line feed scrolls the region: the cursor is on its bottom row.
pub open spec fn line_feed_scrolls(s: CursorState) -> bool {
    s.row == s.scroll_bottom
}

/// The cursor after a line feed: on the region's bottom row it stays (the
/// region scrolls up), elsewhere it moves down a row unless it is on the
/// last row; under LNM it also returns to column 0.
pub open spec fn cursor_after_line_feed(s: CursorState) -> CursorState {
    CursorState {
        row: if line_feed_scrolls(s) || s.row + 1 >= s.rows {
            s.row
        } else {
            (s.row + 1) as usize
        },
        col: if s.linefeed_mode {
            0
        } else {
            s.col
        },
        wrap_pending: false,
        ..s
    }
}

/// The cursor after IND (ESC D): a line down, the column kept; on the
/// region's bottom row it stays and the region scrolls up.
pub open spec fn cursor_after_index(s: CursorState) -> CursorState {
    CursorState {
        row: if line_feed_scrolls(s) || s.row + 1 >= s.rows {
            s.row
        } else {
            (s.row + 1) as usize
        },
        wrap_pending: false,
        ..s
    }
}

/// Whether RI (ESC M) scrolls the region down: the cursor is on its top row.
pub open spec fn reverse_index_scrolls(s: CursorState) -> bool {
    s.row == s.scroll_top
}

/// The cursor after RI: a line up; on the region's top row it stays and
/// the region scrolls down.
pub open spec fn cursor_after_reverse_index(s: CursorState) -> CursorState {
    CursorState {
        row: if reverse_index_scrolls(s) || s.row == 0 {
            s.row
        } else {
            (s.row - 1) as usize
        },
        wrap_pending: false,
        ..s
    }
}

/// `a + n` moved onto `0..limit`.
fn add_clamped(a: usize, n: usize, limit: usize) -> (r: usize)
    requires
        a < limit,
    ensures
        r == clamp_to(a + n, limit),
{
    if n >= limit - a {
        limit - 1
    } else {
        a + n
    }
}

/// `v` moved onto `0..limit`.
fn clamped(v: usize, limit: usize) -> (r: usize)
    requires
        limit > 0,
    ensures
        r == clamp_to(v as int, limit),
{
    if v >= limit {
        limit - 1
    } else {
        v
    }
}

/// `a - n`, stopping at 0.
fn sub_floor(a: usize, n: usize) -> (r: usize)
    ensures
        r == minus(a, n),
{
    if n >= a {
        0
    } else {
        a - n
    }
}

proof fn lemma_stop_bounds(stops: Seq<bool>, c: int)
    ensures
        0 <= stop_at_or_before(stops, c) <= if c < 0 {
            0
        } else {
            c
        },
    decreases c,
{
    if c > 0 && !stops[c] {
        lemma_stop_bounds(stops, c - 1);
    }
}

proof fn lemma_back_tab_bounds(stops: Seq<bool>, col: int, n: nat)
    requires
        col >= 0,
    ensures
        0 <= back_tab_col(stops, col, n) <= col,
    decreases n,
{
    if n > 0 && col > 0 {
        lemma_stop_bounds(stops, col - 1);
        lemma_back_tab_bounds(stops, stop_at_or_before(stops, col - 1), (n - 1) as nat);
    }
}

/// The column after `n` back tabs.
fn back_tab(stops: &Vec<bool>, col: usize, n: usize) -> (r: usize)
    requires
        col < stops@.len(),
    ensures
        r as int == back_tab_col(stops@, col as int, n as nat),
{
    let mut c = col;
    let mut i: usize = 0;
    while i < n
        invariant
            i <= n,
            c <= col < stops@.len(),
            back_tab_col(stops@, c as int, (n - i) as nat) == back_tab_col(
                stops@,
                col as int,
                n as nat,
            ),
        ensures
            i == n || c == 0,
            i <= n,
            c <= col,
            back_tab_col(stops@, c as int, (n - i) as nat) == back_tab_col(
                stops@,
                col as int,
                n as nat,
            ),
        decreases n - i,
    {
        if c == 0 {
            break;
        }
        let ghost before = c;
        c = c - 1;
        let ghost start = c;
        while c > 0 && !stops[c]
            invariant
                c <= start < col < stops@.len(),
                stop_at_or_before(stops@, c as int) == stop_at_or_before(stops@, start as int),
            decreases c,
        {
            c = c - 1;
        }
        proof {
            assert(stop_at_or_before(stops@, c as int) == c);
            assert(back_tab_col(stops@, before as int, (n - i) as nat) == back_tab_col(
                stops@,
                c as int,
                (n - i - 1) as nat,
            ));
        }
        i = i + 1;
    }
    proof {
        assert(back_tab_col(stops@, c as int, (n - i) as nat) == c);
    }
    c
}

impl CursorState {
    /// The cursor of a fresh screen of `cols` by `rows`: at the top left,
    /// the whole screen as scrolling region, no mode set.
    pub fn new(cols: usize, rows: usize) -> (s: Self)
        requires
            cols > 0,
            rows > 0,
        ensures
            s.wf(),
            s == (CursorState {
                row: 0,
                col: 0,
                rows,
                cols,
                scroll_top: 0,
                scroll_bottom: (rows - 1) as usize,
                origin_mode: false,
                wrap_pending: false,
                linefeed_mode: false,
            }),
    {
        CursorState {
            row: 0,
            col: 0,
            rows,
            cols,
            scroll_top: 0,
            scroll_bottom: rows - 1,
            origin_mode: false,
            wrap_pending: false,
            linefeed_mode: false,
        }
    }
}

impl CursorState {
    /// Apply a CSI action to the cursor (`stops` are the tab stops, one per
    /// column).
    pub fn apply_csi(&mut self, action: &CsiAction, stops: &Vec<bool>)
        requires
            old(self).wf(),
            old(self).cols <= stops@.len(),
        ensures
            final(self).wf(),
            *final(self) == cursor_after_csi(*old(self), action@, stops@),
    {
        match action {
            CsiAction::CursorUp(n) => {
                self.row = sub_floor(self.row, *n);
                self.wrap_pending = false;
            },
            CsiAction::CursorDown(n) => {
                self.row = add_clamped(self.row, *n, self.rows);
                self.wrap_pending = false;
            },
            CsiAction::CursorForward(n) => {
                self.col = add_clamped(self.col, *n, self.cols);
                self.wrap_pending = false;
            },
            CsiAction::CursorBack(n) => {
                self.col = sub_floor(self.col, *n);
                self.wrap_pending = false;
            },
            CsiAction::NextLine(n) => {
                self.row = add_clamped(self.row, *n, self.rows);
                self.col = 0;
                self.wrap_pending = false;
            },
            CsiAction::PrecedingLine(n) => {
                self.row = sub_floor(self.row, *n);
                self.col = 0;
                self.wrap_pending = false;
            },
            CsiAction::CursorColumn(c) => {
                self.col = clamped(*c, self.cols);
                self.wrap_pending = false;
            },
            CsiAction::CursorPosition { row, col } => {
                self.row = clamped(*row, self.rows);
                self.col = clamped(*col, self.cols);
                self.wrap_pending = false;
            },
            CsiAction::LinePosition(r) => {
                self.row = clamped(*r, self.rows);
                self.wrap_pending = false;
            },
            CsiAction::SetMargins { top, bottom } => {
                if *top <= *bottom && *bottom < self.rows {
                    self.scroll_top = *top;
                    self.scroll_bottom = *bottom;
                } else {
                    self.scroll_top = 0;
                    self.scroll_bottom = self.rows - 1;
                }
                self.row = 0;
                self.col = 0;
                self.wrap_pending = false;
            },
            CsiAction::BackTab(n) => {
                proof {
                    lemma_back_tab_bounds(stops@, self.col as int, *n as nat);
                }
                self.col = back_tab(stops, self.col, *n);
                self.wrap_pending = false;
            },
            CsiAction::LinefeedMode(on) => {
                self.linefeed_mode = *on;
            },
            _ => {},
        }
    }

    /// Apply a private mode change to the cursor.
    pub fn apply_mode(&mut self, change: ModeChange)
        requires
            old(self).wf(),
        ensures
            final(self).wf(),
            *final(self) == cursor_after_mode(*old(self), change),
    {
        match change {
            ModeChange::OriginMode(on) => {
                self.origin_mode = on;
                self.row = if on {
                    self.scroll_top
                } else {
                    0
                };
                self.col = 0;
                self.wrap_pending = false;
            },
            _ => {},
        }
    }

    /// A line feed (LF, VT or FF). Returns whether the scrolling region
    /// scrolls up a line (the screen's part of the work).
    pub fn line_feed(&mut self) -> (scrolls: bool)
        requires
            old(self).wf(),
        ensures
            final(self).wf(),
            *final(self) == cursor_after_line_feed(*old(self)),
            scrolls == line_feed_scrolls(*old(self)),
    {
        let scrolls = self.row == self.scroll_bottom;
        if !scrolls && self.row + 1 < self.rows {
            self.row = self.row + 1;
        }
        if self.linefeed_mode {
            self.col = 0;
        }
        self.wrap_pending = false;
        scrolls
    }

    /// IND: a line down, keeping the column. Returns whether the region
    /// scrolls up.
    pub fn index(&mut self) -> (scrolls: bool)
        requires
            old(self).wf(),
        ensures
            final(self).wf(),
            *final(self) == cursor_after_index(*old(self)),
            scrolls == line_feed_scrolls(*old(self)),
    {
        let scrolls = self.row == self.scroll_bottom;
        if !scrolls && self.row + 1 < self.rows {
            self.row = self.row + 1;
        }
        self.wrap_pending = false;
        scrolls
    }

    /// RI: a line up. Returns whether the region scrolls down.
    pub fn reverse_index(&mut self) -> (scrolls: bool)
        requires
            old(self).wf(),
        ensures
            final(self).wf(),
            *final(self) == cursor_after_reverse_index(*old(self)),
            scrolls == reverse_index_scrolls(*old(self)),
    {
        let scrolls = self.row == self.scroll_top;
        if !scrolls && self.row > 0 {
            self.row = self.row - 1;
        }
        self.wrap_pending = false;
        scrolls
    }

    /// A carriage return: to column 0.
    pub fn carriage_return(&mut self)
        ensures
            *final(self) == (CursorState { col: 0, wrap_pending: false, ..*old(self) }),
    {
        self.col = 0;
        self.wrap_pending = false;
    }

    /// A backspace: one column left, stopping at column 0.
    pub fn backspace(&mut self)
        ensures
            *final(self) == (CursorState { col: minus(old(self).col, 1), wrap_pending: false, ..*old(self) }),
    {
        self.col = sub_floor(self.col, 1);
        self.wrap_pending = false;
    }
}

/// The cursor never leaves the screen, and the scrolling region stays on
/// it, whatever CSI action, mode change or line feed comes.
pub proof fn lemma_cursor_stays_on_screen(s: CursorState, e: CsiEffect, stops: Seq<bool>, m: ModeChange)
    requires
        s.wf(),
    ensures
        cursor_after_csi(s, e, stops).wf(),
        cursor_after_mode(s, m).wf(),
        cursor_after_line_feed(s).wf(),
{
    lemma_back_tab_bounds(stops, s.col as int, 0);
    match e {
        CsiEffect::BackTab(n) => lemma_back_tab_bounds(stops, s.col as int, n as nat),
        _ => {},
    }
}

/// The cursor after a move: at `row`, `col`, with no wrap pending, and
/// the screen, region and modes as they were.
pub open spec fn moved_to(s: CursorState, r: CursorState, row: int, col: int) -> bool {
    &&& r.row == row
    &&& r.col == col
    &&& !r.wrap_pending
    &&& r.rows == s.rows
    &&& r.cols == s.cols
    &&& r.scroll_top == s.scroll_top
    &&& r.scroll_bottom == s.scroll_bottom
    &&& r.origin_mode == s.origin_mode
    &&& r.linefeed_mode == s.linefeed_mode
}

/// The CSI moves, in terms of where the cursor was: CUU and CPL go up `n`
/// rows stopping at row 0, CUD and CNL down `n` rows stopping at the last
/// row, CUF right and CUB left `n` columns stopping at the edges; CNL and
/// CPL also go to column 0. CHA, VPA and CUP go to the 0-based column and
/// row given, the last one when beyond the screen. Each leaves no wrap
/// pending and changes nothing else.
pub proof fn lemma_cursor_moves(s: CursorState, n: usize, stops: Seq<bool>)
    requires
        s.wf(),
    ensures
        ({
            let up: int = if s.row < n { 0 } else { s.row - n };
            let down: int = if s.row + n > s.rows - 1 { s.rows - 1 } else { s.row + n };
            let left: int = if s.col < n { 0 } else { s.col - n };
            let right: int = if s.col + n > s.cols - 1 { s.cols - 1 } else { s.col + n };
            &&& moved_to(s, cursor_after_csi(s, CsiEffect::CursorUp(n), stops), up, s.col as int)
            &&& moved_to(s, cursor_after_csi(s, CsiEffect::CursorDown(n), stops), down, s.col as int)
            &&& moved_to(s, cursor_after_csi(s, CsiEffect::CursorForward(n), stops), s.row as int, right)
            &&& moved_to(s, cursor_after_csi(s, CsiEffect::CursorBack(n), stops), s.row as int, left)
            &&& moved_to(s, cursor_after_csi(s, CsiEffect::NextLine(n), stops), down, 0)
            &&& moved_to(s, cursor_after_csi(s, CsiEffect::PrecedingLine(n), stops), up, 0)
        }),
{
}

/// CHA, VPA and CUP go to the 0-based position given, clamped to the last
/// column and row; the other coordinate stays (CHA, VPA).
pub proof fn lemma_cursor_positions(s: CursorState, row: usize, col: usize, stops: Seq<bool>)
    requires
        s.wf(),
    ensures
        ({
            let r: int = if row > s.rows - 1 { s.rows - 1 } else { row as int };
            let c: int = if col > s.cols - 1 { s.cols - 1 } else { col as int };
            &&& moved_to(s, cursor_after_csi(s, CsiEffect::CursorColumn(col), stops), s.row as int, c)
            &&& moved_to(s, cursor_after_csi(s, CsiEffect::LinePosition(row), stops), r, s.col as int)
            &&& moved_to(s, cursor_after_csi(s, CsiEffect::CursorPosition { row, col }, stops), r, c)
        }),
{
}

/// Line feed, IND and RI, in terms of where the cursor was: IND goes a
/// row down and RI a row up, staying put on the region's bottom (IND) or
/// top (RI) row, where the region scrolls instead, and at the screen's
/// edge; a line feed goes where IND goes and, under LNM, to column 0 too.
/// DECOM homes the cursor: to the region's top row when set, to row 0 when
/// reset, at column 0.
pub proof fn lemma_vertical_steps(s: CursorState)
    requires
        s.wf(),
    ensures
        ({
            let down: int = if s.row == s.scroll_bottom || s.row == s.rows - 1 {
                s.row as int
            } else {
                s.row + 1
            };
            let up: int = if s.row == s.scroll_top || s.row == 0 {
                s.row as int
            } else {
                s.row - 1
            };
            &&& moved_to(s, cursor_after_index(s), down, s.col as int)
            &&& moved_to(s, cursor_after_reverse_index(s), up, s.col as int)
            &&& moved_to(
                s,
                cursor_after_line_feed(s),
                down,
                if s.linefeed_mode {
                    0
                } else {
                    s.col as int
                },
            )
            &&& cursor_after_mode(s, ModeChange::OriginMode(true)).row == s.scroll_top
            &&& cursor_after_mode(s, ModeChange::OriginMode(true)).col == 0
            &&& cursor_after_mode(s, ModeChange::OriginMode(true)).origin_mode
            &&& cursor_after_mode(s, ModeChange::OriginMode(false)).row == 0
            &&& cursor_after_mode(s, ModeChange::OriginMode(false)).col == 0
            &&& !cursor_after_mode(s, ModeChange::OriginMode(false)).origin_mode
        }),
{
}

/// DECSTBM (`CSI top ; bottom r`, 1-based, bottom defaulting to the last
/// row and cut to it) sets the scrolling region when it spans at least
/// two rows, and otherwise the whole screen; either way the cursor goes
/// home.
pub proof fn lemma_set_margins(s: CursorState, groups: Seq<Seq<u16>>, stops: Seq<bool>)
    requires
        s.wf(),
        s.rows <= u16::MAX,
    ensures
        ({
            let p0 = first_sent(groups);
            let p1: int = if groups.len() > 1 && groups[1].len() > 0 { groups[1][0] as int } else { 0 };
            let top: int = if p0 == 0 { 0 } else { p0 - 1 };
            let b: int = if p1 == 0 { s.rows as int } else { p1 };
            let bottom: int = if b - 1 > s.rows - 1 { s.rows - 1 } else if b == 0 { 0 } else { b - 1 };
            let r = cursor_after_csi(s, csi_effect(groups, Seq::empty(), 'r', s.rows), stops);
            &&& r.row == 0 && r.col == 0 && !r.wrap_pending
            &&& top < bottom ==> r.scroll_top == top && r.scroll_bottom == bottom
            &&& top >= bottom ==> r.scroll_top == 0 && r.scroll_bottom == s.rows - 1
            &&& r.rows == s.rows && r.cols == s.cols && r.origin_mode == s.origin_mode
        }),
{
}

/// The stop at or before `c` is a set stop (or column 0), and no stop
/// lies after it up to `c`.
proof fn lemma_stop_at_or_before_is_last(stops: Seq<bool>, c: int)
    requires
        0 <= c < stops.len(),
    ensures
        0 <= stop_at_or_before(stops, c) <= c,
        stop_at_or_before(stops, c) == 0 || stops[stop_at_or_before(stops, c)],
        forall|j: int| stop_at_or_before(stops, c) < j <= c ==> !stops[j],
    decreases c,
{
    if c > 0 && !stops[c] {
        lemma_stop_at_or_before_is_last(stops, c - 1);
    }
}

/// CBT by one stop moves left to the nearest set tab stop before the
/// cursor, passing none, or to column 0 when there is none; at column 0
/// it stays.
pub proof fn lemma_back_tab_one(stops: Seq<bool>, col: int)
    requires
        0 <= col < stops.len(),
    ensures
        ({
            let r = back_tab_col(stops, col, 1);
            &&& col == 0 ==> r == 0
            &&& col > 0 ==> 0 <= r < col && (r == 0 || stops[r]) && forall|j: int|
                r < j < col ==> !stops[j]
        }),
{
    if col > 0 {
        lemma_stop_at_or_before_is_last(stops, col - 1);
        let r1 = stop_at_or_before(stops, col - 1);
        assert(back_tab_col(stops, r1, 0) == r1);
    }
}

} // verus!
