//! C0 control characters and plain ESC sequences: what each one asks of the
//! terminal, tab stops, and the saved-cursor slots of DECSC/DECRC.

use vstd::prelude::*;
use crate::csi::CursorShape;
use crate::sgr::Pen;

verus! {

/// What a C0 control character asks for.
#[derive(Debug, Clone, Copy, PartialEq, Eq, Structural)]
pub enum ControlAction {
    /// BEL: nothing to draw.
    Bell,
    /// BS: one column left (not past column 0).
    Backspace,
    /// HT: to the next tab stop.
    Tab,
    /// LF, VT, FF: a line feed (and a carriage return under LNM).
    LineFeed,
    /// CR: to column 0.
    CarriageReturn,
    /// Anything else (SO and SI included).
    Ignore,
}

/// The action of C0 byte `b`.
pub open spec fn control_of(b: u8) -> ControlAction {
    if b == 0x07 {
        ControlAction::Bell
    } else if b == 0x08 {
        ControlAction::Backspace
    } else if b == 0x09 {
        ControlAction::Tab
    } else if b == 0x0A || b == 0x0B || b == 0x0C {
        ControlAction::LineFeed
    } else if b == 0x0D {
        ControlAction::CarriageReturn
    } else {
        ControlAction::Ignore
    }
}

/// Decode a C0 control character.
pub fn control_action(b: u8) -> (r: ControlAction)
    ensures
        r == control_of(b),
{
    match b {
        0x07 => ControlAction::Bell,
        0x08 => ControlAction::Backspace,
        0x09 => ControlAction::Tab,
        0x0A | 0x0B | 0x0C => ControlAction::LineFeed,
        0x0D => ControlAction::CarriageReturn,
        _ => ControlAction::Ignore,
    }
}

/// The column after a backspace.
pub fn backspace_col(col: usize) -> (r: usize)
    ensures
        r == (if col == 0 {
            0
        } else {
            col - 1
        }),
{
    if col == 0 {
        0
    } else {
        col - 1
    }
}

/// The column after a line feed: column 0 under LNM, unchanged otherwise.
pub fn line_feed_col(col: usize, linefeed_mode: bool) -> (r: usize)
    ensures
        r == (if linefeed_mode {
            0
        } else {
            col
        }),
{
    if linefeed_mode {
        0
    } else {
        col
    }
}

/// The first set tab stop at or after `from`; `stops.len()` when there is
/// none.
pub open spec fn first_stop_from(stops: Seq<bool>, from: int) -> int
    decreases stops.len() - from,
{
    if from >= stops.len() {
        stops.len() as int
    } else if from >= 0 && stops[from] {
        from
    } else {
        first_stop_from(stops, from + 1)
    }
}

/// Where a horizontal tab moves the cursor from `cur` on a screen `cols`
/// wide: to the next set stop after the cursor, or to the last column
/// when there is none (never past the last column).
pub open spec fn tab_target(stops: Seq<bool>, cur: int, cols: int) -> int {
    let stop = first_stop_from(stops, cur + 1);
    if cur + 1 < cols && stop < stops.len() && stop < cols - 1 {
        stop
    } else {
        cols - 1
    }
}

proof fn lemma_first_stop_bounds(stops: Seq<bool>, from: int)
    requires
        0 <= from,
    ensures
        from <= first_stop_from(stops, from) <= stops.len() || (from > stops.len()
            && first_stop_from(stops, from) == stops.len()),
        first_stop_from(stops, from) < stops.len() ==> stops[first_stop_from(stops, from)],
        forall|j: int| from <= j < first_stop_from(stops, from) && j < stops.len() ==> !stops[j],
    decreases stops.len() - from,
{
    if from < stops.len() && !stops[from] {
        lemma_first_stop_bounds(stops, from + 1);
    }
}

/// The column a horizontal tab moves to. The stops cover the columns
/// after the cursor, as the terminal keeps one per column.
pub fn next_tab_stop(stops: &Vec<bool>, cur: usize, cols: usize) -> (r: usize)
    requires
        cols > 0,
        cur + 1 >= cols || cur + 1 <= stops@.len(),
    ensures
        r == tab_target(stops@, cur as int, cols as int),
        r < cols,
{
    if cur >= cols - 1 {
        return cols - 1;
    }
    let mut j = cur + 1;
    while j < stops.len() && !stops[j]
        invariant
            cur + 1 <= j <= stops@.len(),
            first_stop_from(stops@, j as int) == first_stop_from(stops@, cur + 1),
        decreases stops@.len() - j,
    {
        j = j + 1;
    }
    proof {
        lemma_first_stop_bounds(stops@, cur + 1);
    }
    if j < stops.len() && j < cols - 1 {
        j
    } else {
        cols - 1
    }
}

/// What a plain ESC sequence (final byte `b`, no intermediates) asks for.
#[derive(Debug, Clone, Copy, PartialEq, Eq, Structural)]
pub enum EscAction {
    /// ESC 7 (DECSC).
    SaveCursor,
    /// ESC 8 (DECRC).
    RestoreCursor,
    /// ESC M (RI).
    ReverseIndex,
    /// ESC D (IND).
    Index,
    /// ESC E (NEL): column 0, then a line feed.
    NextLine,
    /// ESC H (HTS): a tab stop at the cursor column.
    SetTabStop,
    /// ESC c (RIS): a fresh terminal of the same size.
    FullReset,
    Ignore,
}

/// The action of `ESC intermediates b`.
pub open spec fn esc_of(intermediates: Seq<u8>, b: u8) -> EscAction {
    if intermediates.len() != 0 {
        EscAction::Ignore
    } else if b == 0x37 {
        EscAction::SaveCursor
    } else if b == 0x38 {
        EscAction::RestoreCursor
    } else if b == 0x4D {
        EscAction::ReverseIndex
    } else if b == 0x44 {
        EscAction::Index
    } else if b == 0x45 {
        EscAction::NextLine
    } else if b == 0x48 {
        EscAction::SetTabStop
    } else if b == 0x63 {
        EscAction::FullReset
    } else {
        EscAction::Ignore
    }
}

/// Decode an ESC sequence.
pub fn esc_action(intermediates: &[u8], b: u8) -> (r: EscAction)
    ensures
        r == esc_of(intermediates@, b),
{
    if intermediates.len() != 0 {
        return EscAction::Ignore;
    }
    match b {
        0x37 => EscAction::SaveCursor,
        0x38 => EscAction::RestoreCursor,
        0x4D => EscAction::ReverseIndex,
        0x44 => EscAction::Index,
        0x45 => EscAction::NextLine,
        0x48 => EscAction::SetTabStop,
        0x63 => EscAction::FullReset,
        _ => EscAction::Ignore,
    }
}

/// HTS: set the tab stop at `col` when it is on the screen.
pub fn set_tab_stop(stops: &mut Vec<bool>, col: usize, cols: usize)
    requires
        col >= cols || col < old(stops)@.len(),
    ensures
        final(stops)@ == (if col < cols {
            old(stops)@.update(col as int, true)
        } else {
            old(stops)@
        }),
{
    if col < cols {
        stops.set(col, true);
    }
}

/// What DECSC saves.
#[derive(Debug, Clone, Copy, PartialEq, Eq, Structural)]
pub struct SavedCursor {
    pub col: usize,
    pub row: usize,
    pub pen: Pen,
    pub cursor_visible: bool,
    pub cursor_shape: CursorShape,
}

/// The saved cursors: one for the main screen, one for the alternate.
#[derive(Debug, Clone, Copy, PartialEq, Eq, Structural)]
pub struct SavedCursors {
    pub main: Option<SavedCursor>,
    pub alt: Option<SavedCursor>,
}

/// The slots after saving `cursor` on the main (or alternate) screen.
pub open spec fn saved_in(slots: SavedCursors, using_alt: bool, cursor: SavedCursor) -> SavedCursors {
    if using_alt {
        SavedCursors { alt: Some(cursor), ..slots }
    } else {
        SavedCursors { main: Some(cursor), ..slots }
    }
}

/// The slot of the main (or alternate) screen.
pub open spec fn slot_of(slots: SavedCursors, using_alt: bool) -> Option<SavedCursor> {
    if using_alt {
        slots.alt
    } else {
        slots.main
    }
}

impl SavedCursors {
    /// Nothing saved.
    pub fn new() -> (s: SavedCursors)
        ensures
            s.main is None,
            s.alt is None,
    {
        SavedCursors { main: None, alt: None }
    }

    /// DECSC: save into the slot of the screen in use.
    pub fn save(&mut self, using_alt: bool, cursor: SavedCursor)
        ensures
            *final(self) == saved_in(*old(self), using_alt, cursor),
    {
        if using_alt {
            self.alt = Some(cursor);
        } else {
            self.main = Some(cursor);
        }
    }

    /// DECRC: what the slot of the screen in use holds (nothing to restore
    /// when it is empty).
    pub fn restore(&self, using_alt: bool) -> (r: Option<SavedCursor>)
        ensures
            r == slot_of(*self, using_alt),
    {
        if using_alt {
            self.alt
        } else {
            self.main
        }
    }
}

/// A restore gives back what the last save on the same screen stored, and
/// a save on the other screen does not disturb it.
pub proof fn lemma_restore_after_save(
    slots: SavedCursors,
    using_alt: bool,
    cursor: SavedCursor,
    other: SavedCursor,
)
    ensures
        slot_of(saved_in(slots, using_alt, cursor), using_alt) == Some(cursor),
        slot_of(saved_in(saved_in(slots, using_alt, cursor), !using_alt, other), using_alt)
            == Some(cursor),
{
}

/// The C0 bytes: BEL (7) rings, BS (8) goes back, HT (9) tabs, LF, VT and
/// FF (10 to 12) feed a line, CR (13) returns; every other byte is
/// ignored.
pub proof fn lemma_control_bytes(b: u8)
    ensures
        control_of(0x07) == ControlAction::Bell,
        control_of(0x08) == ControlAction::Backspace,
        control_of(0x09) == ControlAction::Tab,
        control_of(0x0A) == ControlAction::LineFeed,
        control_of(0x0B) == ControlAction::LineFeed,
        control_of(0x0C) == ControlAction::LineFeed,
        control_of(0x0D) == ControlAction::CarriageReturn,
        (b < 0x07 || b > 0x0D) ==> control_of(b) == ControlAction::Ignore,
{
}

/// The plain ESC finals: `7` DECSC, `8` DECRC, `D` IND, `E` NEL, `H` HTS,
/// `M` RI, `c` RIS; any other final, or any intermediate, is ignored.
pub proof fn lemma_esc_finals(intermediates: Seq<u8>, b: u8)
    ensures
        esc_of(Seq::empty(), 0x37) == EscAction::SaveCursor,
        esc_of(Seq::empty(), 0x38) == EscAction::RestoreCursor,
        esc_of(Seq::empty(), 0x44) == EscAction::Index,
        esc_of(Seq::empty(), 0x45) == EscAction::NextLine,
        esc_of(Seq::empty(), 0x48) == EscAction::SetTabStop,
        esc_of(Seq::empty(), 0x4D) == EscAction::ReverseIndex,
        esc_of(Seq::empty(), 0x63) == EscAction::FullReset,
        intermediates.len() > 0 ==> esc_of(intermediates, b) == EscAction::Ignore,
        !(b == 0x37 || b == 0x38 || b == 0x44 || b == 0x45 || b == 0x48 || b == 0x4D || b == 0x63)
            ==> esc_of(intermediates, b) == EscAction::Ignore,
{
}

/// A tab from `cur` lands on the first set stop after the cursor, passing
/// no set stop on the way, or on the last column when no stop lies before
/// it; it never moves left, and never past the last column.
pub proof fn lemma_tab_lands_on_next_stop(stops: Seq<bool>, cur: int, cols: int)
    requires
        0 <= cur < cols,
        stops.len() == cols,
    ensures
        ({
            let t = tab_target(stops, cur, cols);
            &&& cur <= t <= cols - 1
            &&& cur < cols - 1 ==> cur < t
            &&& t == cols - 1 || stops[t]
            &&& forall|j: int| cur < j < t ==> !stops[j]
        }),
{
    lemma_first_stop_bounds(stops, cur + 1);
}

} // verus!
