//! The terminal's own state, as far as the escape sequences change it
//! outside the screen's cells: the cursor, the pen, the cursor's look, the
//! saved cursors, which screen is in use, the tab stops, the replies queued
//! for the application, the keyboard flags, what the shell reported
//! (title, directory, notification, link, OSC 133 marks and the command
//! history), the lines scrolled off, the placed images, the soft fonts and
//! the requests waiting for the front end. Each handler applies one decoded
//! sequence; the cell edits (scrolling a region, erasing) are the screen's
//! part, which the handlers report back where they arise.

use vstd::prelude::*;
use std::collections::VecDeque;
use crate::command::{
    after_command_start, after_executed, after_finished, after_prompt, may_record, text_view,
    CommandRecord, CommandTracker, TrackerState,
};
use crate::control::{
    backspace_col, control_action, control_of, esc_action, esc_of, next_tab_stop, saved_in,
    slot_of, tab_target, ControlAction, EscAction, SavedCursor, SavedCursors,
};
use crate::csi::{
    csi_effect, cursor_position_report, decimal_bytes, digits_value, lemma_decimal_digits, mode_change, popped, private_mode_change, CsiAction,
    CsiEffect, CursorShape, KeyboardFlagStack, ModeChange, TabClear,
};
use crate::cursor::{
    cursor_after_csi, cursor_after_index, cursor_after_line_feed, cursor_after_mode,
    cursor_after_reverse_index, line_feed_scrolls, minus, reverse_index_scrolls, CursorState,
};
use crate::dcs::{hooked_mode, DcsCollector, DcsMode, DcsPayload, DcsState};
use crate::drcs::{
    decdld_begun, decdld_fits, decdld_header, decdld_loaded, first_values, load_decdld_glyphs,
    DrcsFontStore, GlyphView,
};
use crate::image_store::{empty_store, scroll_fits, ImageStore, ImageStoreView};
use crate::iterm2::{
    idle_iterm2_state, iterm2_begun, iterm2_finished, iterm2_image_processed, iterm2_part_added,
    parse_iterm2_image, Iterm2Accumulator, Iterm2State,
};
use crate::osc::{cwd_path, lemma_osc_commands, osc_effect, utf8_text, OscAction, OscEffect, ShellMark};
use crate::sixel::{process_sixel, sixel_fits, sixel_processed};
use crate::color::Color;
use crate::sgr::{apply_sgr, blank_pen, group_seqs, sgr_result, Pen};

verus! {

/// The terminal state as plain values.
pub struct TermView {
    pub cursor: CursorState,
    pub pen: Pen,
    pub cursor_visible: bool,
    pub cursor_shape: CursorShape,
    pub saved: SavedCursors,
    pub using_alt: bool,
    pub tab_stops: Seq<bool>,
    pub responses: Seq<Seq<u8>>,
    pub keyboard: Seq<u32>,
    /// Lines scrolled off the top of the main screen so far.
    pub total_scrolled: usize,
    pub title: Seq<char>,
    pub cwd_uri: Seq<char>,
    pub cwd: Seq<char>,
    pub notification: Option<Seq<char>>,
    pub hyperlink: Option<Seq<char>>,
    /// Where the last OSC 133 prompt (A) and command line (B) marks came,
    /// as (column, row).
    pub prompt_mark: Option<(usize, usize)>,
    pub command_mark: Option<(usize, usize)>,
    pub commands: TrackerState,
    /// The images and where they are placed.
    pub images: ImageStoreView,
    /// The iTerm2 multipart transfer in progress.
    pub iterm2: Iterm2State,
    /// The last clipboard request and file sent, until taken.
    pub clipboard: Option<ClipboardRequest>,
    pub file_transfer: Option<(Seq<char>, Seq<u8>)>,
    /// The DCS in progress and the soft fonts it loads.
    pub dcs: DcsState,
    pub fonts: Map<u16, GlyphView>,
}

/// A clipboard request of OSC 52, as plain values.
pub enum ClipboardRequest {
    Query { selection: Seq<char> },
    Write { selection: Seq<char>, data: Seq<char> },
}

/// A clipboard request of OSC 52, for the front end to carry out.
#[derive(Debug, Clone, PartialEq, Eq)]
pub enum ClipboardEvent {
    /// Report the selection's contents.
    Query { selection: String },
    /// Set the selection to `data`.
    Write { selection: String, data: String },
}

impl View for ClipboardEvent {
    type V = ClipboardRequest;

    open spec fn view(&self) -> ClipboardRequest {
        match self {
            ClipboardEvent::Query { selection } => ClipboardRequest::Query { selection: selection@ },
            ClipboardEvent::Write { selection, data } => ClipboardRequest::Write {
                selection: selection@,
                data: data@,
            },
        }
    }
}

/// The view of an optional clipboard event.
pub open spec fn clipboard_view(e: Option<ClipboardEvent>) -> Option<ClipboardRequest> {
    match e {
        Some(c) => Some(c@),
        None => None,
    }
}

/// The view of an optional file transfer (name, contents).
pub open spec fn transfer_view(f: Option<(String, Vec<u8>)>) -> Option<(Seq<char>, Seq<u8>)> {
    match f {
        Some((name, data)) => Some((name@, data@)),
        None => None,
    }
}

/// Which way the screen's scrolling region moves after a handler.
#[derive(Debug, Clone, Copy, PartialEq, Eq, Structural)]
pub enum RegionScroll {
    Still,
    /// Up a line (a line feed or IND on the region's bottom row).
    Up,
    /// Down a line (RI on the region's top row).
    Down,
}

/// A saved cursor lies on a screen of `rows` by `cols`.
pub open spec fn slot_on_screen(slot: Option<SavedCursor>, rows: usize, cols: usize) -> bool {
    slot matches Some(c) ==> c.row < rows && c.col < cols
}

impl TermView {
    /// The cursor and the saved cursors lie on the screen, and there is one
    /// tab stop per column.
    pub open spec fn wf(self) -> bool {
        &&& self.cursor.wf()
        &&& self.tab_stops.len() == self.cursor.cols
        &&& slot_on_screen(self.saved.main, self.cursor.rows, self.cursor.cols)
        &&& slot_on_screen(self.saved.alt, self.cursor.rows, self.cursor.cols)
        &&& self.images.wf()
    }

    /// The scroll counter has room for a screenful more, and the absolute
    /// line of every row fits in a `usize`.
    pub open spec fn scroll_room(self) -> bool {
        self.total_scrolled + self.cursor.rows <= usize::MAX
    }

    /// The absolute line of the cursor's row.
    pub open spec fn cursor_abs_line(self) -> usize {
        (self.total_scrolled + self.cursor.row) as usize
    }

    /// What DECSC saves of this state.
    pub open spec fn saved_cursor(self) -> SavedCursor {
        SavedCursor {
            col: self.cursor.col,
            row: self.cursor.row,
            pen: self.pen,
            cursor_visible: self.cursor_visible,
            cursor_shape: self.cursor_shape,
        }
    }
}

/// The default tab stops: every eighth column.
pub open spec fn default_tab_stops(cols: nat) -> Seq<bool> {
    Seq::new(cols, |i: int| i % 8 == 0)
}

/// A history that records every command, with no limit until one is set.
pub open spec fn fresh_tracker() -> TrackerState {
    TrackerState {
        history: Seq::empty(),
        pending: None,
        pending_text: None,
        next_id: 0,
        enabled: true,
        max: usize::MAX,
    }
}

/// A fresh terminal of `cols` by `rows`.
pub open spec fn fresh_term(cols: usize, rows: usize) -> TermView {
    TermView {
        cursor: CursorState {
            row: 0,
            col: 0,
            rows,
            cols,
            scroll_top: 0,
            scroll_bottom: (rows - 1) as usize,
            origin_mode: false,
            wrap_pending: false,
            linefeed_mode: false,
        },
        pen: blank_pen(),
        cursor_visible: true,
        cursor_shape: CursorShape::BlinkingBlock,
        saved: SavedCursors { main: None, alt: None },
        using_alt: false,
        tab_stops: default_tab_stops(cols as nat),
        responses: Seq::empty(),
        keyboard: Seq::empty(),
        total_scrolled: 0,
        title: Seq::empty(),
        cwd_uri: Seq::empty(),
        cwd: Seq::empty(),
        notification: None,
        hyperlink: None,
        prompt_mark: None,
        command_mark: None,
        commands: fresh_tracker(),
        images: empty_store(),
        iterm2: idle_iterm2_state(),
        clipboard: None,
        file_transfer: None,
        dcs: DcsState { mode: DcsMode::Idle, data: Seq::empty() },
        fonts: Map::empty(),
    }
}

/// The state after RIS (ESC c): the cursor, pen, modes, saved cursors,
/// screens, tab stops, queued replies and keyboard flags start afresh; what
/// the shell told the terminal (title, directory, notification, link,
/// marks, command history), the scroll count, the images, the soft fonts,
/// the DCS in progress and the requests not yet taken stay.
pub open spec fn term_reset(t: TermView) -> TermView {
    let f = fresh_term(t.cursor.cols, t.cursor.rows);
    TermView {
        cursor: f.cursor,
        pen: f.pen,
        cursor_visible: f.cursor_visible,
        cursor_shape: f.cursor_shape,
        saved: f.saved,
        using_alt: f.using_alt,
        tab_stops: f.tab_stops,
        responses: f.responses,
        keyboard: f.keyboard,
        ..t
    }
}

/// The scroll count after `lines` lines leave the region's top: they are
/// counted when the region starts at the top of the main screen.
pub open spec fn counted_scroll(t: TermView, lines: nat) -> usize {
    if t.cursor.scroll_top == 0 && !t.using_alt {
        (t.total_scrolled + lines) as usize
    } else {
        t.total_scrolled
    }
}

/// The state after a line feed (LF, IND, or NEL once at column 0).
pub open spec fn term_after_line_feed(t: TermView) -> TermView {
    TermView {
        cursor: cursor_after_index(t.cursor),
        total_scrolled: if line_feed_scrolls(t.cursor) {
            counted_scroll(t, 1)
        } else {
            t.total_scrolled
        },
        ..t
    }
}

/// The state after DECRC (ESC 8): the saved cursor of the screen in use,
/// if any, comes back with its position, pen, visibility and shape.
pub open spec fn term_restored(t: TermView) -> TermView {
    match slot_of(t.saved, t.using_alt) {
        Some(c) => TermView {
            cursor: CursorState { row: c.row, col: c.col, ..t.cursor },
            pen: c.pen,
            cursor_visible: c.cursor_visible,
            cursor_shape: c.cursor_shape,
            ..t
        },
        None => t,
    }
}

/// The state after a plain ESC sequence.
pub open spec fn term_after_esc(t: TermView, a: EscAction) -> TermView {
    match a {
        EscAction::SaveCursor => TermView {
            saved: saved_in(t.saved, t.using_alt, t.saved_cursor()),
            ..t
        },
        EscAction::RestoreCursor => term_restored(t),
        EscAction::Index => term_after_line_feed(t),
        EscAction::NextLine => term_after_line_feed(
            TermView { cursor: CursorState { col: 0, ..t.cursor }, ..t },
        ),
        EscAction::ReverseIndex => TermView { cursor: cursor_after_reverse_index(t.cursor), ..t },
        EscAction::SetTabStop => TermView {
            tab_stops: if t.cursor.col < t.cursor.cols {
                t.tab_stops.update(t.cursor.col as int, true)
            } else {
                t.tab_stops
            },
            ..t
        },
        EscAction::FullReset => term_reset(t),
        EscAction::Ignore => t,
    }
}

/// How the region moves after a plain ESC sequence.
pub open spec fn scroll_after_esc(t: TermView, a: EscAction) -> RegionScroll {
    match a {
        EscAction::Index => if line_feed_scrolls(t.cursor) {
            RegionScroll::Up
        } else {
            RegionScroll::Still
        },
        EscAction::NextLine => if line_feed_scrolls(t.cursor) {
            RegionScroll::Up
        } else {
            RegionScroll::Still
        },
        EscAction::ReverseIndex => if reverse_index_scrolls(t.cursor) {
            RegionScroll::Down
        } else {
            RegionScroll::Still
        },
        _ => RegionScroll::Still,
    }
}

/// The state after a C0 control character.
pub open spec fn term_after_control(t: TermView, a: ControlAction) -> TermView {
    match a {
        ControlAction::Backspace => TermView {
            cursor: CursorState { col: minus(t.cursor.col, 1), wrap_pending: false, ..t.cursor },
            ..t
        },
        ControlAction::Tab => TermView {
            cursor: CursorState {
                col: tab_target(t.tab_stops, t.cursor.col as int, t.cursor.cols as int) as usize,
                wrap_pending: false,
                ..t.cursor
            },
            ..t
        },
        ControlAction::LineFeed => TermView {
            cursor: cursor_after_line_feed(t.cursor),
            total_scrolled: if line_feed_scrolls(t.cursor) {
                counted_scroll(t, 1)
            } else {
                t.total_scrolled
            },
            ..t
        },
        ControlAction::CarriageReturn => TermView {
            cursor: CursorState { col: 0, wrap_pending: false, ..t.cursor },
            ..t
        },
        _ => t,
    }
}

/// The state after one private mode change: DECOM moves the cursor,
/// DECTCEM shows or hides it, mode 1048 saves the cursor or brings back its
/// position and pen, and the alternate-screen modes switch screens. Other
/// modes (keys, mouse, paste, wrapping) are kept by the parts that use them.
pub open spec fn term_after_mode(t: TermView, m: ModeChange) -> TermView {
    match m {
        ModeChange::OriginMode(_) => TermView { cursor: cursor_after_mode(t.cursor, m), ..t },
        ModeChange::CursorVisible(on) => TermView { cursor_visible: on, ..t },
        ModeChange::SaveCursor => TermView {
            saved: saved_in(t.saved, t.using_alt, t.saved_cursor()),
            ..t
        },
        ModeChange::RestoreCursor => match slot_of(t.saved, t.using_alt) {
            Some(c) => TermView {
                cursor: CursorState { row: c.row, col: c.col, ..t.cursor },
                pen: c.pen,
                ..t
            },
            None => t,
        },
        ModeChange::AlternateScreen(on) => TermView { using_alt: on, ..t },
        _ => t,
    }
}

/// The state after the private modes `codes`, set or reset in order.
pub open spec fn term_after_modes(t: TermView, codes: Seq<u16>, enable: bool) -> TermView
    decreases codes.len(),
{
    if codes.len() == 0 {
        t
    } else {
        term_after_mode(
            term_after_modes(t, codes.drop_last(), enable),
            mode_change(codes.last(), enable),
        )
    }
}

/// The cursor position report for a cursor at `row`, `col` (0-based).
pub open spec fn position_report(row: usize, col: usize) -> Seq<u8> {
    seq![0x1bu8, 0x5bu8] + decimal_bytes(row as nat + 1) + seq![0x3bu8] + decimal_bytes(
        col as nat + 1,
    ) + seq![0x52u8]
}

/// The state after a CSI action: the cursor moves as `cursor_after_csi`
/// says; replies and the cursor position report are queued; DECSCUSR sets
/// the shape; the keyboard flags are pushed or popped; TBC clears tab
/// stops; the private modes apply in order.
pub open spec fn term_after_csi(t: TermView, e: CsiEffect) -> TermView {
    let moved = TermView { cursor: cursor_after_csi(t.cursor, e, t.tab_stops), ..t };
    match e {
        CsiEffect::Reply(r) => TermView { responses: t.responses.push(r), ..moved },
        CsiEffect::ReportCursorPosition => TermView {
            responses: t.responses.push(position_report(t.cursor.row, t.cursor.col)),
            ..moved
        },
        CsiEffect::SetCursorShape(shape) => TermView { cursor_shape: shape, ..moved },
        CsiEffect::PushKeyboardFlags(f) => TermView { keyboard: t.keyboard.push(f), ..moved },
        CsiEffect::PopKeyboardFlags(n) => TermView {
            keyboard: popped(t.keyboard, n as nat),
            ..moved
        },
        CsiEffect::ClearTabStops(which) => TermView {
            tab_stops: match which {
                TabClear::Current => if t.cursor.col < t.tab_stops.len() {
                    t.tab_stops.update(t.cursor.col as int, false)
                } else {
                    t.tab_stops
                },
                TabClear::All => Seq::new(t.tab_stops.len(), |i: int| false),
            },
            ..moved
        },
        CsiEffect::PrivateModes { codes, enable } => term_after_modes(t, codes, enable),
        CsiEffect::ScrollUp(n) => TermView {
            images: if t.cursor.scroll_top == 0 && !t.using_alt {
                t.images.scrolled(n)
            } else {
                t.images
            },
            total_scrolled: counted_scroll(
                t,
                if n <= t.cursor.scroll_bottom {
                    n as nat
                } else {
                    t.cursor.scroll_bottom as nat + 1
                },
            ),
            ..moved
        },
        _ => moved,
    }
}

/// What a CSI action needs of the state: room in the scroll count, and
/// for SU on the main screen, room to move the image placements up.
pub open spec fn csi_ready(t: TermView, e: CsiEffect) -> bool {
    &&& t.scroll_room()
    &&& e matches CsiEffect::ScrollUp(n) ==> (n == 0 || t.images.placements.len() == 0
        || scroll_fits(t.images.placements, n))
}

/// The images after one was offered at the cursor (`after` is the store
/// once the decoder ran): a new placement is capped to the screen.
pub open spec fn placed_and_capped(
    before: ImageStoreView,
    after: ImageStoreView,
    cols: usize,
    rows: usize,
) -> ImageStoreView {
    if after.placements.len() > before.placements.len() {
        after.capped(cols, rows)
    } else {
        after
    }
}

/// The rows the new placement covers, if one was added (the cursor moves
/// past them).
pub open spec fn placed_rows(
    before: ImageStoreView,
    after: ImageStoreView,
    cols: usize,
    rows: usize,
) -> Option<usize> {
    if after.placements.len() > before.placements.len() {
        Some(after.capped(cols, rows).placements.last().cell_rows)
    } else {
        None
    }
}

/// The state after the start of a DCS with final character `action`: a
/// Sixel or DECDLD starts collecting (a DECDLD first erases the font when
/// its header asks for it).
pub open spec fn term_after_dcs_hook(t: TermView, groups: Seq<Seq<u16>>, action: char) -> TermView {
    TermView {
        dcs: DcsState {
            mode: hooked_mode(groups, action),
            data: if action == 'q' || action == '{' {
                Seq::empty()
            } else {
                t.dcs.data
            },
        },
        fonts: if action == '{' {
            decdld_begun(t.fonts, decdld_header(first_values(groups)))
        } else {
            t.fonts
        },
        ..t
    }
}

/// The state after a data byte of a DCS.
pub open spec fn term_after_dcs_put(t: TermView, byte: u8) -> TermView {
    TermView {
        dcs: DcsState {
            data: if t.dcs.mode == DcsMode::Idle {
                t.dcs.data
            } else {
                t.dcs.data.push(byte)
            },
            ..t.dcs
        },
        ..t
    }
}

/// What the end of a DCS needs: collected data that the decoder can hold.
pub open spec fn dcs_ready(t: TermView) -> bool {
    match t.dcs.mode {
        DcsMode::Idle => true,
        DcsMode::Sixel => sixel_fits(t.dcs.data),
        DcsMode::Decdld(_) => decdld_fits(t.dcs.data),
    }
}

/// The state after the end of a DCS: a Sixel image is decoded and placed
/// at the cursor, capped to the screen; DECDLD glyphs go to the soft
/// fonts.
pub open spec fn term_after_dcs_unhook(t: TermView) -> TermView {
    let (col, row, cols, rows) = (t.cursor.col, t.cursor.row, t.cursor.cols, t.cursor.rows);
    let idle = DcsState { mode: DcsMode::Idle, data: Seq::empty() };
    match t.dcs.mode {
        DcsMode::Idle => TermView { dcs: DcsState { mode: DcsMode::Idle, ..t.dcs }, ..t },
        DcsMode::Sixel => TermView {
            dcs: idle,
            images: placed_and_capped(
                t.images,
                sixel_processed(t.images, t.dcs.data, col, row),
                cols,
                rows,
            ),
            ..t
        },
        DcsMode::Decdld(hd) => TermView {
            dcs: idle,
            fonts: decdld_loaded(t.fonts, hd, t.dcs.data),
            ..t
        },
    }
}

/// The rows of the Sixel image the end of a DCS placed, if any.
pub open spec fn dcs_placed_rows(t: TermView) -> Option<usize> {
    match t.dcs.mode {
        DcsMode::Sixel => placed_rows(
            t.images,
            sixel_processed(t.images, t.dcs.data, t.cursor.col, t.cursor.row),
            t.cursor.cols,
            t.cursor.rows,
        ),
        _ => None,
    }
}

/// The state after an OSC 133 mark. `text` is the command line as read
/// from the screen (from where the pending command's input starts to the
/// cursor) and `now` the time in milliseconds; the marks land on the
/// cursor's absolute line. The A and B marks are noted whether or not the
/// history records.
pub open spec fn term_after_mark(t: TermView, m: ShellMark, text: Seq<char>, now: i64) -> TermView {
    let line = t.cursor_abs_line();
    match m {
        ShellMark::PromptStart => TermView {
            prompt_mark: Some((t.cursor.col, t.cursor.row)),
            commands: after_prompt(t.commands, line, t.cwd),
            ..t
        },
        ShellMark::CommandStart => TermView {
            command_mark: Some((t.cursor.col, t.cursor.row)),
            commands: after_command_start(t.commands, line, t.cursor.col),
            ..t
        },
        ShellMark::CommandExecuted => TermView {
            commands: after_executed(t.commands, text, line, now),
            ..t
        },
        ShellMark::CommandFinished(code) => TermView {
            commands: after_finished(t.commands, code, line, now),
            ..t
        },
    }
}

/// The state after an OSC action: the title, the working directory, the
/// last notification and the current link are set, replies are queued,
/// OSC 133 marks go to the command history, clipboard requests and files
/// wait to be taken, and inline images are decoded and placed at the
/// cursor, capped to the screen.
pub open spec fn term_after_osc(t: TermView, e: OscEffect, text: Seq<char>, now: i64) -> TermView {
    let (col, row, cols, rows) = (t.cursor.col, t.cursor.row, t.cursor.cols, t.cursor.rows);
    match e {
        OscEffect::SetTitle(title) => TermView { title, ..t },
        OscEffect::Reply(r) => TermView { responses: t.responses.push(r), ..t },
        OscEffect::SetCwd { uri, path } => TermView { cwd_uri: uri, cwd: path, ..t },
        OscEffect::Notify(msg) => TermView { notification: Some(msg), ..t },
        OscEffect::Hyperlink(uri) => TermView { hyperlink: uri, ..t },
        OscEffect::Mark(m) => term_after_mark(t, m, text, now),
        OscEffect::ClipboardQuery { selection } => TermView {
            clipboard: Some(ClipboardRequest::Query { selection }),
            ..t
        },
        OscEffect::ClipboardSet { selection, data } => TermView {
            clipboard: Some(ClipboardRequest::Write { selection, data }),
            ..t
        },
        OscEffect::FileTransfer { name, data } => TermView {
            file_transfer: Some((name, data)),
            ..t
        },
        OscEffect::InlineImage(payload) => TermView {
            images: placed_and_capped(
                t.images,
                iterm2_image_processed(t.images, payload, col, row),
                cols,
                rows,
            ),
            ..t
        },
        OscEffect::MultipartBegin(payload) => TermView {
            iterm2: iterm2_begun(t.iterm2, payload),
            ..t
        },
        OscEffect::MultipartPart(payload) => TermView {
            iterm2: iterm2_part_added(t.iterm2, payload),
            ..t
        },
        OscEffect::MultipartEnd => {
            let (placed, store) = iterm2_finished(t.iterm2, t.images, col, row);
            TermView {
                images: if placed {
                    store.capped(cols, rows)
                } else {
                    store
                },
                iterm2: idle_iterm2_state(),
                ..t
            }
        },
        OscEffect::Ignore => t,
    }
}

/// The rows an image placed by an OSC action covers (the cursor moves
/// past them), or `None` when the action placed none.
pub open spec fn osc_placed_rows(t: TermView, e: OscEffect) -> Option<usize> {
    let (col, row, cols, rows) = (t.cursor.col, t.cursor.row, t.cursor.cols, t.cursor.rows);
    match e {
        OscEffect::InlineImage(payload) => placed_rows(
            t.images,
            iterm2_image_processed(t.images, payload, col, row),
            cols,
            rows,
        ),
        OscEffect::MultipartEnd => {
            let (placed, store) = iterm2_finished(t.iterm2, t.images, col, row);
            if placed {
                Some(store.capped(cols, rows).placements.last().cell_rows)
            } else {
                None
            }
        },
        _ => None,
    }
}

/// What an OSC action needs of the state: room for the marks' absolute
/// line, and an unused record number when a mark would record a command.
pub open spec fn osc_ready(t: TermView) -> bool {
    &&& t.scroll_room()
    &&& t.commands.enabled && may_record(t.commands) ==> t.commands.next_id < u64::MAX
}

/// The terminal's state outside the screen's cells.
pub struct TerminalState {
    cursor: CursorState,
    pen: Pen,
    cursor_visible: bool,
    cursor_shape: CursorShape,
    saved: SavedCursors,
    using_alt: bool,
    tab_stops: Vec<bool>,
    responses: Vec<Vec<u8>>,
    keyboard: KeyboardFlagStack,
    total_scrolled: usize,
    title: String,
    cwd_uri: String,
    cwd: String,
    notification: Option<String>,
    hyperlink: Option<String>,
    prompt_mark: Option<(usize, usize)>,
    command_mark: Option<(usize, usize)>,
    commands: CommandTracker,
    images: ImageStore,
    iterm2: Iterm2Accumulator,
    clipboard: Option<ClipboardEvent>,
    file_transfer: Option<(String, Vec<u8>)>,
    dcs: DcsCollector,
    fonts: DrcsFontStore,
}

impl View for TerminalState {
    type V = TermView;

    closed spec fn view(&self) -> TermView {
        TermView {
            cursor: self.cursor,
            pen: self.pen,
            cursor_visible: self.cursor_visible,
            cursor_shape: self.cursor_shape,
            saved: self.saved,
            using_alt: self.using_alt,
            tab_stops: self.tab_stops@,
            responses: self.responses@.map_values(|r: Vec<u8>| r@),
            keyboard: self.keyboard@,
            total_scrolled: self.total_scrolled,
            title: self.title@,
            cwd_uri: self.cwd_uri@,
            cwd: self.cwd@,
            notification: text_view(self.notification),
            hyperlink: text_view(self.hyperlink),
            prompt_mark: self.prompt_mark,
            command_mark: self.command_mark,
            commands: self.commands@,
            images: self.images@,
            iterm2: self.iterm2@,
            clipboard: clipboard_view(self.clipboard),
            file_transfer: transfer_view(self.file_transfer),
            dcs: self.dcs@,
            fonts: self.fonts@,
        }
    }
}

/// Tab stops every eighth column.
fn make_tab_stops(cols: usize) -> (v: Vec<bool>)
    ensures
        v@ == default_tab_stops(cols as nat),
{
    let mut v: Vec<bool> = Vec::new();
    let mut i: usize = 0;
    while i < cols
        invariant
            i <= cols,
            v@ == default_tab_stops(i as nat),
        decreases cols - i,
    {
        v.push(i % 8 == 0);
        proof {
            assert(v@ =~= default_tab_stops((i + 1) as nat));
        }
        i = i + 1;
    }
    v
}

impl TerminalState {
    /// A fresh terminal of `cols` by `rows`.
    pub fn new(cols: usize, rows: usize) -> (t: Self)
        requires
            cols > 0,
            rows > 0,
        ensures
            t@ == fresh_term(cols, rows),
            t@.wf(),
    {
        let t = TerminalState {
            cursor: CursorState::new(cols, rows),
            pen: Pen::new(),
            cursor_visible: true,
            cursor_shape: CursorShape::BlinkingBlock,
            saved: SavedCursors::new(),
            using_alt: false,
            tab_stops: make_tab_stops(cols),
            responses: Vec::new(),
            keyboard: KeyboardFlagStack::new(),
            total_scrolled: 0,
            title: String::new(),
            cwd_uri: String::new(),
            cwd: String::new(),
            notification: None,
            hyperlink: None,
            prompt_mark: None,
            command_mark: None,
            commands: CommandTracker::new(true, usize::MAX),
            images: ImageStore::new(),
            iterm2: Iterm2Accumulator::new(),
            clipboard: None,
            file_transfer: None,
            dcs: DcsCollector::new(),
            fonts: DrcsFontStore::new(),
        };
        proof {
            assert(t@.responses =~= Seq::<Seq<u8>>::empty());
            assert(t@.title =~= Seq::<char>::empty());
            assert(t@.cwd =~= Seq::<char>::empty());
            assert(t@.cwd_uri =~= Seq::<char>::empty());
            assert(t@ == fresh_term(cols, rows));
        }
        t
    }

    /// Count `lines` lines leaving the region's top (`counted_scroll`).
    fn count_scroll(&mut self, lines: usize)
        requires
            old(self)@.total_scrolled + lines <= usize::MAX,
        ensures
            final(self)@ == (TermView {
                total_scrolled: counted_scroll(old(self)@, lines as nat),
                ..old(self)@
            }),
    {
        if self.cursor.scroll_top == 0 && !self.using_alt {
            self.total_scrolled = self.total_scrolled + lines;
        }
    }

    /// The cursor.
    pub fn cursor(&self) -> (c: CursorState)
        ensures
            c == self@.cursor,
    {
        self.cursor
    }

    /// The pen.
    pub fn pen(&self) -> (p: Pen)
        ensures
            p == self@.pen,
    {
        self.pen
    }

    /// Whether the cursor is shown.
    pub fn cursor_visible(&self) -> (r: bool)
        ensures
            r == self@.cursor_visible,
    {
        self.cursor_visible
    }

    /// The cursor's shape.
    pub fn cursor_shape(&self) -> (r: CursorShape)
        ensures
            r == self@.cursor_shape,
    {
        self.cursor_shape
    }

    /// Whether the alternate screen is in use.
    pub fn using_alt(&self) -> (r: bool)
        ensures
            r == self@.using_alt,
    {
        self.using_alt
    }

    /// The keyboard flags in force.
    pub fn kitty_keyboard_mode(&self) -> (m: u32)
        ensures
            m == crate::csi::flags_in_force(self@.keyboard),
    {
        self.keyboard.mode()
    }

    /// Whether replies wait for the application.
    pub fn has_pending_responses(&self) -> (r: bool)
        ensures
            r == (self@.responses.len() > 0),
    {
        self.responses.len() > 0
    }

    /// Hand the queued replies over, oldest first, and empty the queue.
    pub fn drain_responses(&mut self) -> (r: Vec<Vec<u8>>)
        ensures
            r@.map_values(|v: Vec<u8>| v@) == old(self)@.responses,
            final(self)@ == (TermView { responses: Seq::empty(), ..old(self)@ }),
    {
        let mut out: Vec<Vec<u8>> = Vec::new();
        std::mem::swap(&mut out, &mut self.responses);
        proof {
            assert(self@.responses =~= Seq::<Seq<u8>>::empty());
        }
        out
    }

    /// IND: a line feed that ignores LNM, counting the line that leaves the
    /// top. Returns whether the region scrolls up.
    fn index_line(&mut self) -> (scrolls: bool)
        requires
            old(self)@.wf(),
            old(self)@.scroll_room(),
        ensures
            final(self)@.wf(),
            final(self)@ == term_after_line_feed(old(self)@),
            scrolls == line_feed_scrolls(old(self)@.cursor),
    {
        let scrolls = self.cursor.index();
        if scrolls {
            self.count_scroll(1);
        }
        scrolls
    }

    /// RIS: everything but the shell's session state starts afresh.
    fn reset(&mut self)
        requires
            old(self)@.wf(),
        ensures
            final(self)@.wf(),
            final(self)@ == term_reset(old(self)@),
    {
        let cols = self.cursor.cols;
        let rows = self.cursor.rows;
        self.cursor = CursorState::new(cols, rows);
        self.pen = Pen::new();
        self.cursor_visible = true;
        self.cursor_shape = CursorShape::BlinkingBlock;
        self.saved = SavedCursors::new();
        self.using_alt = false;
        self.tab_stops = make_tab_stops(cols);
        self.responses = Vec::new();
        self.keyboard = KeyboardFlagStack::new();
        proof {
            assert(self@.responses =~= Seq::<Seq<u8>>::empty());
        }
    }

    /// Apply a plain ESC sequence (`ESC intermediates byte`). Returns how
    /// the screen's scrolling region moves.
    pub fn esc_dispatch(&mut self, intermediates: &[u8], byte: u8) -> (scroll: RegionScroll)
        requires
            old(self)@.wf(),
            old(self)@.scroll_room(),
        ensures
            final(self)@.wf(),
            final(self)@ == term_after_esc(old(self)@, esc_of(intermediates@, byte)),
            scroll == scroll_after_esc(old(self)@, esc_of(intermediates@, byte)),
    {
        match esc_action(intermediates, byte) {
            EscAction::SaveCursor => {
                let c = SavedCursor {
                    col: self.cursor.col,
                    row: self.cursor.row,
                    pen: self.pen,
                    cursor_visible: self.cursor_visible,
                    cursor_shape: self.cursor_shape,
                };
                self.saved.save(self.using_alt, c);
                RegionScroll::Still
            },
            EscAction::RestoreCursor => {
                match self.saved.restore(self.using_alt) {
                    Some(c) => {
                        self.cursor.row = c.row;
                        self.cursor.col = c.col;
                        self.pen = c.pen;
                        self.cursor_visible = c.cursor_visible;
                        self.cursor_shape = c.cursor_shape;
                    },
                    None => {},
                }
                RegionScroll::Still
            },
            EscAction::Index => {
                if self.index_line() {
                    RegionScroll::Up
                } else {
                    RegionScroll::Still
                }
            },
            EscAction::NextLine => {
                self.cursor.col = 0;
                if self.index_line() {
                    RegionScroll::Up
                } else {
                    RegionScroll::Still
                }
            },
            EscAction::ReverseIndex => {
                if self.cursor.reverse_index() {
                    RegionScroll::Down
                } else {
                    RegionScroll::Still
                }
            },
            EscAction::SetTabStop => {
                if self.cursor.col < self.cursor.cols {
                    self.tab_stops.set(self.cursor.col, true);
                }
                RegionScroll::Still
            },
            EscAction::FullReset => {
                self.reset();
                RegionScroll::Still
            },
            EscAction::Ignore => RegionScroll::Still,
        }
    }

    /// Apply a C0 control character. Returns whether the screen's
    /// scrolling region scrolls up (a line feed on its bottom row).
    pub fn execute(&mut self, byte: u8) -> (scrolls: bool)
        requires
            old(self)@.wf(),
            old(self)@.scroll_room(),
        ensures
            final(self)@.wf(),
            final(self)@ == term_after_control(old(self)@, control_of(byte)),
            scrolls == (control_of(byte) == ControlAction::LineFeed && line_feed_scrolls(
                old(self)@.cursor,
            )),
    {
        match control_action(byte) {
            ControlAction::Backspace => {
                self.cursor.col = backspace_col(self.cursor.col);
                self.cursor.wrap_pending = false;
                false
            },
            ControlAction::Tab => {
                self.cursor.col = next_tab_stop(&self.tab_stops, self.cursor.col, self.cursor.cols);
                self.cursor.wrap_pending = false;
                false
            },
            ControlAction::LineFeed => {
                let scrolls = self.cursor.line_feed();
                if scrolls {
                    self.count_scroll(1);
                }
                scrolls
            },
            ControlAction::CarriageReturn => {
                self.cursor.carriage_return();
                false
            },
            _ => false,
        }
    }

    /// Apply one private mode change.
    pub fn apply_mode_change(&mut self, m: ModeChange)
        requires
            old(self)@.wf(),
        ensures
            final(self)@.wf(),
            final(self)@ == term_after_mode(old(self)@, m),
    {
        match m {
            ModeChange::OriginMode(_) => self.cursor.apply_mode(m),
            ModeChange::CursorVisible(on) => self.cursor_visible = on,
            ModeChange::SaveCursor => {
                let c = SavedCursor {
                    col: self.cursor.col,
                    row: self.cursor.row,
                    pen: self.pen,
                    cursor_visible: self.cursor_visible,
                    cursor_shape: self.cursor_shape,
                };
                self.saved.save(self.using_alt, c);
            },
            ModeChange::RestoreCursor => {
                match self.saved.restore(self.using_alt) {
                    Some(c) => {
                        self.cursor.row = c.row;
                        self.cursor.col = c.col;
                        self.pen = c.pen;
                    },
                    None => {},
                }
            },
            ModeChange::AlternateScreen(on) => self.using_alt = on,
            _ => {},
        }
    }

    /// Apply a CSI action (SGR, which needs the parameters, goes through
    /// `select_graphic_rendition`).
    pub fn csi(&mut self, action: &CsiAction)
        requires
            old(self)@.wf(),
            csi_ready(old(self)@, action@),
        ensures
            final(self)@.wf(),
            final(self)@ == term_after_csi(old(self)@, action@),
    {
        match action {
            CsiAction::Reply(r) => {
                let copy = r.clone();
                proof {
                    assert(copy@ =~= r@);
                }
                self.responses.push(copy);
                proof {
                    assert(self@.responses =~= old(self)@.responses.push(r@));
                }
            },
            CsiAction::ReportCursorPosition => {
                let report = cursor_position_report(self.cursor.row, self.cursor.col);
                self.responses.push(report);
                proof {
                    assert(self@.responses =~= old(self)@.responses.push(
                        position_report(old(self)@.cursor.row, old(self)@.cursor.col),
                    ));
                }
            },
            CsiAction::SetCursorShape(shape) => { self.cursor_shape = *shape; },
            CsiAction::PushKeyboardFlags(_) => { self.keyboard.apply(action); },
            CsiAction::PopKeyboardFlags(_) => { self.keyboard.apply(action); },
            CsiAction::ClearTabStops(which) => {
                match which {
                    TabClear::Current => {
                        if self.cursor.col < self.tab_stops.len() {
                            self.tab_stops.set(self.cursor.col, false);
                        }
                    },
                    TabClear::All => {
                        let n = self.tab_stops.len();
                        let mut cleared: Vec<bool> = Vec::new();
                        let mut i: usize = 0;
                        while i < n
                            invariant
                                i <= n,
                                cleared@ == Seq::new(i as nat, |k: int| false),
                            decreases n - i,
                        {
                            cleared.push(false);
                            proof {
                                assert(cleared@ =~= Seq::new((i + 1) as nat, |k: int| false));
                            }
                            i = i + 1;
                        }
                        self.tab_stops = cleared;
                    },
                }
            },
            CsiAction::PrivateModes { codes, enable } => {
                let n = codes.len();
                let mut i: usize = 0;
                while i < n
                    invariant
                        n == codes@.len(),
                        i <= n,
                        self@.wf(),
                        self@ == term_after_modes(old(self)@, codes@.take(i as int), *enable),
                    decreases n - i,
                {
                    let m = private_mode_change(codes[i], *enable);
                    self.apply_mode_change(m);
                    proof {
                        assert(codes@.take(i + 1).drop_last() =~= codes@.take(i as int));
                    }
                    i = i + 1;
                }
                proof {
                    assert(codes@.take(n as int) =~= codes@);
                }
            },
            CsiAction::ScrollUp(n) => {
                let lines = if *n <= self.cursor.scroll_bottom {
                    *n
                } else {
                    self.cursor.scroll_bottom + 1
                };
                if self.cursor.scroll_top == 0 && !self.using_alt {
                    self.images.scroll_up(*n);
                }
                self.count_scroll(lines);
            },
            _ => {
                self.cursor.apply_csi(action, &self.tab_stops);
            },
        }
    }

    /// Apply an OSC action. `text` is the command line as read from the
    /// screen (used by the C mark; see `pending_input_start`) and `now_ms`
    /// the time in milliseconds (used by the C and D marks). Returns the
    /// rows of an image it placed (the cursor moves past them), if any.
    pub fn osc(&mut self, action: &OscAction, text: String, now_ms: i64) -> (placed: Option<usize>)
        requires
            old(self)@.wf(),
            osc_ready(old(self)@),
        ensures
            final(self)@.wf(),
            final(self)@ == term_after_osc(old(self)@, action@, text@, now_ms),
            placed == osc_placed_rows(old(self)@, action@),
    {
        match action {
            OscAction::SetTitle(title) => {
                self.title = title.clone();
                None
            },
            OscAction::Reply(r) => {
                let copy = r.clone();
                proof {
                    assert(copy@ =~= r@);
                }
                self.responses.push(copy);
                proof {
                    assert(self@.responses =~= old(self)@.responses.push(r@));
                }
                None
            },
            OscAction::SetCwd { uri, path } => {
                self.cwd_uri = uri.clone();
                self.cwd = path.clone();
                None
            },
            OscAction::Notify(msg) => {
                self.notification = Some(msg.clone());
                None
            },
            OscAction::Hyperlink(uri) => {
                self.hyperlink = match uri {
                    Some(u) => Some(u.clone()),
                    None => None,
                };
                None
            },
            OscAction::Mark(m) => {
                self.shell_mark(*m, text, now_ms);
                None
            },
            OscAction::ClipboardQuery { selection } => {
                self.clipboard = Some(ClipboardEvent::Query { selection: selection.clone() });
                None
            },
            OscAction::ClipboardSet { selection, data } => {
                self.clipboard = Some(
                    ClipboardEvent::Write { selection: selection.clone(), data: data.clone() },
                );
                None
            },
            OscAction::FileTransfer { name, data } => {
                let copy = data.clone();
                proof {
                    assert(copy@ =~= data@);
                }
                self.file_transfer = Some((name.clone(), copy));
                None
            },
            OscAction::InlineImage(payload) => self.place_iterm2_image(payload.as_str()),
            OscAction::MultipartBegin(payload) => {
                self.iterm2.begin(payload.as_str());
                None
            },
            OscAction::MultipartPart(payload) => {
                self.iterm2.add_part(payload.as_str());
                None
            },
            OscAction::MultipartEnd => {
                let done = self.iterm2.finish(&mut self.images, self.cursor.col, self.cursor.row);
                if done {
                    self.images.cap_placement_size(self.cursor.cols, self.cursor.rows);
                    let ps = self.images.placements();
                    Some(ps[ps.len() - 1].cell_rows)
                } else {
                    None
                }
            },
            OscAction::Ignore => None,
        }
    }

    /// The start of a DCS (`groups` are its parameters, `action` its final
    /// character).
    pub fn dcs_hook(&mut self, groups: &Vec<Vec<u16>>, action: char)
        ensures
            final(self)@ == term_after_dcs_hook(
                old(self)@,
                groups@.map_values(|g: Vec<u16>| g@),
                action,
            ),
    {
        self.dcs.hook(groups, action, &mut self.fonts);
    }

    /// A data byte of the DCS.
    pub fn dcs_put(&mut self, byte: u8)
        ensures
            final(self)@ == term_after_dcs_put(old(self)@, byte),
    {
        self.dcs.put(byte);
    }

    /// The end of the DCS. Returns the rows of a Sixel image it placed (the
    /// cursor moves past them), if any.
    pub fn dcs_unhook(&mut self) -> (placed: Option<usize>)
        requires
            old(self)@.wf(),
            dcs_ready(old(self)@),
        ensures
            final(self)@.wf(),
            final(self)@ == term_after_dcs_unhook(old(self)@),
            placed == dcs_placed_rows(old(self)@),
    {
        match self.dcs.unhook() {
            DcsPayload::Nothing => None,
            DcsPayload::Sixel(data) => self.place_sixel(data.as_slice()),
            DcsPayload::Decdld(hd, data) => {
                load_decdld_glyphs(&hd, data.as_slice(), &mut self.fonts);
                None
            },
        }
    }

    /// The soft fonts loaded by DECDLD.
    pub fn drcs_fonts(&self) -> (r: &DrcsFontStore)
        ensures
            r@ == self@.fonts,
    {
        &self.fonts
    }

    /// The clipboard request of the last OSC 52, handed over once.
    pub fn take_clipboard_event(&mut self) -> (r: Option<ClipboardEvent>)
        ensures
            clipboard_view(r) == old(self)@.clipboard,
            final(self)@ == (TermView { clipboard: None, ..old(self)@ }),
    {
        let mut out: Option<ClipboardEvent> = None;
        std::mem::swap(&mut out, &mut self.clipboard);
        out
    }

    /// The file of the last OSC 1337 `File=` transfer (name, contents),
    /// handed over once.
    pub fn take_file_transfer(&mut self) -> (r: Option<(String, Vec<u8>)>)
        ensures
            transfer_view(r) == old(self)@.file_transfer,
            final(self)@ == (TermView { file_transfer: None, ..old(self)@ }),
    {
        let mut out: Option<(String, Vec<u8>)> = None;
        std::mem::swap(&mut out, &mut self.file_transfer);
        out
    }

    /// Whether an iTerm2 multipart transfer is in progress.
    pub fn iterm2_transfer_active(&self) -> (r: bool)
        ensures
            r == self@.iterm2.params is Some,
    {
        self.iterm2.is_active()
    }

    /// An OSC 133 mark (see `term_after_mark`).
    fn shell_mark(&mut self, m: ShellMark, text: String, now_ms: i64)
        requires
            old(self)@.wf(),
            osc_ready(old(self)@),
        ensures
            final(self)@.wf(),
            final(self)@ == term_after_mark(old(self)@, m, text@, now_ms),
    {
        let line = self.total_scrolled + self.cursor.row;
        match m {
            ShellMark::PromptStart => {
                self.prompt_mark = Some((self.cursor.col, self.cursor.row));
                self.commands.prompt_start(line, self.cwd.as_str());
            },
            ShellMark::CommandStart => {
                self.command_mark = Some((self.cursor.col, self.cursor.row));
                self.commands.command_start(line, self.cursor.col);
            },
            ShellMark::CommandExecuted => self.commands.command_executed(text, line, now_ms),
            ShellMark::CommandFinished(code) => self.commands.command_finished(code, line, now_ms),
        }
    }

    /// The command records, oldest first.
    pub fn command_history(&self) -> (h: &VecDeque<CommandRecord>)
        ensures
            h@.map_values(|r: CommandRecord| r@) == self@.commands.history,
    {
        self.commands.history()
    }

    /// Where the pending command's input starts (absolute line, column):
    /// the screen is read from there to the cursor for the C mark.
    pub fn pending_input_start(&self) -> (r: Option<(usize, usize)>)
        ensures
            r == match self@.commands.pending {
                Some(p) => Some((p.command_start_abs_line, p.command_start_col)),
                None => None,
            },
    {
        self.commands.pending_input_start()
    }

    /// Lines scrolled off the top of the main screen so far.
    pub fn total_scrolled_lines(&self) -> (n: usize)
        ensures
            n == self@.total_scrolled,
    {
        self.total_scrolled
    }

    /// Turn command history tracking on or off.
    pub fn set_command_history_enabled(&mut self, enabled: bool)
        ensures
            final(self)@ == (TermView {
                commands: TrackerState { enabled, ..old(self)@.commands },
                ..old(self)@
            }),
    {
        self.commands.set_command_history_enabled(enabled);
    }

    /// Set the most records the history keeps (from the next record on).
    pub fn set_max_command_history(&mut self, max: usize)
        ensures
            final(self)@ == (TermView {
                commands: TrackerState { max, ..old(self)@.commands },
                ..old(self)@
            }),
    {
        self.commands.set_max_command_history(max);
    }

    /// The window title.
    pub fn title(&self) -> (r: &str)
        ensures
            r@ == self@.title,
    {
        self.title.as_str()
    }

    /// The shell's working directory (the path of the last OSC 7).
    pub fn cwd(&self) -> (r: &str)
        ensures
            r@ == self@.cwd,
    {
        self.cwd.as_str()
    }

    /// The last notification's text.
    pub fn last_notification(&self) -> (r: Option<&String>)
        ensures
            r matches Some(m) ==> self@.notification == Some(m@),
            r is None <==> self@.notification is None,
    {
        self.notification.as_ref()
    }

    /// The link the printed text belongs to.
    pub fn current_hyperlink(&self) -> (r: Option<&String>)
        ensures
            r matches Some(u) ==> self@.hyperlink == Some(u@),
            r is None <==> self@.hyperlink is None,
    {
        self.hyperlink.as_ref()
    }

    /// Where the last prompt (A) mark came, as (column, row).
    pub fn prompt_mark(&self) -> (r: Option<(usize, usize)>)
        ensures
            r == self@.prompt_mark,
    {
        self.prompt_mark
    }

    /// Where the last command line (B) mark came, as (column, row).
    pub fn command_mark(&self) -> (r: Option<(usize, usize)>)
        ensures
            r == self@.command_mark,
    {
        self.command_mark
    }

    /// OSC 1337 `File=` with `inline=1`: decode the image and place it at
    /// the cursor, capped to the screen. Returns the rows the new placement
    /// covers, or `None` when nothing was placed.
    pub fn place_iterm2_image(&mut self, payload: &str) -> (placed: Option<usize>)
        requires
            old(self)@.wf(),
        ensures
            final(self)@.wf(),
            final(self)@ == (TermView {
                images: placed_and_capped(
                    old(self)@.images,
                    iterm2_image_processed(
                        old(self)@.images,
                        payload@,
                        old(self)@.cursor.col,
                        old(self)@.cursor.row,
                    ),
                    old(self)@.cursor.cols,
                    old(self)@.cursor.rows,
                ),
                ..old(self)@
            }),
            placed == placed_rows(
                old(self)@.images,
                iterm2_image_processed(
                    old(self)@.images,
                    payload@,
                    old(self)@.cursor.col,
                    old(self)@.cursor.row,
                ),
                old(self)@.cursor.cols,
                old(self)@.cursor.rows,
            ),
    {
        let before = self.images.placements().len();
        parse_iterm2_image(payload, &mut self.images, self.cursor.col, self.cursor.row);
        self.cap_new_placement(before)
    }

    /// A Sixel image (the bytes between the DCS hook and its end): decode it
    /// and place it at the cursor, capped to the screen. Returns the rows
    /// the new placement covers, or `None` when nothing was placed.
    pub fn place_sixel(&mut self, data: &[u8]) -> (placed: Option<usize>)
        requires
            old(self)@.wf(),
            sixel_fits(data@),
        ensures
            final(self)@.wf(),
            final(self)@ == (TermView {
                images: placed_and_capped(
                    old(self)@.images,
                    sixel_processed(
                        old(self)@.images,
                        data@,
                        old(self)@.cursor.col,
                        old(self)@.cursor.row,
                    ),
                    old(self)@.cursor.cols,
                    old(self)@.cursor.rows,
                ),
                ..old(self)@
            }),
            placed == placed_rows(
                old(self)@.images,
                sixel_processed(old(self)@.images, data@, old(self)@.cursor.col, old(self)@.cursor.row),
                old(self)@.cursor.cols,
                old(self)@.cursor.rows,
            ),
    {
        let before = self.images.placements().len();
        process_sixel(data, &mut self.images, self.cursor.col, self.cursor.row);
        self.cap_new_placement(before)
    }

    /// After a decoder ran: when the store holds more placements than
    /// `before`, cap the newest to the screen and give its rows.
    fn cap_new_placement(&mut self, before: usize) -> (placed: Option<usize>)
        ensures
            final(self)@ == (TermView {
                images: if old(self)@.images.placements.len() > before {
                    old(self)@.images.capped(old(self)@.cursor.cols, old(self)@.cursor.rows)
                } else {
                    old(self)@.images
                },
                ..old(self)@
            }),
            placed == if old(self)@.images.placements.len() > before {
                Some(
                    old(self)@.images.capped(
                        old(self)@.cursor.cols,
                        old(self)@.cursor.rows,
                    ).placements.last().cell_rows,
                )
            } else {
                None
            },
    {
        if self.images.placements().len() > before {
            self.images.cap_placement_size(self.cursor.cols, self.cursor.rows);
            let ps = self.images.placements();
            Some(ps[ps.len() - 1].cell_rows)
        } else {
            None
        }
    }

    /// The images and their placements.
    pub fn images(&self) -> (r: &ImageStore)
        ensures
            r@ == self@.images,
    {
        &self.images
    }

    /// SGR: apply the parameter groups to the pen.
    pub fn select_graphic_rendition(&mut self, groups: &Vec<Vec<u16>>)
        requires
            forall|k: int| 0 <= k < groups@.len() ==> groups@[k]@.len() >= 1,
        ensures
            final(self)@ == (TermView { pen: sgr_result(old(self)@.pen, group_seqs(groups@)), ..old(self)@ }),
    {
        apply_sgr(&mut self.pen, groups);
    }
}

/// DECSC then DECRC on the same screen gives back the saved position, pen,
/// visibility and shape, whatever moved in between (other than a switch of
/// screens or another save).
pub proof fn lemma_save_restore_round_trip(t: TermView, moved: CursorState, pen: Pen, visible: bool, shape: CursorShape)
    ensures
        ({
            let saved = term_after_esc(t, EscAction::SaveCursor);
            let changed = TermView {
                cursor: moved,
                pen,
                cursor_visible: visible,
                cursor_shape: shape,
                ..saved
            };
            let restored = term_after_esc(changed, EscAction::RestoreCursor);
            &&& restored.cursor.row == t.cursor.row
            &&& restored.cursor.col == t.cursor.col
            &&& restored.pen == t.pen
            &&& restored.cursor_visible == t.cursor_visible
            &&& restored.cursor_shape == t.cursor_shape
        }),
{
}

/// The state after OSC actions, in order, each with the command text read
/// from the screen and the time it came at.
pub open spec fn term_after_oscs(t: TermView, steps: Seq<(OscEffect, Seq<char>, i64)>) -> TermView
    decreases steps.len(),
{
    if steps.len() == 0 {
        t
    } else {
        let (e, text, now) = steps.last();
        term_after_osc(term_after_oscs(t, steps.drop_last()), e, text, now)
    }
}

/// While command history is off, an OSC 133 mark builds and adds no
/// record: the history and the tracker stay as they were, while the prompt
/// (A) and command line (B) marks are still noted where the cursor is.
pub proof fn lemma_disabled_mark_keeps_history(t: TermView, m: ShellMark, text: Seq<char>, now: i64)
    requires
        !t.commands.enabled,
    ensures
        term_after_mark(t, m, text, now).commands == t.commands,
        m is PromptStart ==> term_after_mark(t, m, text, now).prompt_mark == Some(
            (t.cursor.col, t.cursor.row),
        ),
        m is CommandStart ==> term_after_mark(t, m, text, now).command_mark == Some(
            (t.cursor.col, t.cursor.row),
        ),
{
}

/// Until history is turned on again, no run of OSC actions changes the
/// command history, whatever marks, texts and times it holds.
pub proof fn lemma_disabled_history_survives_osc(t: TermView, steps: Seq<(OscEffect, Seq<char>, i64)>)
    requires
        !t.commands.enabled,
    ensures
        term_after_oscs(t, steps).commands == t.commands,
    decreases steps.len(),
{
    if steps.len() > 0 {
        lemma_disabled_history_survives_osc(t, steps.drop_last());
        let prev = term_after_oscs(t, steps.drop_last());
        let (e, text, now) = steps.last();
        match e {
            OscEffect::Mark(m) => lemma_disabled_mark_keeps_history(prev, m, text, now),
            _ => {},
        }
    }
}

/// Only OSC 133 marks and the two settings change the command history:
/// no ESC sequence, C0 control, CSI action, DCS or image placement does.
pub proof fn lemma_only_marks_change_history(
    t: TermView,
    a: EscAction,
    c: ControlAction,
    e: CsiEffect,
    groups: Seq<Seq<u16>>,
    action: char,
    byte: u8,
)
    ensures
        term_after_esc(t, a).commands == t.commands,
        term_after_control(t, c).commands == t.commands,
        term_after_csi(t, e).commands == t.commands,
        term_after_dcs_hook(t, groups, action).commands == t.commands,
        term_after_dcs_put(t, byte).commands == t.commands,
        term_after_dcs_unhook(t).commands == t.commands,
{
    match e {
        CsiEffect::PrivateModes { codes, enable } => lemma_modes_keep_scroll_count(t, codes, enable),
        _ => {},
    }
}

/// The scroll count never goes down: no ESC sequence, C0 control or CSI
/// action makes it smaller.
pub proof fn lemma_scroll_count_grows(t: TermView, a: EscAction, c: ControlAction, e: CsiEffect)
    requires
        t.wf(),
        t.scroll_room(),
    ensures
        term_after_esc(t, a).total_scrolled >= t.total_scrolled,
        term_after_control(t, c).total_scrolled >= t.total_scrolled,
        term_after_csi(t, e).total_scrolled >= t.total_scrolled,
{
    match e {
        CsiEffect::PrivateModes { codes, enable } => lemma_modes_keep_scroll_count(t, codes, enable),
        _ => {},
    }
}

/// Private modes leave the scroll count and the command history alone.
proof fn lemma_modes_keep_scroll_count(t: TermView, codes: Seq<u16>, enable: bool)
    ensures
        term_after_modes(t, codes, enable).total_scrolled == t.total_scrolled,
        term_after_modes(t, codes, enable).commands == t.commands,
    decreases codes.len(),
{
    if codes.len() > 0 {
        lemma_modes_keep_scroll_count(t, codes.drop_last(), enable);
    }
}

/// What the application gets back and sees changed, from the sequences
/// as sent: DSR 5 (`CSI 5 n`) queues `ESC [ 0 n`; DSR 6 (`CSI 6 n`)
/// queues `ESC [ row ; col R` with the cursor's 1-based row and column in
/// decimal; `CSI ? 25 l` hides the cursor and `CSI ? 25 h` shows it;
/// `CSI ? 1049 h` enters the alternate screen and `l` leaves it. Earlier
/// replies stay queued before the new one.
pub proof fn lemma_terminal_answers(t: TermView)
    requires
        t.wf(),
    ensures
        term_after_csi(t, csi_effect(seq![seq![5u16]], Seq::empty(), 'n', t.cursor.rows)).responses
            == t.responses.push(seq![0x1bu8, 0x5bu8, 0x30u8, 0x6eu8]),
        ({
            let r = term_after_csi(
                t,
                csi_effect(seq![seq![6u16]], Seq::empty(), 'n', t.cursor.rows),
            ).responses;
            &&& r.len() == t.responses.len() + 1
            &&& r.take(t.responses.len() as int) == t.responses
            &&& r.last() == seq![0x1bu8, 0x5bu8] + decimal_bytes(t.cursor.row as nat + 1) + seq![
                0x3bu8,
            ] + decimal_bytes(t.cursor.col as nat + 1) + seq![0x52u8]
            &&& digits_value(decimal_bytes(t.cursor.row as nat + 1)) == t.cursor.row + 1
            &&& digits_value(decimal_bytes(t.cursor.col as nat + 1)) == t.cursor.col + 1
        }),
        !term_after_modes(t, seq![25u16], false).cursor_visible,
        term_after_modes(t, seq![25u16], true).cursor_visible,
        term_after_modes(t, seq![1049u16], true).using_alt,
        !term_after_modes(t, seq![1049u16], false).using_alt,
{
    lemma_decimal_digits(t.cursor.row as nat + 1);
    lemma_decimal_digits(t.cursor.col as nat + 1);
    let r6 = term_after_csi(t, csi_effect(seq![seq![6u16]], Seq::empty(), 'n', t.cursor.rows)).responses;
    assert(r6.take(t.responses.len() as int) =~= t.responses);
    assert(seq![25u16].drop_last() =~= Seq::<u16>::empty());
    assert(seq![1049u16].drop_last() =~= Seq::<u16>::empty());
}

/// What the shell reports lands where the front end reads it: OSC 0 and
/// 2 set the title to the text sent, OSC 7 the directory to the URI's
/// path, OSC 9 the notification, and OSC 8 opens the link to the URI sent
/// (an empty URI closes it).
pub proof fn lemma_terminal_takes_reports(t: TermView, b1: Seq<u8>, text: Seq<char>, cmd_text: Seq<char>, now: i64)
    requires
        utf8_text(b1) == Some(text),
    ensures
        term_after_osc(t, osc_effect(seq![seq![0x32u8], b1]), cmd_text, now) == (TermView {
            title: text,
            ..t
        }),
        term_after_osc(t, osc_effect(seq![seq![0x30u8], b1]), cmd_text, now) == (TermView {
            title: text,
            ..t
        }),
        term_after_osc(t, osc_effect(seq![seq![0x39u8], b1]), cmd_text, now) == (TermView {
            notification: Some(text),
            ..t
        }),
        term_after_osc(t, osc_effect(seq![seq![0x37u8], b1]), cmd_text, now) == (TermView {
            cwd_uri: text,
            cwd: cwd_path(text),
            ..t
        }),
        term_after_osc(t, osc_effect(seq![seq![0x38u8], Seq::<u8>::empty(), b1]), cmd_text, now)
            == (TermView { hyperlink: if text.len() == 0 { None } else { Some(text) }, ..t }),
{
    lemma_osc_commands(b1, text);
    let p8 = seq![seq![0x38u8], Seq::<u8>::empty(), b1];
    assert(p8[2] == b1);
    assert(seq![0x38u8] != seq![0x30u8] && seq![0x38u8] != seq![0x32u8] && seq![0x38u8] != seq![0x37u8]
        && seq![0x38u8] != seq![0x39u8]) by {
        assert(seq![0x38u8][0] != seq![0x30u8][0] && seq![0x38u8][0] != seq![0x32u8][0]
            && seq![0x38u8][0] != seq![0x37u8][0] && seq![0x38u8][0] != seq![0x39u8][0]);
    }
}

/// RIS (ESC c) puts the cursor home on the main screen with the whole
/// screen as the region, visible, with a blank pen and the default tab
/// stops, and drops queued replies, keyboard flags and saved cursors,
/// while what the shell reported and the history stay.
pub proof fn lemma_reset_starts_afresh(t: TermView)
    requires
        t.wf(),
    ensures
        ({
            let r = term_after_esc(t, EscAction::FullReset);
            &&& r.cursor.row == 0 && r.cursor.col == 0
            &&& r.cursor.rows == t.cursor.rows && r.cursor.cols == t.cursor.cols
            &&& r.cursor.scroll_top == 0 && r.cursor.scroll_bottom == t.cursor.rows - 1
            &&& !r.cursor.origin_mode && !r.cursor.wrap_pending
            &&& r.cursor_visible
            &&& r.pen.fg == Color::Default && r.pen.bg == Color::Default
            &&& !r.pen.attrs.bold && !r.pen.attrs.reverse && !r.pen.attrs.underline
            &&& !r.using_alt
            &&& r.responses.len() == 0 && r.keyboard.len() == 0
            &&& r.saved.main is None && r.saved.alt is None
            &&& r.tab_stops.len() == t.cursor.cols
            &&& forall|i: int| 0 <= i < r.tab_stops.len() ==> (r.tab_stops[i] <==> i % 8 == 0)
            &&& r.title == t.title && r.cwd == t.cwd && r.commands == t.commands
            &&& r.total_scrolled == t.total_scrolled
        }),
{
}

} // verus!
