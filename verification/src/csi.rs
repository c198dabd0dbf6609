//! CSI (Control Sequence Introducer) sequences: what each one asks the
//! terminal to do.

use vstd::prelude::*;

verus! {

/// Parameter `idx` (its first value), or `default` when it is absent or 0.
pub open spec fn csi_param(groups: Seq<Seq<u16>>, idx: int, default: u16) -> u16 {
    if 0 <= idx < groups.len() && groups[idx].len() > 0 && groups[idx][0] != 0 {
        groups[idx][0]
    } else {
        default
    }
}

/// Which part of the screen ED erases.
#[derive(Debug, Clone, Copy, PartialEq, Eq, Structural)]
pub enum EraseRegion {
    /// From the cursor to the end of the screen.
    Below,
    /// From the start of the screen to the cursor.
    Above,
    /// The whole screen.
    All,
}

/// Which part of the cursor line EL erases.
#[derive(Debug, Clone, Copy, PartialEq, Eq, Structural)]
pub enum LineRegion {
    /// From the cursor to the end of the line.
    ToEnd,
    /// From the start of the line to the cursor.
    FromStart,
    /// The whole line.
    Whole,
}

/// The cursor shapes DECSCUSR selects.
#[derive(Debug, Clone, Copy, PartialEq, Eq, Structural)]
pub enum CursorShape {
    BlinkingBlock,
    Block,
    BlinkingUnderline,
    Underline,
    BlinkingBar,
    Bar,
}

/// Which tab stops TBC clears.
#[derive(Debug, Clone, Copy, PartialEq, Eq, Structural)]
pub enum TabClear {
    /// The stop at the cursor column.
    Current,
    /// Every stop.
    All,
}

/// What a CSI sequence asks of the terminal. Counts and positions are
/// already defaulted; positions are 0-based.
#[derive(Debug)]
pub enum CsiAction {
    Ignore,
    /// CUU: up `n` rows (stopping at the top).
    CursorUp(usize),
    /// CUD: down `n` rows (clamped to the screen).
    CursorDown(usize),
    /// CUF: right `n` columns (clamped to the screen).
    CursorForward(usize),
    /// CUB: left `n` columns (stopping at the left edge).
    CursorBack(usize),
    /// CNL: down `n` rows, to the first column.
    NextLine(usize),
    /// CPL: up `n` rows, to the first column.
    PrecedingLine(usize),
    /// CHA: to this column.
    CursorColumn(usize),
    /// CUP/HVP: to this row and column.
    CursorPosition { row: usize, col: usize },
    /// VPA: to this row.
    LinePosition(usize),
    /// ED.
    EraseInDisplay(EraseRegion),
    /// EL.
    EraseInLine(LineRegion),
    /// IL.
    InsertLines(usize),
    /// DL.
    DeleteLines(usize),
    /// DCH.
    DeleteChars(usize),
    /// ICH.
    InsertChars(usize),
    /// ECH.
    EraseChars(usize),
    /// SU.
    ScrollUp(usize),
    /// SD.
    ScrollDown(usize),
    /// SGR: the parameters select graphic rendition.
    SelectGraphicRendition,
    /// A report to send back to the application.
    Reply(Vec<u8>),
    /// DSR 6: report the cursor position.
    ReportCursorPosition,
    /// DECSTBM: the scrolling region (rows `top..=bottom`); the cursor homes.
    SetMargins { top: usize, bottom: usize },
    /// CBT: back `n` tab stops.
    BackTab(usize),
    /// TBC.
    ClearTabStops(TabClear),
    /// DECSCUSR.
    SetCursorShape(CursorShape),
    /// DECSET/DECRST: set or reset these private modes, in order.
    PrivateModes { codes: Vec<u16>, enable: bool },
    /// SM/RM 4: insert mode.
    InsertMode(bool),
    /// SM/RM 20: line feed / new line mode.
    LinefeedMode(bool),
    /// Kitty keyboard protocol: push these flags.
    PushKeyboardFlags(u32),
    /// Kitty keyboard protocol: pop this many entries.
    PopKeyboardFlags(usize),
}

/// A CSI action as plain values.
pub enum CsiEffect {
    Ignore,
    CursorUp(usize),
    CursorDown(usize),
    CursorForward(usize),
    CursorBack(usize),
    NextLine(usize),
    PrecedingLine(usize),
    CursorColumn(usize),
    CursorPosition { row: usize, col: usize },
    LinePosition(usize),
    EraseInDisplay(EraseRegion),
    EraseInLine(LineRegion),
    InsertLines(usize),
    DeleteLines(usize),
    DeleteChars(usize),
    InsertChars(usize),
    EraseChars(usize),
    ScrollUp(usize),
    ScrollDown(usize),
    SelectGraphicRendition,
    Reply(Seq<u8>),
    ReportCursorPosition,
    SetMargins { top: usize, bottom: usize },
    BackTab(usize),
    ClearTabStops(TabClear),
    SetCursorShape(CursorShape),
    PrivateModes { codes: Seq<u16>, enable: bool },
    InsertMode(bool),
    LinefeedMode(bool),
    PushKeyboardFlags(u32),
    PopKeyboardFlags(usize),
}

impl View for CsiAction {
    type V = CsiEffect;

    open spec fn view(&self) -> CsiEffect {
        match self {
            CsiAction::Ignore => CsiEffect::Ignore,
            CsiAction::CursorUp(n) => CsiEffect::CursorUp(*n),
            CsiAction::CursorDown(n) => CsiEffect::CursorDown(*n),
            CsiAction::CursorForward(n) => CsiEffect::CursorForward(*n),
            CsiAction::CursorBack(n) => CsiEffect::CursorBack(*n),
            CsiAction::NextLine(n) => CsiEffect::NextLine(*n),
            CsiAction::PrecedingLine(n) => CsiEffect::PrecedingLine(*n),
            CsiAction::CursorColumn(c) => CsiEffect::CursorColumn(*c),
            CsiAction::CursorPosition { row, col } => CsiEffect::CursorPosition {
                row: *row,
                col: *col,
            },
            CsiAction::LinePosition(r) => CsiEffect::LinePosition(*r),
            CsiAction::EraseInDisplay(e) => CsiEffect::EraseInDisplay(*e),
            CsiAction::EraseInLine(e) => CsiEffect::EraseInLine(*e),
            CsiAction::InsertLines(n) => CsiEffect::InsertLines(*n),
            CsiAction::DeleteLines(n) => CsiEffect::DeleteLines(*n),
            CsiAction::DeleteChars(n) => CsiEffect::DeleteChars(*n),
            CsiAction::InsertChars(n) => CsiEffect::InsertChars(*n),
            CsiAction::EraseChars(n) => CsiEffect::EraseChars(*n),
            CsiAction::ScrollUp(n) => CsiEffect::ScrollUp(*n),
            CsiAction::ScrollDown(n) => CsiEffect::ScrollDown(*n),
            CsiAction::SelectGraphicRendition => CsiEffect::SelectGraphicRendition,
            CsiAction::Reply(r) => CsiEffect::Reply(r@),
            CsiAction::ReportCursorPosition => CsiEffect::ReportCursorPosition,
            CsiAction::SetMargins { top, bottom } => CsiEffect::SetMargins {
                top: *top,
                bottom: *bottom,
            },
            CsiAction::BackTab(n) => CsiEffect::BackTab(*n),
            CsiAction::ClearTabStops(t) => CsiEffect::ClearTabStops(*t),
            CsiAction::SetCursorShape(s) => CsiEffect::SetCursorShape(*s),
            CsiAction::PrivateModes { codes, enable } => CsiEffect::PrivateModes {
                codes: codes@,
                enable: *enable,
            },
            CsiAction::InsertMode(b) => CsiEffect::InsertMode(*b),
            CsiAction::LinefeedMode(b) => CsiEffect::LinefeedMode(*b),
            CsiAction::PushKeyboardFlags(f) => CsiEffect::PushKeyboardFlags(*f),
            CsiAction::PopKeyboardFlags(n) => CsiEffect::PopKeyboardFlags(*n),
        }
    }
}

/// `ESC [ 0 n`: the terminal is OK.
pub open spec fn status_ok_reply() -> Seq<u8> {
    seq![0x1bu8, 0x5bu8, 0x30u8, 0x6eu8]
}

/// `ESC [ ? 62 ; 4 ; 22 c`: a VT220 with Sixel graphics and ANSI colour.
pub open spec fn primary_attributes_reply() -> Seq<u8> {
    seq![0x1bu8, 0x5bu8, 0x3fu8, 0x36u8, 0x32u8, 0x3bu8, 0x34u8, 0x3bu8, 0x32u8, 0x32u8, 0x63u8]
}

/// `ESC [ > 1 ; 1 ; 0 c`: VT220, firmware version 1, no ROM cartridge.
pub open spec fn secondary_attributes_reply() -> Seq<u8> {
    seq![0x1bu8, 0x5bu8, 0x3eu8, 0x31u8, 0x3bu8, 0x31u8, 0x3bu8, 0x30u8, 0x63u8]
}

/// The cursor shape a DECSCUSR parameter selects.
pub open spec fn cursor_shape_of(p: u16) -> CursorShape {
    if p == 2 {
        CursorShape::Block
    } else if p == 3 {
        CursorShape::BlinkingUnderline
    } else if p == 4 {
        CursorShape::Underline
    } else if p == 5 {
        CursorShape::BlinkingBar
    } else if p == 6 {
        CursorShape::Bar
    } else {
        CursorShape::BlinkingBlock
    }
}

/// The scrolling region DECSTBM sets on a screen of `rows` rows: 1-based
/// `top;bottom` (bottom defaulting to the last row and clamped to it); a
/// region without two rows is the whole screen.
pub open spec fn margins(groups: Seq<Seq<u16>>, rows: usize) -> (usize, usize) {
    let top = csi_param(groups, 0, 1) as int - 1;
    let b = csi_param(groups, 1, rows as u16) as int;
    let bottom_param = if b == 0 {
        0
    } else {
        b - 1
    };
    let last = rows - 1;
    let bottom = if bottom_param < last {
        bottom_param
    } else {
        last
    };
    if top >= bottom {
        (0, (rows - 1) as usize)
    } else {
        (top as usize, bottom as usize)
    }
}

/// The first value of every parameter group.
pub open spec fn group_heads(groups: Seq<Seq<u16>>) -> Seq<u16> {
    groups.map_values(|g: Seq<u16>| g[0])
}

/// What a CSI sequence with parameter groups `groups`, intermediate bytes
/// `inter` and final character `action` asks of a terminal with `rows` rows.
pub open spec fn csi_effect(groups: Seq<Seq<u16>>, inter: Seq<u8>, action: char, rows: usize) -> CsiEffect {
    let n = csi_param(groups, 0, 1) as usize;
    let mode = csi_param(groups, 0, 0);
    if inter.len() == 0 {
        if action == 'A' {
            CsiEffect::CursorUp(n)
        } else if action == 'B' {
            CsiEffect::CursorDown(n)
        } else if action == 'C' {
            CsiEffect::CursorForward(n)
        } else if action == 'D' {
            CsiEffect::CursorBack(n)
        } else if action == 'E' {
            CsiEffect::NextLine(n)
        } else if action == 'F' {
            CsiEffect::PrecedingLine(n)
        } else if action == 'G' {
            CsiEffect::CursorColumn((n - 1) as usize)
        } else if action == 'H' || action == 'f' {
            CsiEffect::CursorPosition {
                row: (n - 1) as usize,
                col: (csi_param(groups, 1, 1) - 1) as usize,
            }
        } else if action == 'J' {
            if mode == 0 {
                CsiEffect::EraseInDisplay(EraseRegion::Below)
            } else if mode == 1 {
                CsiEffect::EraseInDisplay(EraseRegion::Above)
            } else if mode == 2 || mode == 3 {
                CsiEffect::EraseInDisplay(EraseRegion::All)
            } else {
                CsiEffect::Ignore
            }
        } else if action == 'K' {
            if mode == 0 {
                CsiEffect::EraseInLine(LineRegion::ToEnd)
            } else if mode == 1 {
                CsiEffect::EraseInLine(LineRegion::FromStart)
            } else if mode == 2 {
                CsiEffect::EraseInLine(LineRegion::Whole)
            } else {
                CsiEffect::Ignore
            }
        } else if action == 'L' {
            CsiEffect::InsertLines(n)
        } else if action == 'M' {
            CsiEffect::DeleteLines(n)
        } else if action == 'P' {
            CsiEffect::DeleteChars(n)
        } else if action == 'S' {
            CsiEffect::ScrollUp(n)
        } else if action == 'T' {
            CsiEffect::ScrollDown(n)
        } else if action == 'X' {
            CsiEffect::EraseChars(n)
        } else if action == '@' {
            CsiEffect::InsertChars(n)
        } else if action == 'd' {
            CsiEffect::LinePosition((n - 1) as usize)
        } else if action == 'm' {
            CsiEffect::SelectGraphicRendition
        } else if action == 'n' {
            if mode == 5 {
                CsiEffect::Reply(status_ok_reply())
            } else if mode == 6 {
                CsiEffect::ReportCursorPosition
            } else {
                CsiEffect::Ignore
            }
        } else if action == 'r' {
            if rows == 0 {
                CsiEffect::Ignore
            } else {
                CsiEffect::SetMargins { top: margins(groups, rows).0, bottom: margins(groups, rows).1 }
            }
        } else if action == 'Z' {
            CsiEffect::BackTab(n)
        } else if action == 'g' {
            if mode == 0 {
                CsiEffect::ClearTabStops(TabClear::Current)
            } else if mode == 3 {
                CsiEffect::ClearTabStops(TabClear::All)
            } else {
                CsiEffect::Ignore
            }
        } else if action == 'h' || action == 'l' {
            if mode == 4 {
                CsiEffect::InsertMode(action == 'h')
            } else if mode == 20 {
                CsiEffect::LinefeedMode(action == 'h')
            } else {
                CsiEffect::Ignore
            }
        } else if action == 'c' {
            if mode == 0 {
                CsiEffect::Reply(primary_attributes_reply())
            } else {
                CsiEffect::Ignore
            }
        } else {
            CsiEffect::Ignore
        }
    } else if inter == seq![0x20u8] && action == 'q' {
        CsiEffect::SetCursorShape(cursor_shape_of(n as u16))
    } else if inter == seq![0x3fu8] && (action == 'h' || action == 'l') {
        CsiEffect::PrivateModes { codes: group_heads(groups), enable: action == 'h' }
    } else if inter == seq![0x3eu8] && action == 'u' {
        CsiEffect::PushKeyboardFlags(mode as u32)
    } else if inter == seq![0x3cu8] && action == 'u' {
        CsiEffect::PopKeyboardFlags(n)
    } else if inter == seq![0x3eu8] && action == 'c' {
        if mode == 0 {
            CsiEffect::Reply(secondary_attributes_reply())
        } else {
            CsiEffect::Ignore
        }
    } else {
        CsiEffect::Ignore
    }
}

/// The parameter groups as sequences.
pub open spec fn group_views(groups: &Vec<Vec<u16>>) -> Seq<Seq<u16>> {
    groups@.map_values(|g: Vec<u16>| g@)
}

/// Parameter `idx`, or `default` when it is absent or 0.
fn param(groups: &Vec<Vec<u16>>, idx: usize, default: u16) -> (v: u16)
    ensures
        v == csi_param(group_views(groups), idx as int, default),
{
    if idx < groups.len() && groups[idx].len() > 0 && groups[idx][0] != 0 {
        groups[idx][0]
    } else {
        default
    }
}

/// The first value of every parameter group.
fn heads(groups: &Vec<Vec<u16>>) -> (codes: Vec<u16>)
    requires
        forall|k: int| 0 <= k < groups@.len() ==> groups@[k]@.len() > 0,
    ensures
        codes@ == group_heads(group_views(groups)),
{
    let mut codes: Vec<u16> = Vec::new();
    let mut i: usize = 0;
    while i < groups.len()
        invariant
            i <= groups@.len(),
            forall|k: int| 0 <= k < groups@.len() ==> groups@[k]@.len() > 0,
            codes@ == group_heads(group_views(groups)).take(i as int),
        decreases groups@.len() - i,
    {
        codes.push(groups[i][0]);
        proof {
            assert(group_heads(group_views(groups)).take(i + 1) =~= codes@);
        }
        i = i + 1;
    }
    proof {
        assert(group_heads(group_views(groups)).take(i as int) =~= group_heads(group_views(groups)));
    }
    codes
}

/// Whether the intermediate bytes are the one byte `b`.
fn inter_is(inter: &[u8], b: u8) -> (r: bool)
    ensures
        r == (inter@ == seq![b]),
{
    let r = inter.len() == 1 && inter[0] == b;
    proof {
        if inter@ == seq![b] {
            assert(inter@[0] == b);
        }
        if r {
            assert(inter@ =~= seq![b]);
        }
    }
    r
}

/// Decide what a CSI sequence asks of a terminal with `rows` rows.
pub fn csi_dispatch(groups: &Vec<Vec<u16>>, intermediates: &[u8], action: char, rows: usize) -> (r:
    CsiAction)
    requires
        intermediates@ == seq![0x3fu8] && (action == 'h' || action == 'l') ==> forall|k: int|
            0 <= k < groups@.len() ==> groups@[k]@.len() > 0,
    ensures
        r@ == csi_effect(group_views(groups), intermediates@, action, rows),
{
    let n = param(groups, 0, 1) as usize;
    let mode = param(groups, 0, 0);
    if intermediates.len() == 0 {
        if action == 'A' {
            CsiAction::CursorUp(n)
        } else if action == 'B' {
            CsiAction::CursorDown(n)
        } else if action == 'C' {
            CsiAction::CursorForward(n)
        } else if action == 'D' {
            CsiAction::CursorBack(n)
        } else if action == 'E' {
            CsiAction::NextLine(n)
        } else if action == 'F' {
            CsiAction::PrecedingLine(n)
        } else if action == 'G' {
            CsiAction::CursorColumn(n - 1)
        } else if action == 'H' || action == 'f' {
            let col = param(groups, 1, 1) as usize;
            CsiAction::CursorPosition { row: n - 1, col: col - 1 }
        } else if action == 'J' {
            if mode == 0 {
                CsiAction::EraseInDisplay(EraseRegion::Below)
            } else if mode == 1 {
                CsiAction::EraseInDisplay(EraseRegion::Above)
            } else if mode == 2 || mode == 3 {
                CsiAction::EraseInDisplay(EraseRegion::All)
            } else {
                CsiAction::Ignore
            }
        } else if action == 'K' {
            if mode == 0 {
                CsiAction::EraseInLine(LineRegion::ToEnd)
            } else if mode == 1 {
                CsiAction::EraseInLine(LineRegion::FromStart)
            } else if mode == 2 {
                CsiAction::EraseInLine(LineRegion::Whole)
            } else {
                CsiAction::Ignore
            }
        } else if action == 'L' {
            CsiAction::InsertLines(n)
        } else if action == 'M' {
            CsiAction::DeleteLines(n)
        } else if action == 'P' {
            CsiAction::DeleteChars(n)
        } else if action == 'S' {
            CsiAction::ScrollUp(n)
        } else if action == 'T' {
            CsiAction::ScrollDown(n)
        } else if action == 'X' {
            CsiAction::EraseChars(n)
        } else if action == '@' {
            CsiAction::InsertChars(n)
        } else if action == 'd' {
            CsiAction::LinePosition(n - 1)
        } else if action == 'm' {
            CsiAction::SelectGraphicRendition
        } else if action == 'n' {
            if mode == 5 {
                let reply = vec![0x1bu8, 0x5bu8, 0x30u8, 0x6eu8];
                proof {
                    assert(reply@ =~= status_ok_reply());
                }
                CsiAction::Reply(reply)
            } else if mode == 6 {
                CsiAction::ReportCursorPosition
            } else {
                CsiAction::Ignore
            }
        } else if action == 'r' {
            if rows == 0 {
                CsiAction::Ignore
            } else {
                let top = (param(groups, 0, 1) - 1) as usize;
                let b = param(groups, 1, #[verifier::truncate] (rows as u16));
                let bottom_param = if b == 0 {
                    0
                } else {
                    (b - 1) as usize
                };
                let last = rows - 1;
                let bottom = if bottom_param < last {
                    bottom_param
                } else {
                    last
                };
                if top >= bottom {
                    CsiAction::SetMargins { top: 0, bottom: rows - 1 }
                } else {
                    CsiAction::SetMargins { top, bottom }
                }
            }
        } else if action == 'Z' {
            CsiAction::BackTab(n)
        } else if action == 'g' {
            if mode == 0 {
                CsiAction::ClearTabStops(TabClear::Current)
            } else if mode == 3 {
                CsiAction::ClearTabStops(TabClear::All)
            } else {
                CsiAction::Ignore
            }
        } else if action == 'h' || action == 'l' {
            if mode == 4 {
                CsiAction::InsertMode(action == 'h')
            } else if mode == 20 {
                CsiAction::LinefeedMode(action == 'h')
            } else {
                CsiAction::Ignore
            }
        } else if action == 'c' {
            if mode == 0 {
                let reply = vec![
                    0x1bu8,
                    0x5bu8,
                    0x3fu8,
                    0x36u8,
                    0x32u8,
                    0x3bu8,
                    0x34u8,
                    0x3bu8,
                    0x32u8,
                    0x32u8,
                    0x63u8,
                ];
                proof {
                    assert(reply@ =~= primary_attributes_reply());
                }
                CsiAction::Reply(reply)
            } else {
                CsiAction::Ignore
            }
        } else {
            CsiAction::Ignore
        }
    } else if inter_is(intermediates, 0x20) && action == 'q' {
        let shape = if n == 2 {
            CursorShape::Block
        } else if n == 3 {
            CursorShape::BlinkingUnderline
        } else if n == 4 {
            CursorShape::Underline
        } else if n == 5 {
            CursorShape::BlinkingBar
        } else if n == 6 {
            CursorShape::Bar
        } else {
            CursorShape::BlinkingBlock
        };
        CsiAction::SetCursorShape(shape)
    } else if inter_is(intermediates, 0x3f) && (action == 'h' || action == 'l') {
        CsiAction::PrivateModes { codes: heads(groups), enable: action == 'h' }
    } else if inter_is(intermediates, 0x3e) && action == 'u' {
        CsiAction::PushKeyboardFlags(mode as u32)
    } else if inter_is(intermediates, 0x3c) && action == 'u' {
        CsiAction::PopKeyboardFlags(n)
    } else if inter_is(intermediates, 0x3e) && action == 'c' {
        if mode == 0 {
            let reply = vec![0x1bu8, 0x5bu8, 0x3eu8, 0x31u8, 0x3bu8, 0x31u8, 0x3bu8, 0x30u8, 0x63u8];
            proof {
                assert(reply@ =~= secondary_attributes_reply());
            }
            CsiAction::Reply(reply)
        } else {
            CsiAction::Ignore
        }
    } else {
        CsiAction::Ignore
    }
}


// ---------------------------------------------------------------------------
// Private modes
// ---------------------------------------------------------------------------

/// Which mouse events are reported.
#[derive(Debug, Clone, Copy, PartialEq, Eq, Structural)]
pub enum MouseMode {
    /// No reporting.
    Off,
    /// Button presses (modes 9 and 1000).
    Click,
    /// Presses and motion while a button is down (mode 1002).
    ButtonMotion,
    /// Presses and all motion (mode 1003).
    AnyMotion,
}

/// How mouse reports are encoded.
#[derive(Debug, Clone, Copy, PartialEq, Eq, Structural)]
pub enum MouseFormat {
    X10,
    /// Mode 1005.
    Utf8,
    /// Mode 1006.
    Sgr,
    /// Mode 1015.
    Urxvt,
}

/// What setting (`enable`) or resetting one private mode asks of the terminal.
#[derive(Debug, Clone, Copy, PartialEq, Eq, Structural)]
pub enum ModeChange {
    Ignore,
    /// DECCKM.
    ApplicationCursorKeys(bool),
    /// DECOM; the cursor moves to the (new) origin.
    OriginMode(bool),
    /// DECAWM.
    AutoWrap(bool),
    /// Mouse reporting.
    Mouse(MouseMode),
    /// DECTCEM.
    CursorVisible(bool),
    /// Enter (or leave) the alternate screen (modes 47, 1047, 1049).
    AlternateScreen(bool),
    /// Focus in/out reports (mode 1004).
    FocusEvents(bool),
    /// DECSDM (mode 80).
    SixelDisplayMode(bool),
    /// Mouse report encoding.
    MouseEncoding(MouseFormat),
    /// Mode 1048 set: save the cursor.
    SaveCursor,
    /// Mode 1048 reset: restore the cursor.
    RestoreCursor,
    /// Mode 2004.
    BracketedPaste(bool),
}

/// The mouse mode a tracking mode selects when set; off when reset.
pub open spec fn tracking(mode: MouseMode, enable: bool) -> ModeChange {
    ModeChange::Mouse(
        if enable {
            mode
        } else {
            MouseMode::Off
        },
    )
}

/// The encoding a mouse format mode selects when set; X10 when reset.
pub open spec fn encoding(format: MouseFormat, enable: bool) -> ModeChange {
    ModeChange::MouseEncoding(
        if enable {
            format
        } else {
            MouseFormat::X10
        },
    )
}

/// What setting or resetting private mode `code` asks of the terminal.
pub open spec fn mode_change(code: u16, enable: bool) -> ModeChange {
    if code == 1 {
        ModeChange::ApplicationCursorKeys(enable)
    } else if code == 6 {
        ModeChange::OriginMode(enable)
    } else if code == 7 {
        ModeChange::AutoWrap(enable)
    } else if code == 9 || code == 1000 {
        tracking(MouseMode::Click, enable)
    } else if code == 25 {
        ModeChange::CursorVisible(enable)
    } else if code == 47 || code == 1047 || code == 1049 {
        ModeChange::AlternateScreen(enable)
    } else if code == 1002 {
        tracking(MouseMode::ButtonMotion, enable)
    } else if code == 1003 {
        tracking(MouseMode::AnyMotion, enable)
    } else if code == 1004 {
        ModeChange::FocusEvents(enable)
    } else if code == 80 {
        ModeChange::SixelDisplayMode(enable)
    } else if code == 1005 {
        encoding(MouseFormat::Utf8, enable)
    } else if code == 1006 {
        encoding(MouseFormat::Sgr, enable)
    } else if code == 1015 {
        encoding(MouseFormat::Urxvt, enable)
    } else if code == 1048 {
        if enable {
            ModeChange::SaveCursor
        } else {
            ModeChange::RestoreCursor
        }
    } else if code == 2004 {
        ModeChange::BracketedPaste(enable)
    } else {
        ModeChange::Ignore
    }
}

/// Handle private mode set/reset (DECSET/DECRST): what it asks of the terminal.
pub fn private_mode_change(code: u16, enable: bool) -> (m: ModeChange)
    ensures
        m == mode_change(code, enable),
{
    let tracked_mode = |mode: MouseMode| -> (c: ModeChange)
        ensures
            c == tracking(mode, enable),
        {
            ModeChange::Mouse(
                if enable {
                    mode
                } else {
                    MouseMode::Off
                },
            )
        };
    let encoded = |format: MouseFormat| -> (c: ModeChange)
        ensures
            c == encoding(format, enable),
        {
            ModeChange::MouseEncoding(
                if enable {
                    format
                } else {
                    MouseFormat::X10
                },
            )
        };
    if code == 1 {
        ModeChange::ApplicationCursorKeys(enable)
    } else if code == 6 {
        ModeChange::OriginMode(enable)
    } else if code == 7 {
        ModeChange::AutoWrap(enable)
    } else if code == 9 || code == 1000 {
        tracked_mode(MouseMode::Click)
    } else if code == 25 {
        ModeChange::CursorVisible(enable)
    } else if code == 47 || code == 1047 || code == 1049 {
        ModeChange::AlternateScreen(enable)
    } else if code == 1002 {
        tracked_mode(MouseMode::ButtonMotion)
    } else if code == 1003 {
        tracked_mode(MouseMode::AnyMotion)
    } else if code == 1004 {
        ModeChange::FocusEvents(enable)
    } else if code == 80 {
        ModeChange::SixelDisplayMode(enable)
    } else if code == 1005 {
        encoded(MouseFormat::Utf8)
    } else if code == 1006 {
        encoded(MouseFormat::Sgr)
    } else if code == 1015 {
        encoded(MouseFormat::Urxvt)
    } else if code == 1048 {
        if enable {
            ModeChange::SaveCursor
        } else {
            ModeChange::RestoreCursor
        }
    } else if code == 2004 {
        ModeChange::BracketedPaste(enable)
    } else {
        ModeChange::Ignore
    }
}

// ---------------------------------------------------------------------------
// Reports
// ---------------------------------------------------------------------------

/// The ASCII decimal digits of `n`.
pub open spec fn decimal_bytes(n: nat) -> Seq<u8>
    decreases n,
{
    if n < 10 {
        seq![(0x30 + n) as u8]
    } else {
        decimal_bytes(n / 10).push((0x30 + n % 10) as u8)
    }
}

/// Append the ASCII decimal digits of `n` to `out`.
fn push_decimal_bytes(out: &mut Vec<u8>, n: usize)
    ensures
        final(out)@ == old(out)@ + decimal_bytes(n as nat),
    decreases n,
{
    if n >= 10 {
        push_decimal_bytes(out, n / 10);
    }
    out.push((0x30 + n % 10) as u8);
    proof {
        assert(out@ =~= old(out)@ + decimal_bytes(n as nat));
    }
}

/// The cursor position report `ESC [ <row> ; <col> R` (1-based) for the
/// 0-based cursor position `row`, `col`.
pub fn cursor_position_report(row: usize, col: usize) -> (r: Vec<u8>)
    requires
        row < usize::MAX,
        col < usize::MAX,
    ensures
        r@ == seq![0x1bu8, 0x5bu8] + decimal_bytes(row as nat + 1) + seq![0x3bu8] + decimal_bytes(
            col as nat + 1,
        ) + seq![0x52u8],
{
    let mut r: Vec<u8> = vec![0x1bu8, 0x5bu8];
    push_decimal_bytes(&mut r, row + 1);
    r.push(0x3b);
    push_decimal_bytes(&mut r, col + 1);
    r.push(0x52);
    proof {
        assert(r@ =~= seq![0x1bu8, 0x5bu8] + decimal_bytes(row as nat + 1) + seq![0x3bu8]
            + decimal_bytes(col as nat + 1) + seq![0x52u8]);
    }
    r
}


// ---------------------------------------------------------------------------
// Kitty keyboard protocol
// ---------------------------------------------------------------------------

/// The stack of keyboard enhancement flags pushed by applications.
pub struct KeyboardFlagStack {
    flags: Vec<u32>,
}

impl View for KeyboardFlagStack {
    type V = Seq<u32>;

    closed spec fn view(&self) -> Seq<u32> {
        self.flags@
    }
}

/// The flags in force: those on top of the stack, 0 when it is empty.
pub open spec fn flags_in_force(stack: Seq<u32>) -> u32 {
    if stack.len() == 0 {
        0
    } else {
        stack.last()
    }
}

impl KeyboardFlagStack {
    pub fn new() -> (s: Self)
        ensures
            s@ == Seq::<u32>::empty(),
    {
        Self { flags: Vec::new() }
    }

    /// `CSI > flags u`: push flags.
    pub fn push(&mut self, flags: u32)
        ensures
            final(self)@ == old(self)@.push(flags),
    {
        self.flags.push(flags);
    }

    /// `CSI < n u`: pop `count` entries (fewer when the stack runs out).
    pub fn pop(&mut self, count: usize)
        ensures
            final(self)@ == popped(old(self)@, count as nat),
    {
        let mut i: usize = 0;
        while i < count
            invariant
                i <= count,
                self.flags@ == old(self)@.take(
                    if i >= old(self)@.len() {
                        0
                    } else {
                        old(self)@.len() - i
                    },
                ),
            decreases count - i,
        {
            if self.flags.pop().is_none() {
                proof {
                    assert(old(self)@.take(0) =~= old(self)@.take(
                        if count >= old(self)@.len() {
                            0
                        } else {
                            old(self)@.len() - count
                        },
                    ));
                }
                return;
            }
            proof {
                assert(old(self)@.take(
                    if i + 1 >= old(self)@.len() {
                        0
                    } else {
                        old(self)@.len() - (i + 1)
                    },
                ) =~= self.flags@);
            }
            i = i + 1;
        }
    }

    /// The flags in force.
    pub fn mode(&self) -> (m: u32)
        ensures
            m == flags_in_force(self@),
    {
        if self.flags.len() == 0 {
            0
        } else {
            self.flags[self.flags.len() - 1]
        }
    }

    /// Apply a CSI action to the stack (pushes and pops; other actions
    /// leave it alone).
    pub fn apply(&mut self, action: &CsiAction)
        ensures
            final(self)@ == match action@ {
                CsiEffect::PushKeyboardFlags(f) => old(self)@.push(f),
                CsiEffect::PopKeyboardFlags(n) => popped(old(self)@, n as nat),
                _ => old(self)@,
            },
    {
        match action {
            CsiAction::PushKeyboardFlags(f) => self.push(*f),
            CsiAction::PopKeyboardFlags(n) => self.pop(*n),
            _ => {},
        }
    }
}

/// The stack after popping `count` entries from `stack`.
pub open spec fn popped(stack: Seq<u32>, count: nat) -> Seq<u32> {
    stack.take(if count >= stack.len() { 0 } else { stack.len() - count })
}

/// A push followed by a pop of one entry gives back the stack that was there
/// before, and with it the flags that were in force.
pub proof fn lemma_push_then_pop_restores(stack: Seq<u32>, flags: u32)
    ensures
        popped(stack.push(flags), 1) == stack,
        flags_in_force(popped(stack.push(flags), 1)) == flags_in_force(stack),
        flags_in_force(stack.push(flags)) == flags,
{
    assert(stack.push(flags).take(stack.len() as int) =~= stack);
}

/// Popping `a` entries and then `b` entries is the same as popping `a + b`.
pub proof fn lemma_pops_compose(stack: Seq<u32>, a: nat, b: nat)
    ensures
        popped(popped(stack, a), b) == popped(stack, a + b),
{
    assert(popped(popped(stack, a), b) =~= popped(stack, a + b));
}

/// The first parameter as sent: its first value, 0 when there is none.
pub open spec fn first_sent(groups: Seq<Seq<u16>>) -> u16 {
    if groups.len() > 0 && groups[0].len() > 0 {
        groups[0][0]
    } else {
        0
    }
}

/// DECSCUSR (`CSI n SP q`) picks the cursor shape by the standard table:
/// 0 or 1 (or no parameter) a blinking block, 2 a steady block, 3 a
/// blinking underline, 4 a steady underline, 5 a blinking bar, 6 a steady
/// bar; anything larger falls back to the blinking block.
pub proof fn lemma_decscusr_shapes(groups: Seq<Seq<u16>>, rows: usize)
    ensures
        ({
            let e = csi_effect(groups, seq![0x20u8], 'q', rows);
            let p = first_sent(groups);
            &&& (p == 0 || p == 1 || p > 6) ==> e == CsiEffect::SetCursorShape(
                CursorShape::BlinkingBlock,
            )
            &&& p == 2 ==> e == CsiEffect::SetCursorShape(CursorShape::Block)
            &&& p == 3 ==> e == CsiEffect::SetCursorShape(CursorShape::BlinkingUnderline)
            &&& p == 4 ==> e == CsiEffect::SetCursorShape(CursorShape::Underline)
            &&& p == 5 ==> e == CsiEffect::SetCursorShape(CursorShape::BlinkingBar)
            &&& p == 6 ==> e == CsiEffect::SetCursorShape(CursorShape::Bar)
        }),
{
}

/// The cursor-moving finals take their count or 1-based position from the
/// parameters as sent (an absent or 0 parameter counts as 1): CUU `A`,
/// CUD `B`, CUF `C`, CUB `D`, CNL `E`, CPL `F` move by it; CHA `G`, VPA
/// `d` and CUP `H`/`f` go to it, made 0-based (CUP's second parameter is
/// the column).
pub proof fn lemma_cursor_finals(groups: Seq<Seq<u16>>, rows: usize)
    ensures
        ({
            let p0 = first_sent(groups);
            let n: usize = if p0 == 0 {
                1
            } else {
                p0 as usize
            };
            let p1: u16 = if groups.len() > 1 && groups[1].len() > 0 {
                groups[1][0]
            } else {
                0
            };
            let c: usize = if p1 == 0 {
                0
            } else {
                (p1 - 1) as usize
            };
            let e = |a: char| csi_effect(groups, Seq::empty(), a, rows);
            &&& e('A') == CsiEffect::CursorUp(n)
            &&& e('B') == CsiEffect::CursorDown(n)
            &&& e('C') == CsiEffect::CursorForward(n)
            &&& e('D') == CsiEffect::CursorBack(n)
            &&& e('E') == CsiEffect::NextLine(n)
            &&& e('F') == CsiEffect::PrecedingLine(n)
            &&& e('G') == CsiEffect::CursorColumn((n - 1) as usize)
            &&& e('d') == CsiEffect::LinePosition((n - 1) as usize)
            &&& e('H') == CsiEffect::CursorPosition { row: (n - 1) as usize, col: c }
            &&& e('f') == CsiEffect::CursorPosition { row: (n - 1) as usize, col: c }
        }),
{
}

/// DECSET/DECRST by mode number: 1 cursor keys, 6 origin mode, 7
/// auto-wrap, 25 cursor visibility, 47/1047/1049 the alternate screen,
/// 1004 focus reports, 80 Sixel display mode and 2004 bracketed paste
/// follow set or reset; 9/1000, 1002 and 1003 turn click, button-motion
/// and any-motion mouse tracking on, and off when reset; 1005, 1006 and
/// 1015 select the UTF-8, SGR and urxvt mouse encodings, X10 when reset;
/// 1048 saves the cursor when set and restores it when reset.
pub proof fn lemma_private_modes(on: bool)
    ensures
        mode_change(1, on) == ModeChange::ApplicationCursorKeys(on),
        mode_change(6, on) == ModeChange::OriginMode(on),
        mode_change(7, on) == ModeChange::AutoWrap(on),
        mode_change(25, on) == ModeChange::CursorVisible(on),
        mode_change(47, on) == ModeChange::AlternateScreen(on),
        mode_change(1047, on) == ModeChange::AlternateScreen(on),
        mode_change(1049, on) == ModeChange::AlternateScreen(on),
        mode_change(1004, on) == ModeChange::FocusEvents(on),
        mode_change(80, on) == ModeChange::SixelDisplayMode(on),
        mode_change(2004, on) == ModeChange::BracketedPaste(on),
        mode_change(9, true) == ModeChange::Mouse(MouseMode::Click),
        mode_change(1000, true) == ModeChange::Mouse(MouseMode::Click),
        mode_change(1002, true) == ModeChange::Mouse(MouseMode::ButtonMotion),
        mode_change(1003, true) == ModeChange::Mouse(MouseMode::AnyMotion),
        mode_change(9, false) == ModeChange::Mouse(MouseMode::Off),
        mode_change(1000, false) == ModeChange::Mouse(MouseMode::Off),
        mode_change(1002, false) == ModeChange::Mouse(MouseMode::Off),
        mode_change(1003, false) == ModeChange::Mouse(MouseMode::Off),
        mode_change(1005, true) == ModeChange::MouseEncoding(MouseFormat::Utf8),
        mode_change(1006, true) == ModeChange::MouseEncoding(MouseFormat::Sgr),
        mode_change(1015, true) == ModeChange::MouseEncoding(MouseFormat::Urxvt),
        mode_change(1005, false) == ModeChange::MouseEncoding(MouseFormat::X10),
        mode_change(1006, false) == ModeChange::MouseEncoding(MouseFormat::X10),
        mode_change(1015, false) == ModeChange::MouseEncoding(MouseFormat::X10),
        mode_change(1048, true) == ModeChange::SaveCursor,
        mode_change(1048, false) == ModeChange::RestoreCursor,
{
}

/// The number that ASCII decimal digits spell.
pub open spec fn digits_value(s: Seq<u8>) -> int
    decreases s.len(),
{
    if s.len() == 0 {
        0
    } else {
        digits_value(s.drop_last()) * 10 + (s.last() - 0x30)
    }
}

/// The digits of a report spell the number, are all ASCII digits, and
/// have no leading zero.
pub proof fn lemma_decimal_digits(n: nat)
    ensures
        digits_value(decimal_bytes(n)) == n,
        decimal_bytes(n).len() > 0,
        forall|i: int| 0 <= i < decimal_bytes(n).len() ==> 0x30 <= #[trigger] decimal_bytes(n)[i] <= 0x39,
        n > 0 ==> decimal_bytes(n)[0] != 0x30,
    decreases n,
{
    if n >= 10 {
        lemma_decimal_digits(n / 10);
        let d = decimal_bytes(n);
        assert(d.drop_last() =~= decimal_bytes(n / 10));
        assert(n == (n / 10) * 10 + n % 10);
        assert forall|i: int| 0 <= i < d.len() implies 0x30 <= #[trigger] d[i] <= 0x39 by {
            if i < d.len() - 1 {
                assert(d[i] == decimal_bytes(n / 10)[i]);
            }
        }
        assert(d[0] == decimal_bytes(n / 10)[0]);
        assert(d.last() == (0x30 + n % 10) as u8);
        assert(((0x30 + n % 10) as u8) - 0x30 == n % 10);
        assert(digits_value(d) == digits_value(decimal_bytes(n / 10)) * 10 + n % 10);
    } else {
        let d = decimal_bytes(n);
        assert(d =~= seq![(0x30 + n) as u8]);
        assert(d.drop_last() =~= Seq::<u8>::empty());
        assert(digits_value(Seq::<u8>::empty()) == 0);
        assert(digits_value(d) == digits_value(d.drop_last()) * 10 + (d.last() - 0x30));
    }
}

} // verus!
