//! Select Graphic Rendition (`CSI ... m`): the pen that later characters
//! are drawn with.

use vstd::prelude::*;
use crate::color::{
    ansi_color, ansi_color_of, channel_at, extended_color, parse_extended_color, Color, NamedColor,
};

verus! {

/// Character attributes.
#[derive(Debug, Clone, Copy, PartialEq, Eq, Structural)]
pub struct Attrs {
    pub bold: bool,
    pub dim: bool,
    pub italic: bool,
    pub underline: bool,
    pub double_underline: bool,
    pub curly_underline: bool,
    pub dotted_underline: bool,
    pub dashed_underline: bool,
    pub blink: bool,
    pub reverse: bool,
    pub hidden: bool,
    pub strikethrough: bool,
}

/// The colours and attributes that printed characters take.
#[derive(Debug, Clone, Copy, PartialEq, Eq, Structural)]
pub struct Pen {
    pub fg: Color,
    pub bg: Color,
    pub underline_color: Color,
    pub attrs: Attrs,
}

/// No attribute set.
pub open spec fn no_attrs() -> Attrs {
    Attrs {
        bold: false,
        dim: false,
        italic: false,
        underline: false,
        double_underline: false,
        curly_underline: false,
        dotted_underline: false,
        dashed_underline: false,
        blink: false,
        reverse: false,
        hidden: false,
        strikethrough: false,
    }
}

/// The pen of a freshly reset terminal: default colours, no attributes.
pub open spec fn blank_pen() -> Pen {
    Pen {
        fg: Color::Default,
        bg: Color::Default,
        underline_color: Color::Default,
        attrs: no_attrs(),
    }
}

/// `a` with every underline style cleared.
pub open spec fn without_underlines(a: Attrs) -> Attrs {
    Attrs {
        underline: false,
        double_underline: false,
        curly_underline: false,
        dotted_underline: false,
        dashed_underline: false,
        ..a
    }
}

/// `4:style`: 0 clears the underlines, 1 to 5 add single, double, curly,
/// dotted or dashed underline; other styles change nothing.
pub open spec fn underline_style(a: Attrs, style: u16) -> Attrs {
    if style == 0 {
        without_underlines(a)
    } else if style == 1 {
        Attrs { underline: true, ..a }
    } else if style == 2 {
        Attrs { double_underline: true, ..a }
    } else if style == 3 {
        Attrs { curly_underline: true, ..a }
    } else if style == 4 {
        Attrs { dotted_underline: true, ..a }
    } else if style == 5 {
        Attrs { dashed_underline: true, ..a }
    } else {
        a
    }
}

/// The attributes after one plain attribute code, `None` when the code is
/// not an attribute code (`0`, `4` and the colour codes are handled apart).
pub open spec fn attr_code(a: Attrs, code: u16) -> Option<Attrs> {
    if code == 1 {
        Some(Attrs { bold: true, ..a })
    } else if code == 2 {
        Some(Attrs { dim: true, ..a })
    } else if code == 3 {
        Some(Attrs { italic: true, ..a })
    } else if code == 5 || code == 6 {
        Some(Attrs { blink: true, ..a })
    } else if code == 7 {
        Some(Attrs { reverse: true, ..a })
    } else if code == 8 {
        Some(Attrs { hidden: true, ..a })
    } else if code == 9 {
        Some(Attrs { strikethrough: true, ..a })
    } else if code == 21 {
        Some(Attrs { double_underline: true, ..a })
    } else if code == 22 {
        Some(Attrs { bold: false, dim: false, ..a })
    } else if code == 23 {
        Some(Attrs { italic: false, ..a })
    } else if code == 24 {
        Some(without_underlines(a))
    } else if code == 25 {
        Some(Attrs { blink: false, ..a })
    } else if code == 27 {
        Some(Attrs { reverse: false, ..a })
    } else if code == 28 {
        Some(Attrs { hidden: false, ..a })
    } else if code == 29 {
        Some(Attrs { strikethrough: false, ..a })
    } else {
        None
    }
}

/// The pen after an ANSI colour code: `30`-`37` and `90`-`97` pick a
/// foreground, `40`-`47` and `100`-`107` a background colour; `39`, `49`
/// and `59` restore the default foreground, background and underline
/// colour. `None` for any other code.
pub open spec fn color_code(p: Pen, code: u16) -> Option<Pen> {
    if 30 <= code <= 37 {
        Some(Pen { fg: Color::Named(ansi_color(code - 30)), ..p })
    } else if 90 <= code <= 97 {
        Some(Pen { fg: Color::Named(ansi_color(code - 90 + 8)), ..p })
    } else if 40 <= code <= 47 {
        Some(Pen { bg: Color::Named(ansi_color(code - 40)), ..p })
    } else if 100 <= code <= 107 {
        Some(Pen { bg: Color::Named(ansi_color(code - 100 + 8)), ..p })
    } else if code == 39 {
        Some(Pen { fg: Color::Default, ..p })
    } else if code == 49 {
        Some(Pen { bg: Color::Default, ..p })
    } else if code == 59 {
        Some(Pen { underline_color: Color::Default, ..p })
    } else {
        None
    }
}

/// The pen with colour `c` put where code `code` (`38`, `48` or `58`)
/// sends an extended colour: foreground, background or underline.
pub open spec fn with_extended(p: Pen, code: u16, c: Color) -> Pen {
    if code == 38 {
        Pen { fg: c, ..p }
    } else if code == 48 {
        Pen { bg: c, ..p }
    } else {
        Pen { underline_color: c, ..p }
    }
}

/// The attributes after `4` (single underline) or `4:style`.
pub open spec fn underline_code(a: Attrs, sub: Seq<u16>) -> Attrs {
    if sub.len() > 1 {
        underline_style(a, sub[1])
    } else {
        Attrs { underline: true, ..a }
    }
}

/// The effect of the parameter group at `pos` on the pen, and the position
/// of the next group: `0` resets, the attribute codes set or clear
/// attributes, the ANSI colour codes pick colours, `38`/`48`/`58` read an
/// extended colour from the groups that follow; any other code leaves the
/// pen as it is.
pub open spec fn sgr_step(p: Pen, gs: Seq<Seq<u16>>, pos: int) -> (Pen, int) {
    let sub = gs[pos];
    let code = sub[0];
    if code == 0 {
        (blank_pen(), pos + 1)
    } else if code == 4 {
        (Pen { attrs: underline_code(p.attrs, sub), ..p }, pos + 1)
    } else if attr_code(p.attrs, code) is Some {
        (Pen { attrs: attr_code(p.attrs, code)->0, ..p }, pos + 1)
    } else if color_code(p, code) is Some {
        (color_code(p, code)->0, pos + 1)
    } else if code == 38 || code == 48 || code == 58 {
        (with_extended(p, code, extended_color(gs, pos + 1).0), extended_color(gs, pos + 1).1)
    } else {
        (p, pos + 1)
    }
}

/// The pen after the groups from `pos` on, applied in order.
pub open spec fn sgr_from(p: Pen, gs: Seq<Seq<u16>>, pos: int) -> Pen
    decreases gs.len() - pos,
{
    if pos < 0 || pos >= gs.len() {
        p
    } else {
        let (q, next) = sgr_step(p, gs, pos);
        if pos < next <= gs.len() {
            sgr_from(q, gs, next)
        } else {
            q
        }
    }
}

/// The pen after `CSI groups m`: no parameter at all resets it.
pub open spec fn sgr_result(p: Pen, gs: Seq<Seq<u16>>) -> Pen {
    if gs.len() == 0 {
        blank_pen()
    } else {
        sgr_from(p, gs, 0)
    }
}

/// The parameter groups as sequences.
pub open spec fn group_seqs(groups: Seq<Vec<u16>>) -> Seq<Seq<u16>> {
    groups.map_values(|g: Vec<u16>| g@)
}

/// Each step moves past the group it reads and stays within the groups.
proof fn lemma_sgr_step_advances(p: Pen, gs: Seq<Seq<u16>>, pos: int)
    requires
        0 <= pos < gs.len(),
    ensures
        pos < sgr_step(p, gs, pos).1 <= gs.len(),
{
}

impl Pen {
    /// The pen of a freshly reset terminal.
    pub fn new() -> (p: Pen)
        ensures
            p == blank_pen(),
    {
        Pen {
            fg: Color::Default,
            bg: Color::Default,
            underline_color: Color::Default,
            attrs: Attrs {
                bold: false,
                dim: false,
                italic: false,
                underline: false,
                double_underline: false,
                curly_underline: false,
                dotted_underline: false,
                dashed_underline: false,
                blink: false,
                reverse: false,
                hidden: false,
                strikethrough: false,
            },
        }
    }

    /// Back to default colours and no attributes.
    pub fn reset(&mut self)
        ensures
            *final(self) == blank_pen(),
    {
        *self = Pen::new();
    }
}

/// The attributes with every underline style cleared.
fn clear_underlines(a: Attrs) -> (r: Attrs)
    ensures
        r == without_underlines(a),
{
    Attrs {
        underline: false,
        double_underline: false,
        curly_underline: false,
        dotted_underline: false,
        dashed_underline: false,
        ..a
    }
}

/// One plain attribute code.
fn apply_attr_code(a: Attrs, code: u16) -> (r: Option<Attrs>)
    ensures
        r == attr_code(a, code),
{
    match code {
        1 => Some(Attrs { bold: true, ..a }),
        2 => Some(Attrs { dim: true, ..a }),
        3 => Some(Attrs { italic: true, ..a }),
        5 | 6 => Some(Attrs { blink: true, ..a }),
        7 => Some(Attrs { reverse: true, ..a }),
        8 => Some(Attrs { hidden: true, ..a }),
        9 => Some(Attrs { strikethrough: true, ..a }),
        21 => Some(Attrs { double_underline: true, ..a }),
        22 => Some(Attrs { bold: false, dim: false, ..a }),
        23 => Some(Attrs { italic: false, ..a }),
        24 => Some(clear_underlines(a)),
        25 => Some(Attrs { blink: false, ..a }),
        27 => Some(Attrs { reverse: false, ..a }),
        28 => Some(Attrs { hidden: false, ..a }),
        29 => Some(Attrs { strikethrough: false, ..a }),
        _ => None,
    }
}

/// The attributes after `4` or `4:style`.
fn apply_underline_code(a: Attrs, sub: &Vec<u16>) -> (r: Attrs)
    ensures
        r == underline_code(a, sub@),
{
    if sub.len() > 1 {
        match sub[1] {
            0 => clear_underlines(a),
            1 => Attrs { underline: true, ..a },
            2 => Attrs { double_underline: true, ..a },
            3 => Attrs { curly_underline: true, ..a },
            4 => Attrs { dotted_underline: true, ..a },
            5 => Attrs { dashed_underline: true, ..a },
            _ => a,
        }
    } else {
        Attrs { underline: true, ..a }
    }
}

/// The pen after an ANSI colour code.
fn apply_color_code(p: Pen, code: u16) -> (r: Option<Pen>)
    ensures
        r == color_code(p, code),
{
    if 30 <= code && code <= 37 {
        Some(Pen { fg: Color::Named(ansi_color_of((code - 30) as u8)), ..p })
    } else if 90 <= code && code <= 97 {
        Some(Pen { fg: Color::Named(ansi_color_of((code - 90 + 8) as u8)), ..p })
    } else if 40 <= code && code <= 47 {
        Some(Pen { bg: Color::Named(ansi_color_of((code - 40) as u8)), ..p })
    } else if 100 <= code && code <= 107 {
        Some(Pen { bg: Color::Named(ansi_color_of((code - 100 + 8) as u8)), ..p })
    } else if code == 39 {
        Some(Pen { fg: Color::Default, ..p })
    } else if code == 49 {
        Some(Pen { bg: Color::Default, ..p })
    } else if code == 59 {
        Some(Pen { underline_color: Color::Default, ..p })
    } else {
        None
    }
}

/// The pen with an extended colour put in place.
fn put_extended(p: Pen, code: u16, c: Color) -> (r: Pen)
    ensures
        r == with_extended(p, code, c),
{
    if code == 38 {
        Pen { fg: c, ..p }
    } else if code == 48 {
        Pen { bg: c, ..p }
    } else {
        Pen { underline_color: c, ..p }
    }
}

/// The effect of the group at `pos` and the position of the next group.
fn sgr_step_exec(p: Pen, groups: &Vec<Vec<u16>>, pos: usize) -> (r: (Pen, usize))
    requires
        pos < groups@.len(),
        forall|k: int| 0 <= k < groups@.len() ==> groups@[k]@.len() >= 1,
    ensures
        (r.0, r.1 as int) == sgr_step(p, group_seqs(groups@), pos as int),
{
    let ghost gs = group_seqs(groups@);
    let _n = groups.len();
    let sub = &groups[pos];
    proof {
        assert(gs[pos as int] == sub@);
    }
    let code = sub[0];
    if code == 0 {
        return (Pen::new(), pos + 1);
    }
    if code == 4 {
        let attrs = apply_underline_code(p.attrs, sub);
        return (Pen { attrs, ..p }, pos + 1);
    }
    if let Some(attrs) = apply_attr_code(p.attrs, code) {
        return (Pen { attrs, ..p }, pos + 1);
    }
    if let Some(q) = apply_color_code(p, code) {
        return (q, pos + 1);
    }
    if code == 38 || code == 48 || code == 58 {
        let (c, next) = parse_extended_color(groups, pos + 1);
        (put_extended(p, code, c), next)
    } else {
        (p, pos + 1)
    }
}

/// Apply `CSI groups m` to the pen (the action `SelectGraphicRendition`
/// of `csi_dispatch`). Every group holds at least one value, as the
/// escape-sequence parser delivers them.
pub fn apply_sgr(pen: &mut Pen, groups: &Vec<Vec<u16>>)
    requires
        forall|k: int| 0 <= k < groups@.len() ==> groups@[k]@.len() >= 1,
    ensures
        *final(pen) == sgr_result(*old(pen), group_seqs(groups@)),
{
    let ghost gs = group_seqs(groups@);
    if groups.len() == 0 {
        pen.reset();
        return;
    }
    let mut p = *pen;
    let mut pos: usize = 0;
    while pos < groups.len()
        invariant
            pos <= groups@.len(),
            gs == group_seqs(groups@),
            forall|k: int| 0 <= k < groups@.len() ==> groups@[k]@.len() >= 1,
            sgr_from(p, gs, pos as int) == sgr_from(*old(pen), gs, 0),
        decreases groups@.len() - pos,
    {
        let (q, next) = sgr_step_exec(p, groups, pos);
        proof {
            lemma_sgr_step_advances(p, gs, pos as int);
        }
        p = q;
        pos = next;
    }
    *pen = p;
}

/// `CSI m` and `CSI 0 m` both reset the pen, whatever it held before.
pub proof fn lemma_sgr_reset(p: Pen)
    ensures
        sgr_result(p, Seq::<Seq<u16>>::empty()) == blank_pen(),
        sgr_result(p, seq![seq![0u16]]) == blank_pen(),
{
    let gs = seq![seq![0u16]];
    assert(sgr_step(p, gs, 0) == (blank_pen(), 1int));
    assert(sgr_from(blank_pen(), gs, 1) == blank_pen());
}

/// A `0` among the groups discards everything before it: the pen after
/// the groups is the blank pen with the groups after the `0` applied.
pub proof fn lemma_sgr_reset_discards_earlier(p: Pen, q: Pen, gs: Seq<Seq<u16>>, pos: int)
    requires
        0 <= pos < gs.len(),
        gs[pos] == seq![0u16],
    ensures
        sgr_from(p, gs, pos) == sgr_from(q, gs, pos),
        sgr_from(p, gs, pos) == sgr_from(blank_pen(), gs, pos + 1),
{
    assert(gs[pos][0] == 0);
}

/// The pen after the single code `code` (`CSI code m`).
pub open spec fn after_code(p: Pen, code: u16) -> Pen {
    sgr_result(p, seq![seq![code]])
}

/// Groups that one step reads whole give the pen of that step.
proof fn lemma_one_step(p: Pen, gs: Seq<Seq<u16>>)
    requires
        gs.len() > 0,
        sgr_step(p, gs, 0).1 >= gs.len(),
    ensures
        sgr_result(p, gs) == sgr_step(p, gs, 0).0,
{
    reveal_with_fuel(sgr_from, 2);
}

/// A single code is one step of the pen.
proof fn lemma_single_code(p: Pen, code: u16)
    ensures
        after_code(p, code) == sgr_step(p, seq![seq![code]], 0).0,
{
    reveal_with_fuel(sgr_from, 2);
    lemma_sgr_step_advances(p, seq![seq![code]], 0);
}

/// The ANSI colour codes: 30-37 set the foreground to black, red, green,
/// yellow, blue, magenta, cyan, white; 90-97 to their bright forms;
/// 40-47 and 100-107 set the background to the colour that the code ten
/// lower gives the foreground; 39 and 49 restore the default colours. No
/// colour code touches the attributes or the other colours.
pub proof fn lemma_sgr_colors(p: Pen, i: u16)
    requires
        i < 8,
    ensures
        after_code(p, 30).fg == Color::Named(NamedColor::Black),
        after_code(p, 31).fg == Color::Named(NamedColor::Red),
        after_code(p, 32).fg == Color::Named(NamedColor::Green),
        after_code(p, 33).fg == Color::Named(NamedColor::Yellow),
        after_code(p, 34).fg == Color::Named(NamedColor::Blue),
        after_code(p, 35).fg == Color::Named(NamedColor::Magenta),
        after_code(p, 36).fg == Color::Named(NamedColor::Cyan),
        after_code(p, 37).fg == Color::Named(NamedColor::White),
        after_code(p, 90).fg == Color::Named(NamedColor::BrightBlack),
        after_code(p, 91).fg == Color::Named(NamedColor::BrightRed),
        after_code(p, 92).fg == Color::Named(NamedColor::BrightGreen),
        after_code(p, 93).fg == Color::Named(NamedColor::BrightYellow),
        after_code(p, 94).fg == Color::Named(NamedColor::BrightBlue),
        after_code(p, 95).fg == Color::Named(NamedColor::BrightMagenta),
        after_code(p, 96).fg == Color::Named(NamedColor::BrightCyan),
        after_code(p, 97).fg == Color::Named(NamedColor::BrightWhite),
        after_code(p, (30 + i) as u16) == (Pen { fg: after_code(p, (30 + i) as u16).fg, ..p }),
        after_code(p, (90 + i) as u16) == (Pen { fg: after_code(p, (90 + i) as u16).fg, ..p }),
        after_code(p, (40 + i) as u16) == (Pen { bg: after_code(p, (30 + i) as u16).fg, ..p }),
        after_code(p, (100 + i) as u16) == (Pen { bg: after_code(p, (90 + i) as u16).fg, ..p }),
        after_code(p, 39) == (Pen { fg: Color::Default, ..p }),
        after_code(p, 49) == (Pen { bg: Color::Default, ..p }),
        after_code(p, 59) == (Pen { underline_color: Color::Default, ..p }),
{
    lemma_single_code(p, 30);
    lemma_single_code(p, 31);
    lemma_single_code(p, 32);
    lemma_single_code(p, 33);
    lemma_single_code(p, 34);
    lemma_single_code(p, 35);
    lemma_single_code(p, 36);
    lemma_single_code(p, 37);
    lemma_single_code(p, (30 + i) as u16);
    lemma_single_code(p, (40 + i) as u16);
    lemma_single_code(p, (90 + i) as u16);
    lemma_single_code(p, (100 + i) as u16);
    lemma_single_code(p, 90);
    lemma_single_code(p, 91);
    lemma_single_code(p, 92);
    lemma_single_code(p, 93);
    lemma_single_code(p, 94);
    lemma_single_code(p, 95);
    lemma_single_code(p, 96);
    lemma_single_code(p, 97);
    lemma_single_code(p, 39);
    lemma_single_code(p, 49);
    lemma_single_code(p, 59);
}

/// The attribute codes set (1 bold, 2 dim, 3 italic, 4 underline, 5 and 6
/// blink, 7 reverse, 8 hidden, 9 strikethrough, 21 double underline) or
/// clear (22 bold and dim, 23 italic, 24 every underline, 25 blink, 27
/// reverse, 28 hidden, 29 strikethrough) just their attributes; 0 resets
/// the pen to default colours without attributes.
pub proof fn lemma_sgr_attributes(p: Pen)
    ensures
        after_code(p, 0) == blank_pen(),
        after_code(p, 1) == (Pen { attrs: Attrs { bold: true, ..p.attrs }, ..p }),
        after_code(p, 2) == (Pen { attrs: Attrs { dim: true, ..p.attrs }, ..p }),
        after_code(p, 3) == (Pen { attrs: Attrs { italic: true, ..p.attrs }, ..p }),
        after_code(p, 4) == (Pen { attrs: Attrs { underline: true, ..p.attrs }, ..p }),
        after_code(p, 5) == (Pen { attrs: Attrs { blink: true, ..p.attrs }, ..p }),
        after_code(p, 6) == (Pen { attrs: Attrs { blink: true, ..p.attrs }, ..p }),
        after_code(p, 7) == (Pen { attrs: Attrs { reverse: true, ..p.attrs }, ..p }),
        after_code(p, 8) == (Pen { attrs: Attrs { hidden: true, ..p.attrs }, ..p }),
        after_code(p, 9) == (Pen { attrs: Attrs { strikethrough: true, ..p.attrs }, ..p }),
        after_code(p, 21) == (Pen { attrs: Attrs { double_underline: true, ..p.attrs }, ..p }),
        after_code(p, 22) == (Pen { attrs: Attrs { bold: false, dim: false, ..p.attrs }, ..p }),
        after_code(p, 23) == (Pen { attrs: Attrs { italic: false, ..p.attrs }, ..p }),
        after_code(p, 24) == (Pen {
            attrs: Attrs {
                underline: false,
                double_underline: false,
                curly_underline: false,
                dotted_underline: false,
                dashed_underline: false,
                ..p.attrs
            },
            ..p
        }),
        after_code(p, 25) == (Pen { attrs: Attrs { blink: false, ..p.attrs }, ..p }),
        after_code(p, 27) == (Pen { attrs: Attrs { reverse: false, ..p.attrs }, ..p }),
        after_code(p, 28) == (Pen { attrs: Attrs { hidden: false, ..p.attrs }, ..p }),
        after_code(p, 29) == (Pen { attrs: Attrs { strikethrough: false, ..p.attrs }, ..p }),
        blank_pen().fg == Color::Default && blank_pen().bg == Color::Default
            && blank_pen().underline_color == Color::Default,
        !blank_pen().attrs.bold && !blank_pen().attrs.underline && !blank_pen().attrs.reverse
            && !blank_pen().attrs.italic && !blank_pen().attrs.blink,
{
    lemma_single_code(p, 0);
    lemma_single_code(p, 1);
    lemma_single_code(p, 2);
    lemma_single_code(p, 3);
    lemma_single_code(p, 4);
    lemma_single_code(p, 5);
    lemma_single_code(p, 6);
    lemma_single_code(p, 7);
    lemma_single_code(p, 8);
    lemma_single_code(p, 9);
    lemma_single_code(p, 21);
    lemma_single_code(p, 22);
    lemma_single_code(p, 23);
    lemma_single_code(p, 24);
    lemma_single_code(p, 25);
    lemma_single_code(p, 27);
    lemma_single_code(p, 28);
    lemma_single_code(p, 29);
}

/// Extended colours: `38;5;n`, `48;5;n` and `58;5;n` pick palette entry
/// `n` for the foreground, background and underline colour; `38;2;r;g;b`
/// (and the others) a direct colour with those channels.
pub proof fn lemma_sgr_extended(p: Pen, n: u8, r: u8, g: u8, b: u8)
    ensures
        sgr_result(p, seq![seq![38u16], seq![5u16], seq![n as u16]]) == (Pen {
            fg: Color::Indexed(n),
            ..p
        }),
        sgr_result(p, seq![seq![48u16], seq![5u16], seq![n as u16]]) == (Pen {
            bg: Color::Indexed(n),
            ..p
        }),
        sgr_result(p, seq![seq![58u16], seq![5u16], seq![n as u16]]) == (Pen {
            underline_color: Color::Indexed(n),
            ..p
        }),
        sgr_result(p, seq![seq![38u16], seq![2u16], seq![r as u16], seq![g as u16], seq![b as u16]])
            == (Pen { fg: Color::Rgb(r, g, b), ..p }),
        sgr_result(p, seq![seq![48u16], seq![2u16], seq![r as u16], seq![g as u16], seq![b as u16]])
            == (Pen { bg: Color::Rgb(r, g, b), ..p }),
{
    assert((n as u16) as u8 == n) by (bit_vector);
    assert((r as u16) as u8 == r) by (bit_vector);
    assert((g as u16) as u8 == g) by (bit_vector);
    assert((b as u16) as u8 == b) by (bit_vector);
    let i38 = seq![seq![38u16], seq![5u16], seq![n as u16]];
    let i48 = seq![seq![48u16], seq![5u16], seq![n as u16]];
    let i58 = seq![seq![58u16], seq![5u16], seq![n as u16]];
    let d38 = seq![seq![38u16], seq![2u16], seq![r as u16], seq![g as u16], seq![b as u16]];
    let d48 = seq![seq![48u16], seq![2u16], seq![r as u16], seq![g as u16], seq![b as u16]];
    assert(extended_color(i38, 1) == (Color::Indexed(n), 3int));
    assert(extended_color(i48, 1) == (Color::Indexed(n), 3int));
    assert(extended_color(i58, 1) == (Color::Indexed(n), 3int));
    assert(channel_at(d38, 2) == r && channel_at(d38, 3) == g && channel_at(d38, 4) == b);
    assert(channel_at(d48, 2) == r && channel_at(d48, 3) == g && channel_at(d48, 4) == b);
    assert(d38[1] == seq![2u16] && d48[1] == seq![2u16]);
    assert(d38[1] != seq![5u16]) by {
        assert(d38[1][0] != seq![5u16][0]);
    }
    assert(d48[1] != seq![5u16]) by {
        assert(d48[1][0] != seq![5u16][0]);
    }
    assert(extended_color(d38, 1) == (Color::Rgb(r, g, b), 5int));
    assert(extended_color(d48, 1) == (Color::Rgb(r, g, b), 5int));
    lemma_one_step(p, i38);
    lemma_one_step(p, i48);
    lemma_one_step(p, i58);
    lemma_one_step(p, d38);
    lemma_one_step(p, d48);
}

} // verus!
