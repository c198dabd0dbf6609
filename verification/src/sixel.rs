//! Sixel Graphics decoding.
//!
//! Sixel format: each character in the range `?` (0x3F) to `~` (0x7E)
//! encodes 6 vertical pixels. Color is set via `#<register>` commands.
//! `$` returns to the beginning of the current row of sixels.
//! `-` moves to the next row of sixels (6 pixels down).
//! `!<count><char>` is a repeat introducer.
//!
//! The decoder makes two passes over the data: the first one finds the
//! image size, the second one paints the pixels. Both passes read the data
//! as the same sequence of tokens (`sixel_token`).

use std::collections::HashMap;
use vstd::prelude::*;

use crate::image_store::{
    DecodedImage, ImagePlacement, ImageStore, ImageStoreView, ImageView, TerminalImage,
};

verus! {

broadcast use vstd::std_specs::hash::group_hash_axioms;

/// Sixel color register.
#[derive(Debug, Clone, Copy)]
pub struct SixelColor {
    pub r: u8,
    pub g: u8,
    pub b: u8,
}

/// One unit of sixel data.
#[derive(Debug, Clone, Copy)]
pub enum SixelToken {
    /// `$`: back to the start of the current sixel row.
    LineStart,
    /// `-`: down to the next sixel row.
    NextRow,
    /// `#<register>[;<type>;<p1>;<p2>;<p3>]`: select (and maybe define) a color.
    Color { register: u16, definition: Option<SixelColor> },
    /// `!<count><char>`: `count` copies of one sixel column.
    Repeat { count: u32, bits: u8 },
    /// A single sixel column.
    Column { bits: u8 },
    /// Anything else (also a repeat introducer without a sixel character).
    Skip,
}

pub open spec fn is_digit(b: u8) -> bool {
    0x30 <= b <= 0x39
}

pub open spec fn is_sixel_char(b: u8) -> bool {
    0x3F <= b <= 0x7E
}

/// End of the run of decimal digits that starts at `i`.
pub open spec fn digits_end(data: Seq<u8>, i: int) -> int
    decreases data.len() - i,
{
    if 0 <= i < data.len() && is_digit(data[i]) {
        digits_end(data, i + 1)
    } else {
        i
    }
}

/// Value of the decimal digits `data[i..j]`, as an unbounded number.
pub open spec fn digits_value(data: Seq<u8>, i: int, j: int) -> int
    decreases j - i,
{
    if i < j {
        digits_value(data, i, j - 1) * 10 + (data[j - 1] - 0x30)
    } else {
        0
    }
}

/// Scan the color parameters `[0-9;]*` from `k`. Returns where the scan
/// stopped, the completed parameters, and whether every number fit in `u16`.
pub open spec fn param_scan(
    data: Seq<u8>,
    k: int,
    num: int,
    has_num: bool,
    params: Seq<u16>,
    ok: bool,
) -> (int, Seq<u16>, bool)
    decreases data.len() - k,
{
    if 0 <= k < data.len() && (is_digit(data[k]) || data[k] == 0x3B) {
        if data[k] == 0x3B {
            param_scan(data, k + 1, 0, false, params.push(num as u16), ok)
        } else {
            let n = num * 10 + (data[k] - 0x30);
            param_scan(data, k + 1, n, true, params, ok && n <= u16::MAX)
        }
    } else {
        (k, if has_num { params.push(num as u16) } else { params }, ok)
    }
}

/// A percentage (capped at 100) scaled to a color channel.
pub open spec fn percent_channel(p: u16) -> u8 {
    ((if p > 100 { 100 } else { p as int }) * 255 / 100) as u8
}

/// `p - q`, moved into `[0, 1080)` by one turn when it leaves `[0, 1080]`
/// (units of 1/1080 of a turn).
pub open spec fn hue_wrap(t: int) -> int {
    if t < 0 {
        t + 1080
    } else if t > 1080 {
        t - 1080
    } else {
        t
    }
}

/// Lightness of one channel, scaled by 1_800_000: `p` and `q` are scaled by
/// 10_000 and the hue offset `t` is in units of 1/1080 of a turn.
pub open spec fn hls_channel_value(p: int, q: int, t: int) -> int {
    if t < 180 {
        180 * p + (q - p) * t
    } else if t < 540 {
        180 * q
    } else if t < 720 {
        180 * p + (q - p) * (720 - t)
    } else {
        180 * p
    }
}

/// Round `v / 1_800_000 * 255` to the nearest integer (halves away from zero)
/// and clamp it into a channel.
pub open spec fn hls_channel(v: int) -> u8 {
    let r = (2 * v * 255 + 1_800_000) / 3_600_000;
    (if r > 255 {
        255
    } else if r < 0 {
        0
    } else {
        r
    }) as u8
}

/// HLS (Hue 0-360, Lightness 0-100, Saturation 0-100) to RGB, computed
/// exactly over the rationals.
pub open spec fn hls_rgb(h: u16, l: u16, s: u16) -> (u8, u8, u8) {
    let hh = (h % 360) as int;
    let ll = if l > 100 { 100 } else { l as int };
    let ss = if s > 100 { 100 } else { s as int };
    if ss == 0 {
        let v = (ll * 255 / 100) as u8;
        (v, v, v)
    } else {
        let q = if 2 * ll < 100 {
            ll * (100 + ss)
        } else {
            100 * ll + 100 * ss - ll * ss
        };
        let p = 200 * ll - q;
        let t = 3 * hh;
        (
            hls_channel(hls_channel_value(p, q, hue_wrap(t + 360))),
            hls_channel(hls_channel_value(p, q, hue_wrap(t))),
            hls_channel(hls_channel_value(p, q, hue_wrap(t - 360))),
        )
    }
}

/// The color that a definition's parameters describe, if there are enough of them.
pub open spec fn color_definition(params: Seq<u16>) -> Option<SixelColor> {
    if params.len() >= 4 {
        let (r, g, b) = if params[0] == 2 {
            (percent_channel(params[1]), percent_channel(params[2]), percent_channel(params[3]))
        } else if params[0] == 1 {
            hls_rgb(params[1], params[2], params[3])
        } else {
            (0u8, 0u8, 0u8)
        };
        Some(SixelColor { r, g, b })
    } else {
        None
    }
}

/// The token that starts at `i` (which must be inside the data), where the
/// next token starts, and whether the token's numbers fit their types.
pub open spec fn sixel_token(data: Seq<u8>, i: int) -> (SixelToken, int, bool) {
    let b = data[i];
    if b == 0x24 {
        (SixelToken::LineStart, i + 1, true)
    } else if b == 0x2D {
        (SixelToken::NextRow, i + 1, true)
    } else if b == 0x23 {
        let e = digits_end(data, i + 1);
        let reg = digits_value(data, i + 1, e);
        if e < data.len() && data[e] == 0x3B {
            let (end, params, ok) = param_scan(data, e + 1, 0, false, Seq::empty(), true);
            (
                SixelToken::Color { register: reg as u16, definition: color_definition(params) },
                end,
                reg <= u16::MAX && ok,
            )
        } else {
            (SixelToken::Color { register: reg as u16, definition: None }, e, reg <= u16::MAX)
        }
    } else if b == 0x21 {
        let e = digits_end(data, i + 1);
        let count = digits_value(data, i + 1, e);
        if e < data.len() && is_sixel_char(data[e]) {
            (SixelToken::Repeat { count: count as u32, bits: (data[e] - 0x3F) as u8 }, e + 1, count <= u32::MAX)
        } else {
            (SixelToken::Skip, if e < data.len() { e + 1 } else { e }, count <= u32::MAX)
        }
    } else if is_sixel_char(b) {
        (SixelToken::Column { bits: (b - 0x3F) as u8 }, i + 1, true)
    } else {
        (SixelToken::Skip, i + 1, true)
    }
}

/// Cursor and extent of the image while it is laid out, in pixels.
pub struct SixelLayout {
    pub x: int,
    pub y: int,
    pub max_x: int,
    pub max_y: int,
}

pub open spec fn layout_origin() -> SixelLayout {
    SixelLayout { x: 0, y: 0, max_x: 0, max_y: 0 }
}

/// Where the cursor is after drawing through `new_x`, and how far the image extends.
pub open spec fn layout_drawn(d: SixelLayout, new_x: int) -> SixelLayout {
    SixelLayout {
        x: new_x,
        y: d.y,
        max_x: if new_x > d.max_x { new_x } else { d.max_x },
        max_y: if d.y + 6 > d.max_y { d.y + 6 } else { d.max_y },
    }
}

/// The layout after one token.
pub open spec fn layout_step(d: SixelLayout, tok: SixelToken) -> SixelLayout {
    match tok {
        SixelToken::LineStart => SixelLayout { x: 0, ..d },
        SixelToken::NextRow => SixelLayout { x: 0, y: d.y + 6, ..d },
        SixelToken::Repeat { count, bits } => layout_drawn(d, d.x + count),
        SixelToken::Column { bits } => layout_drawn(d, d.x + 1),
        _ => d,
    }
}

/// Whether the layout step stays within `u32`.
pub open spec fn layout_step_fits(d: SixelLayout, tok: SixelToken) -> bool {
    match tok {
        SixelToken::NextRow => d.y + 6 <= u32::MAX,
        SixelToken::Repeat { count, bits } => d.x + count <= u32::MAX && d.y + 6 <= u32::MAX,
        SixelToken::Column { bits } => d.x + 1 <= u32::MAX && d.y + 6 <= u32::MAX,
        _ => true,
    }
}

/// The layout after all tokens from `i` on.
pub open spec fn layout_from(data: Seq<u8>, i: int, d: SixelLayout) -> SixelLayout
    decreases data.len() - i,
{
    if 0 <= i < data.len() {
        let (tok, next, ok) = sixel_token(data, i);
        if i < next <= data.len() {
            layout_from(data, next, layout_step(d, tok))
        } else {
            d
        }
    } else {
        d
    }
}

/// Whether every number and every cursor move from `i` on fits its type.
pub open spec fn fits_from(data: Seq<u8>, i: int, d: SixelLayout) -> bool
    decreases data.len() - i,
{
    if 0 <= i < data.len() {
        let (tok, next, ok) = sixel_token(data, i);
        if i < next <= data.len() {
            ok && layout_step_fits(d, tok) && fits_from(data, next, layout_step(d, tok))
        } else {
            true
        }
    } else {
        true
    }
}

/// The size of the image that the data describes.
pub open spec fn sixel_extent(data: Seq<u8>) -> SixelLayout {
    layout_from(data, 0, layout_origin())
}

/// Whether decoding stays within machine integers: the inputs on which the
/// decoder's arithmetic does not overflow.
pub open spec fn sixel_fits(data: Seq<u8>) -> bool {
    &&& fits_from(data, 0, layout_origin())
    &&& sixel_extent(data).max_x * sixel_extent(data).max_y * 4 <= u32::MAX
}

/// Whether bit `bit` of a sixel value is set.
pub open spec fn sixel_bit(bits: u8, bit: u32) -> bool {
    bits & (1u8 << bit) != 0
}

/// Paint the RGBA pixel at byte offset `off` opaquely in color `c`.
pub open spec fn set_pixel(pix: Seq<u8>, off: int, c: SixelColor) -> Seq<u8> {
    pix.update(off, c.r).update(off + 1, c.g).update(off + 2, c.b).update(off + 3, 255)
}

/// Paint the bits `bit..6` of one sixel column at `(x, y)`.
pub open spec fn paint_bits(
    pix: Seq<u8>,
    w: u32,
    h: u32,
    x: u32,
    y: u32,
    bits: u8,
    c: SixelColor,
    bit: u32,
) -> Seq<u8>
    decreases 6 - bit,
{
    if bit >= 6 {
        pix
    } else {
        let py = y + bit;
        let off = (py * w + x) * 4;
        let painted = if sixel_bit(bits, bit) && x < w && py < h && off + 3 < pix.len() {
            set_pixel(pix, off, c)
        } else {
            pix
        };
        paint_bits(painted, w, h, x, y, bits, c, (bit + 1) as u32)
    }
}

/// Paint one sixel column at `(x, y)`.
pub open spec fn paint_column(
    pix: Seq<u8>,
    w: u32,
    h: u32,
    x: u32,
    y: u32,
    bits: u8,
    c: SixelColor,
) -> Seq<u8> {
    paint_bits(pix, w, h, x, y, bits, c, 0)
}

/// Paint copies `rep..count` of a sixel column starting at column `x`.
pub open spec fn paint_run(
    pix: Seq<u8>,
    w: u32,
    h: u32,
    x: u32,
    y: u32,
    bits: u8,
    c: SixelColor,
    count: u32,
    rep: u32,
) -> Seq<u8>
    decreases count - rep,
{
    if rep >= count {
        pix
    } else {
        paint_run(
            paint_column(pix, w, h, (x + rep) as u32, y, bits, c),
            w,
            h,
            x,
            y,
            bits,
            c,
            count,
            (rep + 1) as u32,
        )
    }
}

/// One of the VGA 16 colors that the palette starts with.
pub open spec fn vga16_color(i: int) -> SixelColor {
    let (r, g, b) = if i == 0 {
        (0u8, 0u8, 0u8)
    } else if i == 1 {
        (0, 0, 170)
    } else if i == 2 {
        (170, 0, 0)
    } else if i == 3 {
        (0, 170, 0)
    } else if i == 4 {
        (170, 0, 170)
    } else if i == 5 {
        (0, 170, 170)
    } else if i == 6 {
        (170, 170, 0)
    } else if i == 7 {
        (170, 170, 170)
    } else if i == 8 {
        (85, 85, 85)
    } else if i == 9 {
        (85, 85, 255)
    } else if i == 10 {
        (255, 85, 85)
    } else if i == 11 {
        (85, 255, 85)
    } else if i == 12 {
        (255, 85, 255)
    } else if i == 13 {
        (85, 255, 255)
    } else if i == 14 {
        (255, 255, 85)
    } else {
        (255, 255, 255)
    };
    SixelColor { r, g, b }
}

/// The palette before any color is defined: registers 0..16 hold the VGA colors.
pub open spec fn default_palette() -> Map<u16, SixelColor> {
    Map::new(|k: u16| k < 16, |k: u16| vga16_color(k as int))
}

/// The color that an undefined register paints with.
pub open spec fn white() -> SixelColor {
    SixelColor { r: 255, g: 255, b: 255 }
}

/// The color of register `reg`.
pub open spec fn register_color(palette: Map<u16, SixelColor>, reg: u16) -> SixelColor {
    if palette.contains_key(reg) {
        palette[reg]
    } else {
        white()
    }
}

/// State of the painting pass.
pub struct SixelPaint {
    pub layout: SixelLayout,
    pub register: u16,
    pub palette: Map<u16, SixelColor>,
    pub pixels: Seq<u8>,
}

/// The painting state after one token, on a `w` by `h` canvas.
pub open spec fn paint_step(st: SixelPaint, tok: SixelToken, w: u32, h: u32) -> SixelPaint {
    let c = register_color(st.palette, st.register);
    let layout = layout_step(st.layout, tok);
    match tok {
        SixelToken::Color { register, definition } => SixelPaint {
            layout,
            register,
            palette: match definition {
                Some(def) => st.palette.insert(register, def),
                None => st.palette,
            },
            ..st
        },
        SixelToken::Repeat { count, bits } => SixelPaint {
            layout,
            pixels: paint_run(
                st.pixels,
                w,
                h,
                st.layout.x as u32,
                st.layout.y as u32,
                bits,
                c,
                count,
                0,
            ),
            ..st
        },
        SixelToken::Column { bits } => SixelPaint {
            layout,
            pixels: paint_column(st.pixels, w, h, st.layout.x as u32, st.layout.y as u32, bits, c),
            ..st
        },
        _ => SixelPaint { layout, ..st },
    }
}

/// The painting state after all tokens from `i` on.
pub open spec fn paint_from(data: Seq<u8>, i: int, st: SixelPaint, w: u32, h: u32) -> SixelPaint
    decreases data.len() - i,
{
    if 0 <= i < data.len() {
        let (tok, next, ok) = sixel_token(data, i);
        if i < next <= data.len() {
            paint_from(data, next, paint_step(st, tok, w, h), w, h)
        } else {
            st
        }
    } else {
        st
    }
}

/// A blank (fully transparent) `w` by `h` RGBA canvas.
pub open spec fn blank_canvas(w: int, h: int) -> Seq<u8> {
    Seq::new((w * h * 4) as nat, |k: int| 0u8)
}

/// What a sixel data string decodes to: RGBA pixels, width and height;
/// nothing when no sixel column is drawn.
pub open spec fn sixel_decoding(data: Seq<u8>) -> Option<(Seq<u8>, u32, u32)> {
    let ext = sixel_extent(data);
    if ext.max_x == 0 || ext.max_y == 0 {
        None
    } else {
        let start = SixelPaint {
            layout: layout_origin(),
            register: 0,
            palette: default_palette(),
            pixels: blank_canvas(ext.max_x, ext.max_y),
        };
        Some(
            (
                paint_from(data, 0, start, ext.max_x as u32, ext.max_y as u32).pixels,
                ext.max_x as u32,
                ext.max_y as u32,
            ),
        )
    }
}

// ---------------------------------------------------------------------------
// Lemmas
// ---------------------------------------------------------------------------

pub proof fn lemma_digits_end_bounds(data: Seq<u8>, i: int)
    requires
        0 <= i,
    ensures
        i <= digits_end(data, i),
        digits_end(data, i) <= data.len() || digits_end(data, i) == i,
        digits_end(data, i) < data.len() ==> !is_digit(data[digits_end(data, i)]),
        forall|k: int| i <= k < digits_end(data, i) ==> is_digit(#[trigger] data[k]),
    decreases data.len() - i,
{
    if 0 <= i < data.len() && is_digit(data[i]) {
        lemma_digits_end_bounds(data, i + 1);
    }
}

pub proof fn lemma_digits_value_monotone(data: Seq<u8>, i: int, j: int, k: int)
    requires
        i <= j <= k,
        forall|m: int| i <= m < k ==> is_digit(#[trigger] data[m]),
    ensures
        0 <= digits_value(data, i, j) <= digits_value(data, i, k),
    decreases k - j,
{
    if j < k {
        lemma_digits_value_monotone(data, i, j, k - 1);
        assert(is_digit(data[k - 1]));
        if j <= k - 1 {
            assert(digits_value(data, i, k - 1) >= 0);
        }
    } else {
        lemma_digits_value_nonneg(data, i, j);
    }
}

pub proof fn lemma_digits_value_nonneg(data: Seq<u8>, i: int, j: int)
    requires
        forall|m: int| i <= m < j ==> is_digit(#[trigger] data[m]),
    ensures
        0 <= digits_value(data, i, j),
    decreases j - i,
{
    if i < j {
        lemma_digits_value_nonneg(data, i, j - 1);
        assert(is_digit(data[j - 1]));
    }
}

proof fn lemma_param_scan_fails(
    data: Seq<u8>,
    k: int,
    num: int,
    has_num: bool,
    params: Seq<u16>,
)
    ensures
        !param_scan(data, k, num, has_num, params, false).2,
    decreases data.len() - k,
{
    if 0 <= k < data.len() && (is_digit(data[k]) || data[k] == 0x3B) {
        if data[k] == 0x3B {
            lemma_param_scan_fails(data, k + 1, 0, false, params.push(num as u16));
        } else {
            let n = num * 10 + (data[k] - 0x30);
            lemma_param_scan_fails(data, k + 1, n, true, params);
        }
    }
}

proof fn lemma_param_scan_end(
    data: Seq<u8>,
    k: int,
    num: int,
    has_num: bool,
    params: Seq<u16>,
    ok: bool,
)
    requires
        0 <= k,
    ensures
        k <= param_scan(data, k, num, has_num, params, ok).0,
        param_scan(data, k, num, has_num, params, ok).0 <= data.len() || param_scan(
            data,
            k,
            num,
            has_num,
            params,
            ok,
        ).0 == k,
    decreases data.len() - k,
{
    if 0 <= k < data.len() && (is_digit(data[k]) || data[k] == 0x3B) {
        if data[k] == 0x3B {
            lemma_param_scan_end(data, k + 1, 0, false, params.push(num as u16), ok);
        } else {
            let n = num * 10 + (data[k] - 0x30);
            lemma_param_scan_end(data, k + 1, n, true, params, ok && n <= u16::MAX);
        }
    }
}

proof fn lemma_token_advances(data: Seq<u8>, i: int)
    requires
        0 <= i < data.len(),
    ensures
        i < sixel_token(data, i).1 <= data.len(),
{
    lemma_digits_end_bounds(data, i + 1);
    let e = digits_end(data, i + 1);
    if data[i] == 0x23 && e < data.len() && data[e] == 0x3B {
        lemma_param_scan_end(data, e + 1, 0, false, Seq::empty(), true);
    }
}

proof fn lemma_layout_grows(data: Seq<u8>, i: int, d: SixelLayout)
    ensures
        layout_from(data, i, d).max_x >= d.max_x,
        layout_from(data, i, d).max_y >= d.max_y,
    decreases data.len() - i,
{
    if 0 <= i < data.len() {
        let (tok, next, ok) = sixel_token(data, i);
        if i < next <= data.len() {
            lemma_layout_grows(data, next, layout_step(d, tok));
        }
    }
}

/// Rows only advance by whole sixels (six pixels), so the image's height
/// is a multiple of 6.
proof fn lemma_layout_sixel_rows(data: Seq<u8>, i: int, d: SixelLayout)
    requires
        d.y >= 0,
        d.y % 6 == 0,
        d.max_y % 6 == 0,
    ensures
        layout_from(data, i, d).max_y % 6 == 0,
    decreases data.len() - i,
{
    if 0 <= i < data.len() {
        let (tok, next, ok) = sixel_token(data, i);
        if i < next <= data.len() {
            lemma_layout_sixel_rows(data, next, layout_step(d, tok));
        }
    }
}

/// Without a sixel data byte nothing is drawn, so the width stays 0.
proof fn lemma_layout_without_sixel_bytes(data: Seq<u8>, i: int, d: SixelLayout)
    requires
        d.max_x == 0,
        forall|k: int| 0 <= k < data.len() ==> !is_sixel_char(#[trigger] data[k]),
    ensures
        layout_from(data, i, d).max_x == 0,
    decreases data.len() - i,
{
    if 0 <= i < data.len() {
        let (tok, next, ok) = sixel_token(data, i);
        if i < next <= data.len() {
            assert(!is_sixel_char(data[i]));
            let e = digits_end(data, i + 1);
            lemma_digits_end_bounds(data, i + 1);
            if e < data.len() {
                assert(!is_sixel_char(data[e]));
            }
            lemma_layout_without_sixel_bytes(data, next, layout_step(d, tok));
        }
    }
}

/// Every pixel of an RGBA canvas is either transparent black or opaque.
pub open spec fn canvas_ok(pix: Seq<u8>) -> bool {
    &&& pix.len() % 4 == 0
    &&& forall|k: int|
        0 <= k < pix.len() / 4 ==> {
            ||| #[trigger] pix[4 * k + 3] == 255
            ||| (pix[4 * k] == 0 && pix[4 * k + 1] == 0 && pix[4 * k + 2] == 0 && pix[4 * k + 3]
                == 0)
        }
}

proof fn lemma_set_pixel_ok(pix: Seq<u8>, m: int, c: SixelColor)
    requires
        canvas_ok(pix),
        0 <= m,
        4 * m + 3 < pix.len(),
    ensures
        canvas_ok(set_pixel(pix, 4 * m, c)),
{
    let out = set_pixel(pix, 4 * m, c);
    assert forall|k: int| 0 <= k < out.len() / 4 implies {
        ||| #[trigger] out[4 * k + 3] == 255
        ||| (out[4 * k] == 0 && out[4 * k + 1] == 0 && out[4 * k + 2] == 0 && out[4 * k + 3] == 0)
    } by {
        if k != m {
            assert(out[4 * k] == pix[4 * k]);
            assert(out[4 * k + 1] == pix[4 * k + 1]);
            assert(out[4 * k + 2] == pix[4 * k + 2]);
            assert(out[4 * k + 3] == pix[4 * k + 3]);
        }
    }
}

proof fn lemma_paint_bits_ok(
    pix: Seq<u8>,
    w: u32,
    h: u32,
    x: u32,
    y: u32,
    bits: u8,
    c: SixelColor,
    bit: u32,
)
    requires
        canvas_ok(pix),
    ensures
        canvas_ok(paint_bits(pix, w, h, x, y, bits, c, bit)),
    decreases 6 - bit,
{
    if bit < 6 {
        let py = y + bit;
        let m = py * w + x;
        let off = (py * w + x) * 4;
        assert(m >= 0) by (nonlinear_arith)
            requires
                py >= 0,
                w >= 0,
                x >= 0,
                m == py * w + x,
        ;
        assert(off == 4 * m);
        let painted = if sixel_bit(bits, bit) && x < w && py < h && off + 3 < pix.len() {
            lemma_set_pixel_ok(pix, m, c);
            set_pixel(pix, off, c)
        } else {
            pix
        };
        lemma_paint_bits_ok(painted, w, h, x, y, bits, c, (bit + 1) as u32);
    }
}

proof fn lemma_paint_run_ok(
    pix: Seq<u8>,
    w: u32,
    h: u32,
    x: u32,
    y: u32,
    bits: u8,
    c: SixelColor,
    count: u32,
    rep: u32,
)
    requires
        canvas_ok(pix),
    ensures
        canvas_ok(paint_run(pix, w, h, x, y, bits, c, count, rep)),
    decreases count - rep,
{
    if rep < count {
        lemma_paint_bits_ok(pix, w, h, (x + rep) as u32, y, bits, c, 0);
        lemma_paint_run_ok(
            paint_column(pix, w, h, (x + rep) as u32, y, bits, c),
            w,
            h,
            x,
            y,
            bits,
            c,
            count,
            (rep + 1) as u32,
        );
    }
}

proof fn lemma_paint_from_ok(data: Seq<u8>, i: int, st: SixelPaint, w: u32, h: u32)
    requires
        canvas_ok(st.pixels),
    ensures
        canvas_ok(paint_from(data, i, st, w, h).pixels),
    decreases data.len() - i,
{
    if 0 <= i < data.len() {
        let (tok, next, ok) = sixel_token(data, i);
        if i < next <= data.len() {
            let c = register_color(st.palette, st.register);
            match tok {
                SixelToken::Repeat { count, bits } => {
                    lemma_paint_run_ok(
                        st.pixels,
                        w,
                        h,
                        st.layout.x as u32,
                        st.layout.y as u32,
                        bits,
                        c,
                        count,
                        0,
                    );
                },
                SixelToken::Column { bits } => {
                    lemma_paint_bits_ok(
                        st.pixels,
                        w,
                        h,
                        st.layout.x as u32,
                        st.layout.y as u32,
                        bits,
                        c,
                        0,
                    );
                },
                _ => {},
            }
            lemma_paint_from_ok(data, next, paint_step(st, tok, w, h), w, h);
        }
    }
}

proof fn lemma_paint_bits_len(
    pix: Seq<u8>,
    w: u32,
    h: u32,
    x: u32,
    y: u32,
    bits: u8,
    c: SixelColor,
    bit: u32,
)
    ensures
        paint_bits(pix, w, h, x, y, bits, c, bit).len() == pix.len(),
    decreases 6 - bit,
{
    if bit < 6 {
        let py = y + bit;
        let off = (py * w + x) * 4;
        let painted = if sixel_bit(bits, bit) && x < w && py < h && off + 3 < pix.len() {
            set_pixel(pix, off, c)
        } else {
            pix
        };
        lemma_paint_bits_len(painted, w, h, x, y, bits, c, (bit + 1) as u32);
    }
}

proof fn lemma_paint_run_len(
    pix: Seq<u8>,
    w: u32,
    h: u32,
    x: u32,
    y: u32,
    bits: u8,
    c: SixelColor,
    count: u32,
    rep: u32,
)
    ensures
        paint_run(pix, w, h, x, y, bits, c, count, rep).len() == pix.len(),
    decreases count - rep,
{
    if rep < count {
        lemma_paint_bits_len(pix, w, h, (x + rep) as u32, y, bits, c, 0);
        lemma_paint_run_len(
            paint_column(pix, w, h, (x + rep) as u32, y, bits, c),
            w,
            h,
            x,
            y,
            bits,
            c,
            count,
            (rep + 1) as u32,
        );
    }
}

/// The layout part of the painting pass is the layout pass.
proof fn lemma_paint_layout(data: Seq<u8>, i: int, st: SixelPaint, w: u32, h: u32)
    ensures
        paint_from(data, i, st, w, h).layout == layout_from(data, i, st.layout),
        paint_from(data, i, st, w, h).pixels.len() == st.pixels.len(),
    decreases data.len() - i,
{
    if 0 <= i < data.len() {
        let (tok, next, ok) = sixel_token(data, i);
        if i < next <= data.len() {
            let c = register_color(st.palette, st.register);
            match tok {
                SixelToken::Repeat { count, bits } => {
                    lemma_paint_run_len(
                        st.pixels,
                        w,
                        h,
                        st.layout.x as u32,
                        st.layout.y as u32,
                        bits,
                        c,
                        count,
                        0,
                    );
                },
                SixelToken::Column { bits } => {
                    lemma_paint_bits_len(
                        st.pixels,
                        w,
                        h,
                        st.layout.x as u32,
                        st.layout.y as u32,
                        bits,
                        c,
                        0,
                    );
                },
                _ => {},
            }
            lemma_paint_layout(data, next, paint_step(st, tok, w, h), w, h);
        }
    }
}

/// Decoded output always has four bytes for every pixel.
pub proof fn lemma_sixel_decoding_size(data: Seq<u8>)
    requires
        sixel_fits(data),
    ensures
        sixel_decoding(data) matches Some((pix, w, h)) ==> {
            &&& w > 0
            &&& h > 0
            &&& pix.len() == (w as int) * (h as int) * 4
        },
{
    let ext = sixel_extent(data);
    if ext.max_x != 0 && ext.max_y != 0 {
        lemma_extent_nonneg(data);
        let start = SixelPaint {
            layout: layout_origin(),
            register: 0,
            palette: default_palette(),
            pixels: blank_canvas(ext.max_x, ext.max_y),
        };
        lemma_paint_layout(data, 0, start, ext.max_x as u32, ext.max_y as u32);
        assert(ext.max_x <= u32::MAX && ext.max_y <= u32::MAX) by (nonlinear_arith)
            requires
                ext.max_x >= 1,
                ext.max_y >= 1,
                ext.max_x * ext.max_y * 4 <= u32::MAX,
        ;
    }
}

proof fn lemma_extent_nonneg(data: Seq<u8>)
    ensures
        sixel_extent(data).max_x >= 0,
        sixel_extent(data).max_y >= 0,
{
    lemma_layout_grows(data, 0, layout_origin());
}

// ---------------------------------------------------------------------------
// Decoding
// ---------------------------------------------------------------------------

/// Read the run of decimal digits that starts at `start`.
fn scan_number(data: &[u8], start: usize) -> (r: (u32, usize))
    requires
        start <= data@.len(),
        digits_value(data@, start as int, digits_end(data@, start as int)) <= u32::MAX,
    ensures
        r.1 == digits_end(data@, start as int),
        r.0 == digits_value(data@, start as int, r.1 as int),
{
    let ghost end = digits_end(data@, start as int);
    proof {
        lemma_digits_end_bounds(data@, start as int);
    }
    let mut value: u32 = 0;
    let mut i = start;
    while i < data.len() && data[i] >= 0x30 && data[i] <= 0x39
        invariant
            start <= i <= data@.len(),
            end == digits_end(data@, start as int),
            digits_end(data@, i as int) == end,
            i <= end,
            forall|k: int| start <= k < end ==> is_digit(#[trigger] data@[k]),
            digits_value(data@, start as int, end) <= u32::MAX,
            value == digits_value(data@, start as int, i as int),
        decreases data@.len() - i,
    {
        proof {
            lemma_digits_end_bounds(data@, i + 1);
            lemma_digits_value_monotone(data@, start as int, i + 1, end);
        }
        value = value * 10 + (data[i] - 0x30) as u32;
        i = i + 1;
    }
    proof {
        if i < data@.len() {
            assert(!is_digit(data@[i as int]));
        }
    }
    (value, i)
}

/// Read the parameters of a color definition, `[0-9;]*` starting at `start`.
fn scan_color_params(data: &[u8], start: usize) -> (r: (Vec<u16>, usize))
    requires
        start <= data@.len(),
        param_scan(data@, start as int, 0, false, Seq::empty(), true).2,
    ensures
        (r.1 as int, r.0@, true) == param_scan(data@, start as int, 0, false, Seq::empty(), true),
{
    let ghost target = param_scan(data@, start as int, 0, false, Seq::empty(), true);
    let mut params: Vec<u16> = Vec::new();
    let mut num: u16 = 0;
    let mut has_num = false;
    let mut k = start;
    while k < data.len() && ((data[k] >= 0x30 && data[k] <= 0x39) || data[k] == 0x3B)
        invariant
            start <= k <= data@.len(),
            param_scan(data@, k as int, num as int, has_num, params@, true) == target,
            target.2,
        decreases data@.len() - k,
    {
        if data[k] == 0x3B {
            params.push(num);
            num = 0;
            has_num = false;
        } else {
            let n = num as u32 * 10 + (data[k] - 0x30) as u32;
            proof {
                if n > u16::MAX {
                    lemma_param_scan_fails(data@, k + 1, n as int, true, params@);
                }
            }
            num = n as u16;
            has_num = true;
        }
        k = k + 1;
    }
    if has_num {
        params.push(num);
    }
    (params, k)
}

/// A percentage (capped at 100) scaled to a color channel.
fn percent_to_channel(p: u16) -> (r: u8)
    ensures
        r == percent_channel(p),
{
    let capped: u32 = if p > 100 { 100 } else { p as u32 };
    (capped * 255 / 100) as u8
}

/// One HLS channel rounded into `0..=255`.
fn hls_channel_exec(p: u32, q: u32, t: u32) -> (r: u8)
    requires
        p <= q <= 20000,
        t <= 1080,
    ensures
        r == hls_channel(hls_channel_value(p as int, q as int, t as int)),
{
    let d = (q - p) as u64;
    let tt = t as u64;
    proof {
        assert(d * tt <= 20000 * 1080) by (nonlinear_arith)
            requires
                d <= 20000,
                tt <= 1080,
        ;
        assert(tt <= 720 ==> d * (720 - tt) <= 20000 * 1080) by (nonlinear_arith)
            requires
                d <= 20000,
        ;
    }
    let v: u64 = if t < 180 {
        180 * p as u64 + d * tt
    } else if t < 540 {
        180 * q as u64
    } else if t < 720 {
        180 * p as u64 + d * (720 - tt)
    } else {
        180 * p as u64
    };
    let rounded = (2 * v * 255 + 1_800_000) / 3_600_000;
    if rounded > 255 {
        255
    } else {
        rounded as u8
    }
}

/// Convert HLS (Hue 0-360, Lightness 0-100, Saturation 0-100) to RGB.
pub fn hls_to_rgb(h: u16, l: u16, s: u16) -> (r: (u8, u8, u8))
    ensures
        r == hls_rgb(h, l, s),
{
    let hh = (h % 360) as u32;
    let ll: u32 = if l > 100 { 100 } else { l as u32 };
    let ss: u32 = if s > 100 { 100 } else { s as u32 };
    if ss == 0 {
        let v = (ll * 255 / 100) as u8;
        return (v, v, v);
    }
    proof {
        assert(ll * ss <= 100 * ss) by (nonlinear_arith)
            requires
                ll <= 100,
        ;
        assert(ll * ss <= 10000) by (nonlinear_arith)
            requires
                ll <= 100,
                ss <= 100,
        ;
        assert(ll * (100 + ss) <= 2 * ll * 100) by (nonlinear_arith)
            requires
                ss <= 100,
        ;
        assert(ll * (100 + ss) >= 100 * ll) by (nonlinear_arith)
            requires
                ss >= 0,
                ll >= 0,
        ;
        assert(100 * ll + 100 * ss - ll * ss <= 10000) by (nonlinear_arith)
            requires
                ll <= 100,
                ss <= 100,
        ;
        assert(2 * ll >= 100 ==> 100 * ll + 100 * ss - ll * ss <= 200 * ll) by (nonlinear_arith)
            requires
                ll <= 100,
                ss <= 100,
        ;
    }
    let q: u32 = if 2 * ll < 100 {
        ll * (100 + ss)
    } else {
        100 * ll + 100 * ss - ll * ss
    };
    let p: u32 = 200 * ll - q;
    let t = 3 * hh;
    let tr = if t + 360 > 1080 { t + 360 - 1080 } else { t + 360 };
    let tb = if t < 360 { t + 1080 - 360 } else { t - 360 };
    (hls_channel_exec(p, q, tr), hls_channel_exec(p, q, t), hls_channel_exec(p, q, tb))
}

/// The color that a definition's parameters describe.
fn color_from_params(params: &Vec<u16>) -> (r: Option<SixelColor>)
    ensures
        r == color_definition(params@),
{
    if params.len() >= 4 {
        let color_type = params[0];
        let (r, g, b) = if color_type == 2 {
            // RGB percentages (0-100).
            (percent_to_channel(params[1]), percent_to_channel(params[2]), percent_to_channel(params[3]))
        } else if color_type == 1 {
            // HLS (Hue/Lightness/Saturation).
            hls_to_rgb(params[1], params[2], params[3])
        } else {
            (0, 0, 0)
        };
        Some(SixelColor { r, g, b })
    } else {
        None
    }
}

/// Read the token that starts at `i`; returns it and where the next one starts.
pub fn next_sixel_token(data: &[u8], i: usize) -> (r: (SixelToken, usize))
    requires
        i < data@.len(),
        sixel_token(data@, i as int).2,
    ensures
        r.0 == sixel_token(data@, i as int).0,
        r.1 == sixel_token(data@, i as int).1,
{
    let b = data[i];
    if b == 0x24 {
        (SixelToken::LineStart, i + 1)
    } else if b == 0x2D {
        (SixelToken::NextRow, i + 1)
    } else if b == 0x23 {
        // Color command: #<register> or #<register>;<type>;<p1>;<p2>;<p3>
        proof {
            lemma_digits_end_bounds(data@, i + 1);
        }
        let (reg, e) = scan_number(data, i + 1);
        if e < data.len() && data[e] == 0x3B {
            let (params, end) = scan_color_params(data, e + 1);
            let definition = color_from_params(&params);
            (SixelToken::Color { register: reg as u16, definition }, end)
        } else {
            (SixelToken::Color { register: reg as u16, definition: None }, e)
        }
    } else if b == 0x21 {
        // Repeat: !<count><char>
        proof {
            lemma_digits_end_bounds(data@, i + 1);
        }
        let (count, e) = scan_number(data, i + 1);
        if e < data.len() && data[e] >= 0x3F && data[e] <= 0x7E {
            (SixelToken::Repeat { count, bits: data[e] - 0x3F }, e + 1)
        } else if e < data.len() {
            (SixelToken::Skip, e + 1)
        } else {
            (SixelToken::Skip, e)
        }
    } else if b >= 0x3F && b <= 0x7E {
        (SixelToken::Column { bits: b - 0x3F }, i + 1)
    } else {
        (SixelToken::Skip, i + 1)
    }
}

/// Draw a single sixel column (6 vertical pixels) into the pixel buffer.
fn draw_sixel_column(
    pixels: &mut Vec<u8>,
    width: u32,
    height: u32,
    x: u32,
    y: u32,
    sixel_val: u8,
    color: &SixelColor,
)
    requires
        y + 5 <= u32::MAX,
        width * height * 4 <= u32::MAX,
    ensures
        final(pixels)@ == paint_column(old(pixels)@, width, height, x, y, sixel_val, *color),
{
    let ghost target = paint_column(pixels@, width, height, x, y, sixel_val, *color);
    for bit in 0..6u32
        invariant
            y + 5 <= u32::MAX,
            width * height * 4 <= u32::MAX,
            paint_bits(pixels@, width, height, x, y, sixel_val, *color, bit) == target,
    {
        if sixel_val & (1u8 << bit) != 0 {
            let py = y + bit;
            if x < width && py < height {
                proof {
                    assert((py * width + x) * 4 + 3 < width * height * 4) by (nonlinear_arith)
                        requires
                            x < width,
                            py < height,
                    ;
                }
                let offset = ((py * width + x) * 4) as usize;
                if offset + 3 < pixels.len() {
                    pixels.set(offset, color.r);
                    pixels.set(offset + 1, color.g);
                    pixels.set(offset + 2, color.b);
                    pixels.set(offset + 3, 255);
                }
            }
        }
    }
}

/// Initialize the default VGA 16-color sixel palette.
fn init_default_sixel_palette(palette: &mut HashMap<u16, SixelColor>)
    requires
        old(palette)@ == Map::<u16, SixelColor>::empty(),
    ensures
        final(palette)@ == default_palette(),
{
    let vga16: [(u8, u8, u8); 16] = [
        (0, 0, 0),  // 0: black
        (0, 0, 170),  // 1: blue
        (170, 0, 0),  // 2: red
        (0, 170, 0),  // 3: green
        (170, 0, 170),  // 4: magenta
        (0, 170, 170),  // 5: cyan
        (170, 170, 0),  // 6: yellow
        (170, 170, 170),  // 7: white
        (85, 85, 85),  // 8: bright black
        (85, 85, 255),  // 9: bright blue
        (255, 85, 85),  // 10: bright red
        (85, 255, 85),  // 11: bright green
        (255, 85, 255),  // 12: bright magenta
        (85, 255, 255),  // 13: bright cyan
        (255, 255, 85),  // 14: bright yellow
        (255, 255, 255),  // 15: bright white
    ];
    proof {
        assert forall|k: int| 0 <= k < 16 implies ({
            let (r, g, b) = #[trigger] vga16@[k];
            SixelColor { r, g, b } == vga16_color(k)
        }) by {
            assert(vga16@[k] == vga16[k]);
        }
    }
    for i in 0..16usize
        invariant
            palette@ == Map::new(|k: u16| k < i, |k: u16| vga16_color(k as int)),
            forall|k: int| 0 <= k < 16 ==> ({
                let (r, g, b) = #[trigger] vga16@[k];
                SixelColor { r, g, b } == vga16_color(k)
            }),
    {
        let (r, g, b) = vga16[i];
        proof {
            assert(vga16@[i as int] == vga16[i as int]);
        }
        palette.insert(i as u16, SixelColor { r, g, b });
        proof {
            assert(palette@ =~= Map::new(|k: u16| k < i + 1, |k: u16| vga16_color(k as int)));
        }
    }
    proof {
        assert(palette@ =~= default_palette());
    }
}

/// Decode sixel data into an RGBA pixel buffer.
///
/// Sixel format: each character in the range `?` (0x3F) to `~` (0x7E)
/// encodes 6 vertical pixels. Color is set via `#<register>` commands.
/// `$` returns to the beginning of the current row of sixels.
/// `-` moves to the next row of sixels (6 pixels down).
/// `!<count><char>` is a repeat introducer.
pub fn decode_sixel(data: &[u8]) -> (r: Option<DecodedImage>)
    requires
        sixel_fits(data@),
    ensures
        match r {
            Some(d) => sixel_decoding(data@) == Some((d.data@, d.width, d.height)),
            None => sixel_decoding(data@).is_none(),
        },
{
    let ghost ext = sixel_extent(data@);
    proof {
        lemma_extent_nonneg(data@);
    }
    // First pass: determine dimensions.
    let mut px: u32 = 0;
    let mut py: u32 = 0;
    let mut max_x: u32 = 0;
    let mut max_y: u32 = 0;
    let mut i: usize = 0;
    while i < data.len()
        invariant
            i <= data@.len(),
            layout_from(data@, i as int, SixelLayout { x: px as int, y: py as int, max_x: max_x as int, max_y: max_y as int }) == ext,
            fits_from(data@, i as int, SixelLayout { x: px as int, y: py as int, max_x: max_x as int, max_y: max_y as int }),
        decreases data@.len() - i,
    {
        proof {
            lemma_token_advances(data@, i as int);
        }
        let (tok, next) = next_sixel_token(data, i);
        match tok {
            SixelToken::LineStart => {
                px = 0;
            },
            SixelToken::NextRow => {
                px = 0;
                py = py + 6;
            },
            SixelToken::Repeat { count, bits } => {
                px = px + count;
                if px > max_x {
                    max_x = px;
                }
                if py + 6 > max_y {
                    max_y = py + 6;
                }
            },
            SixelToken::Column { bits } => {
                px = px + 1;
                if px > max_x {
                    max_x = px;
                }
                if py + 6 > max_y {
                    max_y = py + 6;
                }
            },
            _ => {},
        }
        i = next;
    }
    if max_x == 0 || max_y == 0 {
        return None;
    }
    let width = max_x;
    let height = max_y;
    let mut pixels = vec![0u8; (width * height * 4) as usize];
    proof {
        assert(pixels@ =~= blank_canvas(width as int, height as int));
    }
    // Second pass: draw pixels.
    let mut palette: HashMap<u16, SixelColor> = HashMap::new();
    init_default_sixel_palette(&mut palette);
    let mut current_color: u16 = 0;
    let mut x: u32 = 0;
    let mut y: u32 = 0;
    let ghost mut st = SixelPaint {
        layout: layout_origin(),
        register: 0,
        palette: default_palette(),
        pixels: blank_canvas(width as int, height as int),
    };
    let ghost goal = paint_from(data@, 0, st, width, height);
    let mut i: usize = 0;
    while i < data.len()
        invariant
            i <= data@.len(),
            ext.max_x == width,
            ext.max_y == height,
            width * height * 4 <= u32::MAX,
            paint_from(data@, i as int, st, width, height) == goal,
            layout_from(data@, i as int, st.layout) == ext,
            fits_from(data@, i as int, st.layout),
            st.layout.x == x,
            st.layout.y == y,
            st.register == current_color,
            st.palette == palette@,
            st.pixels == pixels@,
        decreases data@.len() - i,
    {
        proof {
            lemma_token_advances(data@, i as int);
        }
        let (tok, next) = next_sixel_token(data, i);
        let ghost after = layout_step(st.layout, tok);
        proof {
            lemma_layout_grows(data@, next as int, after);
        }
        match tok {
            SixelToken::LineStart => {
                x = 0;
            },
            SixelToken::NextRow => {
                x = 0;
                y = y + 6;
            },
            SixelToken::Color { register, definition } => {
                match definition {
                    Some(c) => {
                        palette.insert(register, c);
                    },
                    None => {},
                }
                current_color = register;
            },
            SixelToken::Repeat { count, bits } => {
                let color = match palette.get(&current_color) {
                    Some(c) => *c,
                    None => SixelColor { r: 255, g: 255, b: 255 },
                };
                let ghost before = pixels@;
                for rep in 0..count
                    invariant
                        x + count <= width,
                        y + 6 <= height,
                        width * height * 4 <= u32::MAX,
                        paint_run(pixels@, width, height, x, y, bits, color, count, rep)
                            == paint_run(before, width, height, x, y, bits, color, count, 0),
                {
                    draw_sixel_column(&mut pixels, width, height, x + rep, y, bits, &color);
                }
                x = x + count;
            },
            SixelToken::Column { bits } => {
                let color = match palette.get(&current_color) {
                    Some(c) => *c,
                    None => SixelColor { r: 255, g: 255, b: 255 },
                };
                draw_sixel_column(&mut pixels, width, height, x, y, bits, &color);
                x = x + 1;
            },
            SixelToken::Skip => {},
        }
        proof {
            st = paint_step(st, tok, width, height);
        }
        i = next;
    }
    Some(DecodedImage { data: pixels, width, height })
}

/// The store after a sixel sequence was processed at the cursor.
pub open spec fn sixel_processed(
    store: ImageStoreView,
    data: Seq<u8>,
    cursor_col: usize,
    cursor_row: usize,
) -> ImageStoreView {
    match sixel_decoding(data) {
        Some((pixels, w, h)) => {
            let id = store.next_id;
            store.id_taken().stored(ImageView { id, data: pixels, width: w, height: h }).placed(
                ImagePlacement {
                    image_id: id,
                    col: cursor_col,
                    row: cursor_row as isize,
                    cell_cols: 0,
                    cell_rows: 0,
                    src_width: w,
                    src_height: h,
                },
            )
        },
        None => store,
    }
}

/// Process a complete Sixel DCS sequence: decode it, store the image under a
/// fresh ID and place it at the cursor. Data that decodes to nothing leaves
/// the store unchanged.
///
/// The `data` should be the sixel data portion (after the `q` introducer).
pub fn process_sixel(data: &[u8], store: &mut ImageStore, cursor_col: usize, cursor_row: usize)
    requires
        sixel_fits(data@),
        old(store)@.wf(),
    ensures
        final(store)@ == sixel_processed(old(store)@, data@, cursor_col, cursor_row),
{
    match decode_sixel(data) {
        Some(decoded) => {
            let id = store.next_id();
            let w = decoded.width;
            let h = decoded.height;
            store.store_image(TerminalImage { id, data: decoded.data, width: w, height: h });
            store.add_placement(
                ImagePlacement {
                    image_id: id,
                    col: cursor_col,
                    row: cursor_row as isize,
                    cell_cols: 0,
                    cell_rows: 0,
                    src_width: w,
                    src_height: h,
                },
            );
        },
        None => {},
    }
}

/// The shape of a decoded Sixel image: its height is a whole number of
/// sixel rows, and every pixel is either opaque or transparent black (the
/// background that nothing was drawn on). Data without any sixel data byte
/// decodes to nothing.
pub proof fn lemma_sixel_decoding_shape(data: Seq<u8>)
    requires
        sixel_fits(data),
    ensures
        sixel_decoding(data) matches Some((pix, w, h)) ==> {
            &&& h % 6 == 0
            &&& canvas_ok(pix)
        },
        (forall|k: int| 0 <= k < data.len() ==> !is_sixel_char(#[trigger] data[k]))
            ==> sixel_decoding(data) is None,
{
    let ext = sixel_extent(data);
    lemma_layout_sixel_rows(data, 0, layout_origin());
    if forall|k: int| 0 <= k < data.len() ==> !is_sixel_char(#[trigger] data[k]) {
        lemma_layout_without_sixel_bytes(data, 0, layout_origin());
    }
    if ext.max_x != 0 && ext.max_y != 0 {
        lemma_extent_nonneg(data);
        let start = SixelPaint {
            layout: layout_origin(),
            register: 0,
            palette: default_palette(),
            pixels: blank_canvas(ext.max_x, ext.max_y),
        };
        let blank = blank_canvas(ext.max_x, ext.max_y);
        assert(ext.max_x * ext.max_y * 4 >= 0) by (nonlinear_arith)
            requires
                ext.max_x >= 0,
                ext.max_y >= 0,
        ;
        assert(blank.len() % 4 == 0) by {
            assert((ext.max_x * ext.max_y * 4) % 4 == 0) by (nonlinear_arith);
        }
        assert(canvas_ok(blank));
        lemma_paint_from_ok(data, 0, start, ext.max_x as u32, ext.max_y as u32);
        assert(ext.max_x <= u32::MAX && ext.max_y <= u32::MAX) by (nonlinear_arith)
            requires
                ext.max_x >= 1,
                ext.max_y >= 1,
                ext.max_x * ext.max_y * 4 <= u32::MAX,
        ;
    }
}

/// `#Pc;2;Pr;Pg;Pb` defines an RGB colour in percent: each channel is its
/// percentage (capped at 100) of 255, rounded down, so 0 gives 0 and 100
/// gives 255, and the red, green and blue parameters land in the red,
/// green and blue channels.
pub proof fn lemma_rgb_color_definition(r: u16, g: u16, b: u16)
    ensures
        color_definition(seq![2u16, r, g, b]) matches Some(c) && {
            let cap = |p: u16| if p > 100 { 100int } else { p as int };
            &&& c.r * 100 <= cap(r) * 255 < (c.r + 1) * 100
            &&& c.g * 100 <= cap(g) * 255 < (c.g + 1) * 100
            &&& c.b * 100 <= cap(b) * 255 < (c.b + 1) * 100
        },
        color_definition(seq![2u16, 0, 0, 0]) == Some(SixelColor { r: 0, g: 0, b: 0 }),
        color_definition(seq![2u16, 100, 100, 100]) == Some(SixelColor { r: 255, g: 255, b: 255 }),
        color_definition(seq![2u16, 100, 0, 0]) == Some(SixelColor { r: 255, g: 0, b: 0 }),
{
    let seqp = seq![2u16, r, g, b];
    assert(seqp[0] == 2 && seqp[1] == r && seqp[2] == g && seqp[3] == b);
    let cr = if r > 100 { 100int } else { r as int };
    let cg = if g > 100 { 100int } else { g as int };
    let cb = if b > 100 { 100int } else { b as int };
    assert(0 <= cr * 255 / 100 <= 255 && (cr * 255 / 100) * 100 <= cr * 255 < (cr * 255 / 100 + 1) * 100) by (nonlinear_arith)
        requires 0 <= cr <= 100;
    assert(0 <= cg * 255 / 100 <= 255 && (cg * 255 / 100) * 100 <= cg * 255 < (cg * 255 / 100 + 1) * 100) by (nonlinear_arith)
        requires 0 <= cg <= 100;
    assert(0 <= cb * 255 / 100 <= 255 && (cb * 255 / 100) * 100 <= cb * 255 < (cb * 255 / 100 + 1) * 100) by (nonlinear_arith)
        requires 0 <= cb <= 100;
    assert(seq![2u16, 0, 0, 0][1] == 0);
    assert(seq![2u16, 100, 100, 100][1] == 100);
    assert(seq![2u16, 100, 0, 0][1] == 100 && seq![2u16, 100, 0, 0][2] == 0);
}

/// `#Pc;1;Ph;Pl;Ps` defines an HLS colour: lightness 0 is black and 100
/// white whatever the hue and saturation, saturation 0 a grey of the
/// lightness, and at full saturation and half lightness hue 0 is red, 120
/// green and 240 blue.
pub proof fn lemma_hls_color_definition(h: u16, s: u16, l: u16)
    ensures
        hls_rgb(h, 0, s) == (0u8, 0u8, 0u8),
        hls_rgb(h, 100, s) == (255u8, 255u8, 255u8),
        hls_rgb(h, l, 0).0 == hls_rgb(h, l, 0).1 && hls_rgb(h, l, 0).1 == hls_rgb(h, l, 0).2,
        l <= 100 ==> hls_rgb(h, l, 0).0 as int * 100 <= l * 255 < (hls_rgb(h, l, 0).0 as int + 1) * 100,
        hls_rgb(0, 50, 100) == (255u8, 0u8, 0u8),
        hls_rgb(120, 50, 100) == (0u8, 255u8, 0u8),
        hls_rgb(240, 50, 100) == (0u8, 0u8, 255u8),
{
    let ss = if s > 100 { 100int } else { s as int };
    assert(0 <= ss <= 100);
    // Lightness 0: p = q = 0.
    assert(0 * (100 + ss) == 0);
    // Lightness 100: p = q = 10_000.
    assert(100 * 100 + 100 * ss - 100 * ss == 10000);
    let hh = (h % 360) as int;
    assert(0 <= 3 * hh < 1080);
    assert forall|t: int| hls_channel_value(0, 0, t) == 0 by {
        assert((0int - 0int) * t == 0);
        assert((0int - 0int) * (720 - t) == 0);
    }
    assert forall|t: int| hls_channel_value(10000, 10000, t) == 1800000 by {
        assert((10000int - 10000int) * t == 0);
        assert((10000int - 10000int) * (720 - t) == 0);
    }
    assert(hls_channel(0) == 0);
    assert(hls_channel(1800000) == 255);
    if ss > 0 {
        assert(0int * (100 + ss) == 0);
        assert(100 * 100 + 100 * ss - 100 * ss == 10000);
        assert(200 * 100 - 10000 == 10000);
    }
    if l <= 100 {
        let ll = l as int;
        assert((ll * 255 / 100) * 100 <= ll * 255 < (ll * 255 / 100 + 1) * 100 && 0 <= ll * 255 / 100 <= 255) by (nonlinear_arith)
            requires 0 <= ll <= 100;
    }
}

/// The byte offset of pixel `(x, y + b)` on a canvas `w` pixels wide.
pub open spec fn pixel_offset(w: u32, x: u32, y: u32, b: int) -> int {
    ((y + b) * w + x) * 4
}

/// Whether a sixel column at `(x, y)` with value `bits` paints its pixel
/// `b` (from the top): the bit is set and the pixel lies on the canvas.
pub open spec fn column_paints(len: int, w: u32, h: u32, x: u32, y: u32, bits: u8, b: int) -> bool {
    &&& 0 <= b < 6
    &&& x < w
    &&& y + b < h
    &&& pixel_offset(w, x, y, b) + 3 < len
    &&& sixel_bit(bits, b as u32)
}

/// The blocks of two different pixels of one column do not overlap.
proof fn lemma_column_blocks_apart(w: u32, x: u32, y: u32, b1: int, b2: int)
    requires
        x < w,
        0 <= b1 < b2,
    ensures
        pixel_offset(w, x, y, b1) + 4 <= pixel_offset(w, x, y, b2),
{
    let (wi, xi, yi) = (w as int, x as int, y as int);
    let d = b2 - b1;
    assert((yi + b2) * wi == (yi + b1) * wi + d * wi) by (nonlinear_arith)
        requires
            d == b2 - b1,
    ;
    assert(d * wi >= wi) by (nonlinear_arith)
        requires
            d >= 1,
            wi >= 0,
    ;
    assert(wi >= 1);
}

/// Painting bits `bit..6` of a column: each painted pixel takes the colour
/// (opaque), every other byte stays.
proof fn lemma_paint_bits_pixels(
    pix: Seq<u8>,
    w: u32,
    h: u32,
    x: u32,
    y: u32,
    bits: u8,
    c: SixelColor,
    bit: u32,
)
    requires
        bit <= 6,
    ensures
        ({
            let out = paint_bits(pix, w, h, x, y, bits, c, bit);
            &&& out.len() == pix.len()
            &&& forall|b: int|
                bit <= b < 6 && #[trigger] column_paints(pix.len() as int, w, h, x, y, bits, b) ==> {
                    let off = pixel_offset(w, x, y, b);
                    &&& out[off] == c.r
                    &&& out[off + 1] == c.g
                    &&& out[off + 2] == c.b
                    &&& out[off + 3] == 255
                }
            &&& forall|j: int|
                0 <= j < pix.len() && (forall|b: int|
                    bit <= b < 6 && #[trigger] column_paints(pix.len() as int, w, h, x, y, bits, b)
                        ==> !(pixel_offset(w, x, y, b) <= j < pixel_offset(w, x, y, b) + 4))
                    ==> out[j] == pix[j]
        }),
    decreases 6 - bit,
{
    if bit < 6 {
        let py = y + bit;
        let off = (py * w + x) * 4;
        let painted = if sixel_bit(bits, bit) && x < w && py < h && off + 3 < pix.len() {
            set_pixel(pix, off, c)
        } else {
            pix
        };
        assert(off == pixel_offset(w, x, y, bit as int));
        lemma_paint_bits_pixels(painted, w, h, x, y, bits, c, (bit + 1) as u32);
        let out = paint_bits(pix, w, h, x, y, bits, c, bit);
        assert(out == paint_bits(painted, w, h, x, y, bits, c, (bit + 1) as u32));
        assert forall|b: int|
            bit <= b < 6 && #[trigger] column_paints(pix.len() as int, w, h, x, y, bits, b) implies {
                let o = pixel_offset(w, x, y, b);
                &&& out[o] == c.r
                &&& out[o + 1] == c.g
                &&& out[o + 2] == c.b
                &&& out[o + 3] == 255
            } by {
            if b > bit {
                assert(column_paints(painted.len() as int, w, h, x, y, bits, b));
            } else {
                assert(column_paints(pix.len() as int, w, h, x, y, bits, bit as int));
                let o = pixel_offset(w, x, y, b);
                assert forall|b2: int|
                    bit + 1 <= b2 < 6 && #[trigger] column_paints(painted.len() as int, w, h, x, y, bits, b2)
                    implies !(pixel_offset(w, x, y, b2) <= o + 3 < pixel_offset(w, x, y, b2) + 4) by {
                    lemma_column_blocks_apart(w, x, y, b, b2);
                }
                assert forall|b2: int|
                    bit + 1 <= b2 < 6 && #[trigger] column_paints(painted.len() as int, w, h, x, y, bits, b2)
                    implies !(pixel_offset(w, x, y, b2) <= o < pixel_offset(w, x, y, b2) + 4) by {
                    lemma_column_blocks_apart(w, x, y, b, b2);
                }
                assert forall|b2: int|
                    bit + 1 <= b2 < 6 && #[trigger] column_paints(painted.len() as int, w, h, x, y, bits, b2)
                    implies !(pixel_offset(w, x, y, b2) <= o + 1 < pixel_offset(w, x, y, b2) + 4) by {
                    lemma_column_blocks_apart(w, x, y, b, b2);
                }
                assert forall|b2: int|
                    bit + 1 <= b2 < 6 && #[trigger] column_paints(painted.len() as int, w, h, x, y, bits, b2)
                    implies !(pixel_offset(w, x, y, b2) <= o + 2 < pixel_offset(w, x, y, b2) + 4) by {
                    lemma_column_blocks_apart(w, x, y, b, b2);
                }
            }
        }
        assert forall|j: int|
            0 <= j < pix.len() && (forall|b: int|
                bit <= b < 6 && #[trigger] column_paints(pix.len() as int, w, h, x, y, bits, b)
                    ==> !(pixel_offset(w, x, y, b) <= j < pixel_offset(w, x, y, b) + 4))
            implies out[j] == pix[j] by {
            assert(!(column_paints(pix.len() as int, w, h, x, y, bits, bit as int) && off <= j < off + 4));
            assert(painted[j] == pix[j]);
        }
    }
}

/// One sixel column at `(x, y)` paints pixel `(x, y + b)` in the current
/// colour, opaque, exactly for the set bits `b` of its value (bit 0 the
/// top pixel) that fall on the canvas; every other byte of the canvas
/// stays as it was.
pub proof fn lemma_column_paints_its_bits(
    pix: Seq<u8>,
    w: u32,
    h: u32,
    x: u32,
    y: u32,
    bits: u8,
    c: SixelColor,
)
    ensures
        ({
            let out = paint_column(pix, w, h, x, y, bits, c);
            &&& out.len() == pix.len()
            &&& forall|b: int|
                #[trigger] column_paints(pix.len() as int, w, h, x, y, bits, b) ==> {
                    let off = ((y + b) * w + x) * 4;
                    &&& out[off] == c.r
                    &&& out[off + 1] == c.g
                    &&& out[off + 2] == c.b
                    &&& out[off + 3] == 255
                }
            &&& forall|j: int|
                0 <= j < pix.len() && (forall|b: int|
                    #[trigger] column_paints(pix.len() as int, w, h, x, y, bits, b) ==> !(((y + b) * w
                        + x) * 4 <= j < ((y + b) * w + x) * 4 + 4)) ==> out[j] == pix[j]
        }),
{
    lemma_paint_bits_pixels(pix, w, h, x, y, bits, c, 0);
}

/// A sixel value's bits, top pixel first: bit 0 alone (`@`) is the top
/// pixel, bit 5 alone (`_`) the bottom one, all six (`~`) the whole column.
pub proof fn lemma_sixel_bits()
    ensures
        sixel_bit(1, 0) && !sixel_bit(1, 1) && !sixel_bit(1, 5),
        sixel_bit(32, 5) && !sixel_bit(32, 0) && !sixel_bit(32, 4),
        sixel_bit(63, 0) && sixel_bit(63, 1) && sixel_bit(63, 2) && sixel_bit(63, 3)
            && sixel_bit(63, 4) && sixel_bit(63, 5),
        !sixel_bit(0, 0) && !sixel_bit(0, 3),
{
    assert(1u8 & (1u8 << 0u32) != 0 && 1u8 & (1u8 << 1u32) == 0 && 1u8 & (1u8 << 5u32) == 0) by (bit_vector);
    assert(32u8 & (1u8 << 5u32) != 0 && 32u8 & (1u8 << 0u32) == 0 && 32u8 & (1u8 << 4u32) == 0) by (bit_vector);
    assert(63u8 & (1u8 << 0u32) != 0 && 63u8 & (1u8 << 1u32) != 0 && 63u8 & (1u8 << 2u32) != 0
        && 63u8 & (1u8 << 3u32) != 0 && 63u8 & (1u8 << 4u32) != 0 && 63u8 & (1u8 << 5u32) != 0) by (bit_vector);
    assert(0u8 & (1u8 << 0u32) == 0 && 0u8 & (1u8 << 3u32) == 0) by (bit_vector);
}

/// The palette a Sixel image starts with: registers 0 to 15 hold the VGA
/// colours (0 black, 1 blue, 2 red, 3 green, 4 magenta, 5 cyan, 6 yellow,
/// 7 grey, and their bright forms 8 to 15); any other register paints
/// white until it is defined, and a definition replaces its register's
/// colour only.
pub proof fn lemma_default_palette(reg: u16, other: u16, def: SixelColor)
    ensures
        register_color(default_palette(), 0) == (SixelColor { r: 0, g: 0, b: 0 }),
        register_color(default_palette(), 1) == (SixelColor { r: 0, g: 0, b: 170 }),
        register_color(default_palette(), 2) == (SixelColor { r: 170, g: 0, b: 0 }),
        register_color(default_palette(), 3) == (SixelColor { r: 0, g: 170, b: 0 }),
        register_color(default_palette(), 4) == (SixelColor { r: 170, g: 0, b: 170 }),
        register_color(default_palette(), 5) == (SixelColor { r: 0, g: 170, b: 170 }),
        register_color(default_palette(), 6) == (SixelColor { r: 170, g: 170, b: 0 }),
        register_color(default_palette(), 7) == (SixelColor { r: 170, g: 170, b: 170 }),
        register_color(default_palette(), 8) == (SixelColor { r: 85, g: 85, b: 85 }),
        register_color(default_palette(), 9) == (SixelColor { r: 85, g: 85, b: 255 }),
        register_color(default_palette(), 10) == (SixelColor { r: 255, g: 85, b: 85 }),
        register_color(default_palette(), 11) == (SixelColor { r: 85, g: 255, b: 85 }),
        register_color(default_palette(), 12) == (SixelColor { r: 255, g: 85, b: 255 }),
        register_color(default_palette(), 13) == (SixelColor { r: 85, g: 255, b: 255 }),
        register_color(default_palette(), 14) == (SixelColor { r: 255, g: 255, b: 85 }),
        register_color(default_palette(), 15) == (SixelColor { r: 255, g: 255, b: 255 }),
        reg >= 16 ==> register_color(default_palette(), reg) == (SixelColor { r: 255, g: 255, b: 255 }),
        register_color(default_palette().insert(reg, def), reg) == def,
        other != reg ==> register_color(default_palette().insert(reg, def), other)
            == register_color(default_palette(), other),
{
}

} // verus!
