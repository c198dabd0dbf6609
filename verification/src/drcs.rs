//! Soft fonts (DECDLD, DRCS): glyphs loaded by the application and the
//! store that keeps them by font and character.

use std::collections::HashMap;
use vstd::prelude::*;

use crate::sixel::{
    digits_end, digits_value, is_digit, is_sixel_char, lemma_digits_end_bounds,
    lemma_digits_value_monotone, lemma_digits_value_nonneg, sixel_bit,
};

verus! {

broadcast use vstd::std_specs::hash::group_hash_axioms;

/// A soft-font glyph: `width` by `height` pixels, row by row, eight pixels
/// per byte, most significant bit first.
#[derive(Debug, Clone)]
pub struct DrcsGlyph {
    pub bitmap: Vec<u8>,
    pub width: u8,
    pub height: u8,
}

/// A glyph as plain values.
pub struct GlyphView {
    pub bitmap: Seq<u8>,
    pub width: u8,
    pub height: u8,
}

impl View for DrcsGlyph {
    type V = GlyphView;

    open spec fn view(&self) -> GlyphView {
        GlyphView { bitmap: self.bitmap@, width: self.width, height: self.height }
    }
}

/// The key of character `code` of font `font`.
pub open spec fn glyph_key(font: u8, code: u8) -> u16 {
    (font * 256 + code) as u16
}

/// The keys of font `font`.
pub open spec fn font_keys(font: u8) -> Set<u16> {
    Set::new(|k: u16| k / 256 == font)
}

/// The glyphs of a store, by key.
pub open spec fn glyph_views(m: Map<u16, DrcsGlyph>) -> Map<u16, GlyphView> {
    m.map_values(|g: DrcsGlyph| g@)
}

/// The soft fonts loaded so far: glyphs by font number and character.
pub struct DrcsFontStore {
    glyphs: HashMap<u16, DrcsGlyph>,
}

impl View for DrcsFontStore {
    type V = Map<u16, GlyphView>;

    closed spec fn view(&self) -> Map<u16, GlyphView> {
        glyph_views(self.glyphs@)
    }
}

fn key_of(font: u8, code: u8) -> (k: u16)
    ensures
        k == glyph_key(font, code),
{
    font as u16 * 256 + code as u16
}

impl DrcsFontStore {
    pub fn new() -> (s: Self)
        ensures
            s@ == Map::<u16, GlyphView>::empty(),
    {
        let s = Self { glyphs: HashMap::new() };
        proof {
            assert(glyph_views(s.glyphs@) =~= Map::<u16, GlyphView>::empty());
        }
        s
    }

    /// Whether no glyph is loaded.
    pub fn is_empty(&self) -> (r: bool)
        ensures
            r == (self@.dom() == Set::<u16>::empty()),
    {
        let r = self.glyphs.is_empty();
        proof {
            if !r {
                let k = self.glyphs@.dom().choose();
                assert(self@.dom().contains(k));
            } else {
                assert(self@.dom() =~= Set::<u16>::empty());
            }
        }
        r
    }

    /// Define (or redefine) character `char_code` of font `font`.
    pub fn set_glyph(&mut self, font: u8, char_code: u8, glyph: DrcsGlyph)
        ensures
            final(self)@ == old(self)@.insert(glyph_key(font, char_code), glyph@),
    {
        let ghost v = glyph@;
        let key = key_of(font, char_code);
        self.glyphs.insert(key, glyph);
        proof {
            assert(glyph_views(self.glyphs@) =~= old(self)@.insert(key, v));
        }
    }

    /// The glyph of character `char_code` of font `font`, if defined.
    pub fn get_glyph(&self, font: u8, char_code: u8) -> (r: Option<&DrcsGlyph>)
        ensures
            match r {
                Some(g) => self@.contains_key(glyph_key(font, char_code)) && g@ == self@[glyph_key(
                    font,
                    char_code,
                )],
                None => !self@.contains_key(glyph_key(font, char_code)),
            },
    {
        let key = key_of(font, char_code);
        self.glyphs.get(&key)
    }

    /// Erase every glyph of font `font`.
    pub fn erase_font(&mut self, font: u8)
        ensures
            final(self)@ == old(self)@.remove_keys(font_keys(font)),
    {
        let ghost orig = self.glyphs@;
        let mut code: u16 = 0;
        while code < 256
            invariant
                code <= 256,
                self.glyphs@ == orig.remove_keys(
                    Set::new(|k: u16| k / 256 == font && k % 256 < code),
                ),
            decreases 256 - code,
        {
            let key = key_of(font, code as u8);
            self.glyphs.remove(&key);
            proof {
                assert(self.glyphs@ =~= orig.remove_keys(
                    Set::new(|k: u16| k / 256 == font && k % 256 < code + 1),
                ));
            }
            code = code + 1;
        }
        proof {
            assert(Set::new(|k: u16| k / 256 == font && k % 256 < 256) =~= font_keys(font));
            assert(glyph_views(self.glyphs@) =~= old(self)@.remove_keys(font_keys(font)));
        }
    }

    /// Erase every glyph of every font.
    pub fn erase_all(&mut self)
        ensures
            final(self)@ == Map::<u16, GlyphView>::empty(),
    {
        self.glyphs.clear();
        proof {
            assert(glyph_views(self.glyphs@) =~= Map::<u16, GlyphView>::empty());
        }
    }

    /// All loaded glyphs, by key.
    pub fn glyphs(&self) -> (r: &HashMap<u16, DrcsGlyph>)
        ensures
            glyph_views(r@) == self@,
    {
        &self.glyphs
    }
}

/// Distinct characters of distinct fonts have distinct keys, and a key
/// tells its font.
proof fn lemma_glyph_key_parts(font: u8, code: u8)
    ensures
        glyph_key(font, code) as int == font as int * 256 + code as int,
        glyph_key(font, code) / 256 == font,
        glyph_key(font, code) % 256 == code,
{
    assert(font as int * 256 + code as int <= 65535) by (nonlinear_arith)
        requires
            font <= 255,
            code <= 255,
    ;
    assert((font as int * 256 + code as int) / 256 == font as int) by (nonlinear_arith)
        requires
            0 <= code <= 255,
    ;
    assert((font as int * 256 + code as int) % 256 == code as int) by (nonlinear_arith)
        requires
            0 <= code <= 255,
    ;
}

/// A glyph that was set is read back, while every other character of every
/// font keeps what it had; erasing a font removes its characters and leaves
/// those of the other fonts.
pub proof fn lemma_glyph_set_get_erase(
    store: Map<u16, GlyphView>,
    font: u8,
    code: u8,
    g: GlyphView,
    other_font: u8,
    other_code: u8,
)
    ensures
        store.insert(glyph_key(font, code), g)[glyph_key(font, code)] == g,
        (other_font != font || other_code != code) ==> {
            let k = glyph_key(other_font, other_code);
            &&& store.insert(glyph_key(font, code), g).contains_key(k) == store.contains_key(k)
            &&& store.contains_key(k) ==> store.insert(glyph_key(font, code), g)[k] == store[k]
        },
        store.remove_keys(font_keys(font)).contains_key(glyph_key(other_font, other_code)) == (
        other_font != font && store.contains_key(glyph_key(other_font, other_code))),
{
    lemma_glyph_key_parts(font, code);
    lemma_glyph_key_parts(other_font, other_code);
}

/// The parameters of a DECDLD sequence that decide how glyphs are loaded.
#[derive(Debug, Clone, Copy, PartialEq, Eq, Structural)]
pub struct DecdldHeader {
    /// Font number (0-3).
    pub font_number: u8,
    /// The character the first glyph defines (0-95, added to 0x20).
    pub start_char: u8,
    /// Cell width in pixels.
    pub cell_width: u8,
    /// Cell height in pixels.
    pub cell_height: u8,
    /// Erase control (0 and 2 erase the font first).
    pub erase_control: u8,
}

/// The first value of every parameter group (0 for an empty group).
pub open spec fn first_values(groups: Seq<Seq<u16>>) -> Seq<u16> {
    groups.map_values(|g: Seq<u16>| if g.len() > 0 { g[0] } else { 0u16 })
}

/// Parameter `i`, 0 when absent.
pub open spec fn param_or_zero(p: Seq<u16>, i: int) -> u16 {
    if 0 <= i < p.len() {
        p[i]
    } else {
        0
    }
}

/// `v` capped at `max`.
pub open spec fn capped(v: u16, max: u16) -> u8 {
    (if v > max {
        max
    } else {
        v
    }) as u8
}

/// The header `Pfn;Pcn;Pe;Pcmw;Pss;Pt;Pcmh;Pcss` describes: font number
/// (at most 3), first character (at most 95), erase control (at most 2),
/// and the cell size, 10 by 20 where a dimension is 0 (dimensions are
/// taken modulo 256).
pub open spec fn decdld_header(p: Seq<u16>) -> DecdldHeader {
    let w = param_or_zero(p, 3) as u8;
    let h = param_or_zero(p, 6) as u8;
    DecdldHeader {
        font_number: capped(param_or_zero(p, 0), 3),
        start_char: capped(param_or_zero(p, 1), 95),
        cell_width: if w == 0 {
            10
        } else {
            w
        },
        cell_height: if h == 0 {
            20
        } else {
            h
        },
        erase_control: capped(param_or_zero(p, 2), 2),
    }
}

/// The store after a DECDLD sequence with header `hd` starts: erase control
/// 0 and 2 erase the font.
pub open spec fn decdld_begun(store: Map<u16, GlyphView>, hd: DecdldHeader) -> Map<u16, GlyphView> {
    if hd.erase_control == 0 || hd.erase_control == 2 {
        store.remove_keys(font_keys(hd.font_number))
    } else {
        store
    }
}

/// The first value of group `i`, 0 when there is none.
fn group_first(groups: &Vec<Vec<u16>>, i: usize) -> (v: u16)
    ensures
        v == param_or_zero(first_values(groups@.map_values(|g: Vec<u16>| g@)), i as int),
{
    if i < groups.len() && groups[i].len() > 0 {
        groups[i][0]
    } else {
        0
    }
}

/// Start a DECDLD sequence (DCS `{`): read its header from the parameter
/// groups and erase the font when the header asks for it.
pub fn begin_decdld(groups: &Vec<Vec<u16>>, store: &mut DrcsFontStore) -> (hd: DecdldHeader)
    ensures
        hd == decdld_header(first_values(groups@.map_values(|g: Vec<u16>| g@))),
        final(store)@ == decdld_begun(old(store)@, hd),
{
    let pfn = group_first(groups, 0);
    let pcn = group_first(groups, 1);
    let pe = group_first(groups, 2);
    let pcmw = #[verifier::truncate]
    (group_first(groups, 3) as u8);
    let pcmh = #[verifier::truncate]
    (group_first(groups, 6) as u8);
    let hd = DecdldHeader {
        font_number: if pfn > 3 {
            3
        } else {
            pfn as u8
        },
        start_char: if pcn > 95 {
            95
        } else {
            pcn as u8
        },
        cell_width: if pcmw == 0 {
            10
        } else {
            pcmw
        },
        cell_height: if pcmh == 0 {
            20
        } else {
            pcmh
        },
        erase_control: if pe > 2 {
            2
        } else {
            pe as u8
        },
    };
    // Erase existing glyphs per the erase control parameter.
    if hd.erase_control == 0 || hd.erase_control == 2 {
        store.erase_font(hd.font_number);
    }
    hd
}


// ---------------------------------------------------------------------------
// Glyph bitmaps
// ---------------------------------------------------------------------------

/// The pieces of `s` between occurrences of `sep` (`<[u8]>::split`): one
/// more piece than there are separators.
pub open spec fn split_bytes(s: Seq<u8>, sep: u8) -> Seq<Seq<u8>>
    decreases s.len(),
{
    if s.len() == 0 {
        seq![Seq::empty()]
    } else {
        let prev = split_bytes(s.drop_last(), sep);
        if s.last() == sep {
            prev.push(Seq::empty())
        } else {
            prev.update(prev.len() - 1, prev.last().push(s.last()))
        }
    }
}

/// The 6-bit columns a glyph row draws from position `i` on, left to right:
/// `!<n><c>` is `n` copies of sixel character `c` (a `!` and its digits not
/// followed by one draw nothing), a sixel character is one column, and other
/// bytes draw nothing.
pub open spec fn row_columns_from(row: Seq<u8>, i: int) -> Seq<u8>
    decreases row.len() - i,
{
    if i < 0 || i >= row.len() {
        Seq::empty()
    } else if row[i] == 0x21 {
        proof {
            lemma_digits_end_bounds(row, i + 1);
        }
        let e = digits_end(row, i + 1);
        if e < row.len() && is_sixel_char(row[e]) {
            Seq::new(digits_value(row, i + 1, e) as nat, |k: int| (row[e] - 0x3F) as u8)
                + row_columns_from(row, e + 1)
        } else {
            row_columns_from(row, e)
        }
    } else if is_sixel_char(row[i]) {
        seq![(row[i] - 0x3F) as u8] + row_columns_from(row, i + 1)
    } else {
        row_columns_from(row, i + 1)
    }
}

/// Every repeat count of the row from position `i` on fits in `usize`.
pub open spec fn repeats_fit(row: Seq<u8>, i: int) -> bool
    decreases row.len() - i,
{
    if i < 0 || i >= row.len() {
        true
    } else if row[i] == 0x21 {
        proof {
            lemma_digits_end_bounds(row, i + 1);
        }
        let e = digits_end(row, i + 1);
        &&& digits_value(row, i + 1, e) <= usize::MAX
        &&& if e < row.len() && is_sixel_char(row[e]) {
            repeats_fit(row, e + 1)
        } else {
            repeats_fit(row, e)
        }
    } else {
        repeats_fit(row, i + 1)
    }
}

/// Whether pixel `b` (from the top) of column `x` of a row is set.
pub open spec fn row_pixel(row: Seq<u8>, x: int, b: int) -> bool {
    let cols = row_columns_from(row, 0);
    0 <= x < cols.len() && 0 <= b < 6 && sixel_bit(cols[x], b as u32)
}

/// Whether pixel `(x, y)` of a glyph made of sixel rows `rows` (six pixels
/// high each, top to bottom) is set.
pub open spec fn glyph_pixel(rows: Seq<Seq<u8>>, x: int, y: int) -> bool {
    0 <= y && y / 6 < rows.len() && row_pixel(rows[y / 6], x, y % 6)
}

/// Bit `idx` of a bitmap, most significant bit of each byte first.
pub open spec fn bitmap_bit(bm: Seq<u8>, idx: int) -> bool {
    bm[idx / 8] & (1u8 << ((7 - idx % 8) as u32)) != 0
}

/// Whether `bm` is the `w` by `h` bitmap of the glyph `rows`: one bit per
/// pixel, row by row, padded with clear bits to whole bytes.
pub open spec fn is_glyph_bitmap(bm: Seq<u8>, rows: Seq<Seq<u8>>, w: int, h: int) -> bool {
    &&& bm.len() == (w * h + 7) / 8
    &&& forall|idx: int|
        0 <= idx < bm.len() * 8 ==> (#[trigger] bitmap_bit(bm, idx) <==> (idx < w * h
            && glyph_pixel(rows, idx % w, idx / w)))
}

/// The `w` by `h` bitmap of the glyph `rows`.
pub open spec fn glyph_bitmap(rows: Seq<Seq<u8>>, w: int, h: int) -> Seq<u8> {
    choose|bm: Seq<u8>| is_glyph_bitmap(bm, rows, w, h)
}

proof fn lemma_or_bit(b: u8, s: u32, t: u32)
    requires
        s < 8,
        t < 8,
    ensures
        ((b | (1u8 << s)) & (1u8 << t) != 0) == ((b & (1u8 << t) != 0) || s == t),
{
    assert(((b | (1u8 << s)) & (1u8 << t) != 0) == ((b & (1u8 << t) != 0) || s == t))
        by (bit_vector)
        requires
            s < 8,
            t < 8,
    ;
}

proof fn lemma_zero_bit(t: u32)
    requires
        t < 8,
    ensures
        (0u8 & (1u8 << t)) == 0,
{
    assert((0u8 & (1u8 << t)) == 0) by (bit_vector);
}

proof fn lemma_byte_by_bits(a: u8, b: u8)
    requires
        (a & (1u8 << 0u32) != 0) == (b & (1u8 << 0u32) != 0),
        (a & (1u8 << 1u32) != 0) == (b & (1u8 << 1u32) != 0),
        (a & (1u8 << 2u32) != 0) == (b & (1u8 << 2u32) != 0),
        (a & (1u8 << 3u32) != 0) == (b & (1u8 << 3u32) != 0),
        (a & (1u8 << 4u32) != 0) == (b & (1u8 << 4u32) != 0),
        (a & (1u8 << 5u32) != 0) == (b & (1u8 << 5u32) != 0),
        (a & (1u8 << 6u32) != 0) == (b & (1u8 << 6u32) != 0),
        (a & (1u8 << 7u32) != 0) == (b & (1u8 << 7u32) != 0),
    ensures
        a == b,
{
    assert(a == b) by (bit_vector)
        requires
            (a & (1u8 << 0u32) != 0) == (b & (1u8 << 0u32) != 0),
            (a & (1u8 << 1u32) != 0) == (b & (1u8 << 1u32) != 0),
            (a & (1u8 << 2u32) != 0) == (b & (1u8 << 2u32) != 0),
            (a & (1u8 << 3u32) != 0) == (b & (1u8 << 3u32) != 0),
            (a & (1u8 << 4u32) != 0) == (b & (1u8 << 4u32) != 0),
            (a & (1u8 << 5u32) != 0) == (b & (1u8 << 5u32) != 0),
            (a & (1u8 << 6u32) != 0) == (b & (1u8 << 6u32) != 0),
            (a & (1u8 << 7u32) != 0) == (b & (1u8 << 7u32) != 0),
    ;
}

/// Two bitmaps of the same glyph are the same.
proof fn lemma_glyph_bitmap_unique(a: Seq<u8>, b: Seq<u8>, rows: Seq<Seq<u8>>, w: int, h: int)
    requires
        is_glyph_bitmap(a, rows, w, h),
        is_glyph_bitmap(b, rows, w, h),
    ensures
        a == b,
{
    assert forall|k: int| 0 <= k < a.len() implies a[k] == b[k] by {
        assert(bitmap_bit(a, 8 * k) == bitmap_bit(b, 8 * k));
        assert(bitmap_bit(a, 8 * k + 1) == bitmap_bit(b, 8 * k + 1));
        assert(bitmap_bit(a, 8 * k + 2) == bitmap_bit(b, 8 * k + 2));
        assert(bitmap_bit(a, 8 * k + 3) == bitmap_bit(b, 8 * k + 3));
        assert(bitmap_bit(a, 8 * k + 4) == bitmap_bit(b, 8 * k + 4));
        assert(bitmap_bit(a, 8 * k + 5) == bitmap_bit(b, 8 * k + 5));
        assert(bitmap_bit(a, 8 * k + 6) == bitmap_bit(b, 8 * k + 6));
        assert(bitmap_bit(a, 8 * k + 7) == bitmap_bit(b, 8 * k + 7));
        lemma_byte_by_bits(a[k], b[k]);
    }
    assert(a =~= b);
}

/// The pixel at `(x, y)` of a `w`-wide bitmap has index `y * w + x`.
proof fn lemma_pixel_index(x: int, y: int, w: int, idx: int)
    requires
        0 <= x < w,
        0 <= y,
        0 <= idx,
    ensures
        (idx == y * w + x) <==> (idx % w == x && idx / w == y),
{
    vstd::arithmetic::div_mod::lemma_fundamental_div_mod(idx, w);
    if idx % w == x && idx / w == y {
        assert(idx == y * w + x) by (nonlinear_arith)
            requires
                idx == w * (idx / w) + idx % w,
                idx / w == y,
                idx % w == x,
        ;
    }
    if idx == y * w + x {
        vstd::arithmetic::div_mod::lemma_fundamental_div_mod_converse(idx, w, y, x);
    }
}

/// Draw one sixel column `val` at column `x`, six pixels from row `pixel_y`
/// down, clipped to the `w` by `h` bitmap.
fn draw_column(bitmap: &mut Vec<u8>, val: u8, x: usize, pixel_y: usize, w: usize, h: usize)
    requires
        1 <= w <= 255,
        1 <= h <= 255,
        old(bitmap)@.len() == (w * h + 7) / 8,
        pixel_y + 6 <= usize::MAX,
    ensures
        final(bitmap)@.len() == old(bitmap)@.len(),
        forall|idx: int|
            0 <= idx < old(bitmap)@.len() * 8 ==> (#[trigger] bitmap_bit(final(bitmap)@, idx) <==> (
            bitmap_bit(old(bitmap)@, idx) || (idx < w * h && idx % (w as int) == x && pixel_y
                <= idx / (w as int) < pixel_y + 6 && sixel_bit(val, (idx / (w as int) - pixel_y) as u32)))),
{
    let ghost orig = bitmap@;
    let ghost n = orig.len();
    proof {
        assert(w * h < n * 8 + 8) by (nonlinear_arith)
            requires
                n == (w * h + 7) / 8,
        ;
    }
    for bit in 0..6u32
        invariant
            1 <= w <= 255,
            1 <= h <= 255,
            pixel_y + 6 <= usize::MAX,
            n == (w * h + 7) / 8,
            bitmap@.len() == n,
            forall|idx: int|
                0 <= idx < n * 8 ==> (#[trigger] bitmap_bit(bitmap@, idx) <==> (bitmap_bit(orig, idx)
                    || (idx < w * h && idx % (w as int) == x && pixel_y <= idx / (w as int) < pixel_y + bit
                    && sixel_bit(val, (idx / (w as int) - pixel_y) as u32)))),
    {
        let ghost before = bitmap@;
        let set = val & (1u8 << bit) != 0;
        let py = pixel_y + bit as usize;
        proof {
            // Facts about the pixels of the bitmap.
            assert forall|idx: int|
                #![trigger bitmap_bit(bitmap@, idx)]
                0 <= idx < w * h implies idx / (w as int) < h && 0 <= idx % (w as int) < w by {
                vstd::arithmetic::div_mod::lemma_fundamental_div_mod(idx, w as int);
                assert(idx / (w as int) < h) by (nonlinear_arith)
                    requires
                        idx == w * (idx / (w as int)) + idx % (w as int),
                        0 <= idx % (w as int) < w,
                        idx < w * h,
                        w > 0,
                ;
            }
        }
        if set && x < w && py < h {
            proof {
                assert(py * w + x < w * h) by (nonlinear_arith)
                    requires
                        py < h,
                        x < w,
                ;
                assert(w * h <= n * 8) by (nonlinear_arith)
                    requires
                        n == (w * h + 7) / 8,
                ;
                assert(py * w <= 255 * 255) by (nonlinear_arith)
                    requires
                        py < h <= 255,
                        w <= 255,
                ;
            }
            let bit_idx = py * w + x;
            let k = bit_idx / 8;
            let s = (7 - bit_idx % 8) as u32;
            let old_b = bitmap[k];
            bitmap.set(k, old_b | (1u8 << s));
            proof {
                assert forall|idx: int| 0 <= idx < n * 8 implies (#[trigger] bitmap_bit(
                    bitmap@,
                    idx,
                ) <==> (bitmap_bit(orig, idx) || (idx < w * h && idx % (w as int) == x && pixel_y
                    <= idx / (w as int) < pixel_y + bit + 1 && sixel_bit(
                    val,
                    (idx / (w as int) - pixel_y) as u32,
                )))) by {
                    if idx / 8 == k {
                        lemma_or_bit(old_b, s, (7 - idx % 8) as u32);
                    }
                    lemma_pixel_index(x as int, py as int, w as int, idx);
                    assert(bitmap_bit(before, idx) <==> (bitmap_bit(orig, idx) || (idx < w * h
                        && idx % (w as int) == x && pixel_y <= idx / (w as int) < pixel_y + bit
                        && sixel_bit(val, (idx / (w as int) - pixel_y) as u32))));
                    if idx / (w as int) == py && idx % (w as int) == x {
                        assert((idx / (w as int) - pixel_y) as u32 == bit);
                    }
                }
            }
        } else {
            proof {
                assert forall|idx: int| 0 <= idx < n * 8 implies (#[trigger] bitmap_bit(
                    bitmap@,
                    idx,
                ) <==> (bitmap_bit(orig, idx) || (idx < w * h && idx % (w as int) == x && pixel_y
                    <= idx / (w as int) < pixel_y + bit + 1 && sixel_bit(
                    val,
                    (idx / (w as int) - pixel_y) as u32,
                )))) by {
                    assert(bitmap_bit(before, idx) <==> (bitmap_bit(orig, idx) || (idx < w * h
                        && idx % (w as int) == x && pixel_y <= idx / (w as int) < pixel_y + bit
                        && sixel_bit(val, (idx / (w as int) - pixel_y) as u32))));
                    if idx < w * h && idx / (w as int) == py {
                        assert((idx / (w as int) - pixel_y) as u32 == bit);
                    }
                }
            }
        }
    }
}


/// The bits of a bitmap after drawing `cols` as the columns of the glyph
/// row whose top is pixel row `pixel_y`, over the bits `orig`.
pub open spec fn row_drawn(orig: Seq<u8>, cols: Seq<u8>, pixel_y: int, w: int, h: int, idx: int) -> bool {
    bitmap_bit(orig, idx) || (idx < w * h && pixel_y <= idx / w < pixel_y + 6 && idx % w < cols.len()
        && sixel_bit(cols[idx % w], (idx / w - pixel_y) as u32))
}

/// Draw one column `val` as the next column `done.len()` of a row.
proof fn lemma_column_extends_row(
    orig: Seq<u8>,
    before: Seq<u8>,
    after: Seq<u8>,
    done: Seq<u8>,
    val: u8,
    pixel_y: int,
    w: int,
    h: int,
    n: int,
)
    requires
        w >= 1,
        forall|idx: int|
            0 <= idx < n * 8 ==> (#[trigger] bitmap_bit(before, idx) <==> row_drawn(
                orig,
                done,
                pixel_y,
                w,
                h,
                idx,
            )),
        forall|idx: int|
            0 <= idx < n * 8 ==> (#[trigger] bitmap_bit(after, idx) <==> (bitmap_bit(before, idx)
                || (idx < w * h && idx % w == done.len() && pixel_y <= idx / w < pixel_y + 6
                && sixel_bit(val, (idx / w - pixel_y) as u32)))),
    ensures
        forall|idx: int|
            0 <= idx < n * 8 ==> (#[trigger] bitmap_bit(after, idx) <==> row_drawn(
                orig,
                done.push(val),
                pixel_y,
                w,
                h,
                idx,
            )),
{
    assert forall|idx: int| 0 <= idx < n * 8 implies (#[trigger] bitmap_bit(after, idx) <==> row_drawn(
        orig,
        done.push(val),
        pixel_y,
        w,
        h,
        idx,
    )) by {
        assert(bitmap_bit(before, idx) <==> row_drawn(orig, done, pixel_y, w, h, idx));
        if 0 <= idx % w < done.len() {
            assert(done.push(val)[idx % w] == done[idx % w]);
        }
        if idx % w == done.len() {
            assert(done.push(val)[idx % w] == val);
        }
    }
}

/// Draw one glyph row, `data[lo..hi]`, whose top is pixel row `pixel_y`.
fn draw_row(
    data: &[u8],
    lo: usize,
    hi: usize,
    pixel_y: usize,
    w: usize,
    h: usize,
    bitmap: &mut Vec<u8>,
)
    requires
        lo <= hi <= data@.len(),
        1 <= w <= 255,
        1 <= h <= 255,
        old(bitmap)@.len() == (w * h + 7) / 8,
        pixel_y + 6 <= usize::MAX,
        repeats_fit(data@.subrange(lo as int, hi as int), 0),
        row_columns_from(data@.subrange(lo as int, hi as int), 0).len() <= usize::MAX,
    ensures
        final(bitmap)@.len() == old(bitmap)@.len(),
        forall|idx: int|
            0 <= idx < old(bitmap)@.len() * 8 ==> (#[trigger] bitmap_bit(final(bitmap)@, idx)
                <==> row_drawn(
                old(bitmap)@,
                row_columns_from(data@.subrange(lo as int, hi as int), 0),
                pixel_y as int,
                w as int,
                h as int,
                idx,
            )),
{
    let ghost row = data@.subrange(lo as int, hi as int);
    let ghost orig = bitmap@;
    let ghost n = orig.len() as int;
    let ghost mut done: Seq<u8> = Seq::empty();
    let mut pixel_x: usize = 0;
    let mut i = lo;
    proof {
        assert forall|idx: int| 0 <= idx < n * 8 implies (#[trigger] bitmap_bit(bitmap@, idx)
            <==> row_drawn(orig, done, pixel_y as int, w as int, h as int, idx)) by {}
        assert(row_columns_from(row, 0) == done + row_columns_from(row, 0));
    }
    while i < hi
        invariant
            lo <= i <= hi <= data@.len(),
            row == data@.subrange(lo as int, hi as int),
            1 <= w <= 255,
            1 <= h <= 255,
            n == (w * h + 7) / 8,
            bitmap@.len() == n,
            pixel_y + 6 <= usize::MAX,
            row_columns_from(row, 0) == done + row_columns_from(row, i - lo),
            row_columns_from(row, 0).len() <= usize::MAX,
            repeats_fit(row, i - lo),
            pixel_x == done.len(),
            forall|idx: int|
                0 <= idx < n * 8 ==> (#[trigger] bitmap_bit(bitmap@, idx) <==> row_drawn(
                    orig,
                    done,
                    pixel_y as int,
                    w as int,
                    h as int,
                    idx,
                )),
        decreases hi - i,
    {
        let ghost k = i - lo;
        let b = data[i];
        proof {
            assert(row[k] == b);
        }
        if b == 0x21 {
            // Repeat: !<count><char>
            let ghost e = digits_end(row, k + 1);
            proof {
                lemma_digits_end_bounds(row, k + 1);
            }
            let mut j = i + 1;
            let mut count: usize = 0;
            while j < hi && 0x30 <= data[j] && data[j] <= 0x39
                invariant
                    lo <= i < j <= hi <= data@.len(),
                    row == data@.subrange(lo as int, hi as int),
                    k == i - lo,
                    e == digits_end(row, k + 1),
                    k + 1 <= e <= row.len(),
                    e < row.len() ==> !is_digit(row[e]),
                    forall|m: int| k + 1 <= m < e ==> is_digit(#[trigger] row[m]),
                    forall|m: int| k + 1 <= m < j - lo ==> is_digit(#[trigger] row[m]),
                    j - lo <= e,
                    digits_value(row, k + 1, e) <= usize::MAX,
                    count == digits_value(row, k + 1, j - lo),
                decreases hi - j,
            {
                proof {
                    assert(row[j - lo] == data@[j as int]);
                    lemma_digits_value_monotone(row, k + 1, j - lo + 1, e);
                }
                count = count * 10 + (data[j] - 0x30) as usize;
                j = j + 1;
            }
            proof {
                if j < hi {
                    assert(row[j - lo] == data@[j as int]);
                }
            }
            if j < hi && 0x3F <= data[j] && data[j] <= 0x7E {
                let val = data[j] - 0x3F;
                let ghost start_done = done;
                proof {
                    assert(row[e] == data@[j as int]);
                    assert(row_columns_from(row, k) == Seq::new(
                        count as nat,
                        |m: int| (row[e] - 0x3F) as u8,
                    ) + row_columns_from(row, e + 1));
                }
                let mut c: usize = 0;
                while c < count
                    invariant
                        1 <= w <= 255,
                        1 <= h <= 255,
                        n == (w * h + 7) / 8,
                        bitmap@.len() == n,
                        pixel_y + 6 <= usize::MAX,
                        c <= count,
                        done == start_done + Seq::new(c as nat, |m: int| val),
                        start_done.len() + count <= row_columns_from(row, 0).len(),
                        row_columns_from(row, 0).len() <= usize::MAX,
                        pixel_x == done.len(),
                        forall|idx: int|
                            0 <= idx < n * 8 ==> (#[trigger] bitmap_bit(bitmap@, idx) <==> row_drawn(
                                orig,
                                done,
                                pixel_y as int,
                                w as int,
                                h as int,
                                idx,
                            )),
                    decreases count - c,
                {
                    let ghost before = bitmap@;
                    draw_column(bitmap, val, pixel_x, pixel_y, w, h);
                    proof {
                        lemma_column_extends_row(
                            orig,
                            before,
                            bitmap@,
                            done,
                            val,
                            pixel_y as int,
                            w as int,
                            h as int,
                            n,
                        );
                        assert(start_done + Seq::new((c + 1) as nat, |m: int| val) =~= done.push(val));
                        done = done.push(val);
                    }
                    pixel_x = pixel_x + 1;
                    c = c + 1;
                }
                proof {
                    assert(Seq::new(count as nat, |m: int| (row[e] - 0x3F) as u8) =~= Seq::new(
                        count as nat,
                        |m: int| val,
                    ));
                }
                i = j + 1;
            } else {
                i = j;
            }
        } else if 0x3F <= b && b <= 0x7E {
            let val = b - 0x3F;
            let ghost before = bitmap@;
            draw_column(bitmap, val, pixel_x, pixel_y, w, h);
            proof {
                lemma_column_extends_row(
                    orig,
                    before,
                    bitmap@,
                    done,
                    val,
                    pixel_y as int,
                    w as int,
                    h as int,
                    n,
                );
                assert(done + row_columns_from(row, k) =~= done.push(val) + row_columns_from(
                    row,
                    k + 1,
                ));
                done = done.push(val);
            }
            pixel_x = pixel_x + 1;
            i = i + 1;
        } else {
            i = i + 1;
        }
    }
    proof {
        assert(done + row_columns_from(row, hi - lo) =~= done);
    }
}


/// `split_bytes` yields at least one piece.
proof fn lemma_split_bytes_nonempty(s: Seq<u8>, sep: u8)
    ensures
        split_bytes(s, sep).len() >= 1,
    decreases s.len(),
{
    if s.len() > 0 {
        lemma_split_bytes_nonempty(s.drop_last(), sep);
    }
}

/// Pieces completed in a prefix stay pieces of every longer prefix.
proof fn lemma_split_prefix(s: Seq<u8>, sep: u8, i: int, j: int)
    requires
        0 <= i <= j <= s.len(),
    ensures
        split_bytes(s.take(i), sep).len() <= split_bytes(s.take(j), sep).len(),
        forall|m: int|
            0 <= m < split_bytes(s.take(i), sep).len() - 1 ==> #[trigger] split_bytes(s.take(j), sep)[m]
                == split_bytes(s.take(i), sep)[m],
    decreases j - i,
{
    if j > i {
        lemma_split_prefix(s, sep, i, j - 1);
        assert(s.take(j).drop_last() =~= s.take(j - 1));
        lemma_split_bytes_nonempty(s.take(j - 1), sep);
    }
}

/// Every row of a glyph can be drawn without overflow: the rows' pixel
/// offsets, repeat counts and column counts fit in `usize`.
pub open spec fn glyph_rows_fit(glyph: Seq<u8>) -> bool {
    let rows = split_bytes(glyph, 0x2F);
    &&& rows.len() * 6 <= usize::MAX
    &&& forall|m: int|
        0 <= m < rows.len() ==> repeats_fit(#[trigger] rows[m], 0) && row_columns_from(rows[m], 0).len()
            <= usize::MAX
}

/// A glyph as the store keeps it: its bitmap and cell size.
pub open spec fn decoded_glyph(glyph: Seq<u8>, w: u8, h: u8) -> GlyphView {
    GlyphView {
        bitmap: glyph_bitmap(split_bytes(glyph, 0x2F), w as int, h as int),
        width: w,
        height: h,
    }
}

/// The bits of a bitmap with the rows `rows` drawn.
pub open spec fn rows_drawn(rows: Seq<Seq<u8>>, w: int, h: int, idx: int) -> bool {
    idx < w * h && glyph_pixel(rows, idx % w, idx / w)
}

/// Decode the glyph `data[lo..hi]`: sixel rows separated by `/`, drawn into
/// a `w` by `h` bitmap.
fn decode_glyph(data: &[u8], lo: usize, hi: usize, cell_w: u8, cell_h: u8) -> (g: DrcsGlyph)
    requires
        lo <= hi <= data@.len(),
        glyph_rows_fit(data@.subrange(lo as int, hi as int)),
    ensures
        g@ == decoded_glyph(data@.subrange(lo as int, hi as int), cell_w, cell_h),
{
    let ghost glyph = data@.subrange(lo as int, hi as int);
    let ghost rows = split_bytes(glyph, 0x2F);
    if cell_w == 0 || cell_h == 0 {
        // A glyph without area has no pixels to draw.
        let bitmap: Vec<u8> = Vec::new();
        proof {
            assert(cell_w * cell_h == 0) by (nonlinear_arith)
                requires
                    cell_w == 0 || cell_h == 0,
            ;
            assert(is_glyph_bitmap(bitmap@, rows, cell_w as int, cell_h as int));
            lemma_glyph_bitmap_unique(
                bitmap@,
                glyph_bitmap(rows, cell_w as int, cell_h as int),
                rows,
                cell_w as int,
                cell_h as int,
            );
        }
        return DrcsGlyph { bitmap, width: cell_w, height: cell_h };
    }
    let w = cell_w as usize;
    let h = cell_h as usize;
    proof {
        assert(w * h <= 255 * 255) by (nonlinear_arith)
            requires
                w <= 255,
                h <= 255,
        ;
    }
    let n = (w * h + 7) / 8;
    let mut bitmap: Vec<u8> = vec![0u8; n];
    let mut pixel_y: usize = 0;
    let mut start = lo;
    let mut i = lo;
    let ghost mut done: Seq<Seq<u8>> = Seq::empty();
    proof {
        assert forall|idx: int| 0 <= idx < n * 8 implies (#[trigger] bitmap_bit(bitmap@, idx)
            <==> rows_drawn(done, w as int, h as int, idx)) by {
            assert(bitmap@[idx / 8] == 0u8);
            lemma_zero_bit((7 - idx % 8) as u32);
        }
        assert(glyph.take(0) =~= Seq::<u8>::empty());
        assert(data@.subrange(lo as int, lo as int) =~= Seq::<u8>::empty());
        assert(done.push(data@.subrange(lo as int, lo as int)) =~= seq![Seq::<u8>::empty()]);
    }
    while i < hi
        invariant
            lo <= start <= i <= hi <= data@.len(),
            glyph == data@.subrange(lo as int, hi as int),
            rows == split_bytes(glyph, 0x2F),
            glyph_rows_fit(glyph),
            w == cell_w,
            h == cell_h,
            1 <= w <= 255,
            1 <= h <= 255,
            n == (w * h + 7) / 8,
            bitmap@.len() == n,
            pixel_y == 6 * done.len(),
            split_bytes(glyph.take(i - lo), 0x2F) == done.push(data@.subrange(start as int, i as int)),
            forall|idx: int|
                0 <= idx < n * 8 ==> (#[trigger] bitmap_bit(bitmap@, idx) <==> rows_drawn(
                    done,
                    w as int,
                    h as int,
                    idx,
                )),
        decreases hi - i,
    {
        proof {
            assert(glyph.take(i - lo + 1).drop_last() =~= glyph.take(i - lo));
            assert(glyph.take(i - lo + 1).last() == data@[i as int]);
        }
        if data[i] == 0x2F {
            let ghost piece = data@.subrange(start as int, i as int);
            proof {
                lemma_split_prefix(glyph, 0x2F, i - lo + 1, hi - lo);
                assert(glyph.take(hi - lo) =~= glyph);
                assert(split_bytes(glyph.take(i - lo + 1), 0x2F) == done.push(piece).push(
                    Seq::empty(),
                ));
                assert(rows[done.len() as int] == piece);
                assert(rows.len() >= done.len() + 2);
            }
            let ghost before = bitmap@;
            draw_row(data, start, i, pixel_y, w, h, &mut bitmap);
            proof {
                lemma_row_extends_glyph(before, bitmap@, done, piece, w as int, h as int, n as int);
                assert(data@.subrange(i + 1, i + 1) =~= Seq::<u8>::empty());
                done = done.push(piece);
            }
            pixel_y = pixel_y + 6;
            start = i + 1;
        } else {
            proof {
                let prev = done.push(data@.subrange(start as int, i as int));
                assert(data@.subrange(start as int, i as int).push(data@[i as int])
                    =~= data@.subrange(start as int, i + 1));
                assert(prev.update(prev.len() - 1, prev.last().push(data@[i as int])) =~= done.push(
                    data@.subrange(start as int, i + 1),
                ));
            }
        }
        i = i + 1;
    }
    let ghost piece = data@.subrange(start as int, hi as int);
    proof {
        assert(glyph.take(hi - lo) =~= glyph);
        assert(rows == done.push(piece));
        assert(rows[done.len() as int] == piece);
    }
    let ghost before = bitmap@;
    draw_row(data, start, hi, pixel_y, w, h, &mut bitmap);
    proof {
        lemma_row_extends_glyph(before, bitmap@, done, piece, w as int, h as int, n as int);
        assert(is_glyph_bitmap(bitmap@, rows, w as int, h as int));
        lemma_glyph_bitmap_unique(
            bitmap@,
            glyph_bitmap(rows, w as int, h as int),
            rows,
            w as int,
            h as int,
        );
    }
    DrcsGlyph { bitmap, width: cell_w, height: cell_h }
}

/// Drawing the next row of a glyph adds its pixels to those of the rows
/// before it.
proof fn lemma_row_extends_glyph(
    before: Seq<u8>,
    after: Seq<u8>,
    done: Seq<Seq<u8>>,
    piece: Seq<u8>,
    w: int,
    h: int,
    n: int,
)
    requires
        w >= 1,
        forall|idx: int|
            0 <= idx < n * 8 ==> (#[trigger] bitmap_bit(before, idx) <==> rows_drawn(done, w, h, idx)),
        forall|idx: int|
            0 <= idx < n * 8 ==> (#[trigger] bitmap_bit(after, idx) <==> row_drawn(
                before,
                row_columns_from(piece, 0),
                6 * (done.len() as int),
                w,
                h,
                idx,
            )),
    ensures
        forall|idx: int|
            0 <= idx < n * 8 ==> (#[trigger] bitmap_bit(after, idx) <==> rows_drawn(
                done.push(piece),
                w,
                h,
                idx,
            )),
{
    assert forall|idx: int| 0 <= idx < n * 8 implies (#[trigger] bitmap_bit(after, idx) <==> rows_drawn(
        done.push(piece),
        w,
        h,
        idx,
    )) by {
        assert(bitmap_bit(before, idx) <==> rows_drawn(done, w, h, idx));
        let y = idx / w;
        let x = idx % w;
        let r = done.len() as int;
        if 0 <= y && y / 6 < r {
            assert(done.push(piece)[y / 6] == done[y / 6]);
        }
        if 6 * r <= y < 6 * r + 6 {
            assert(y / 6 == r);
            assert(y % 6 == y - 6 * r);
            assert(done.push(piece)[r] == piece);
        }
    }
}


/// Every glyph of a DECDLD body can be decoded without overflow.
pub open spec fn decdld_fits(data: Seq<u8>) -> bool {
    forall|m: int|
        0 <= m < split_bytes(data, 0x3B).len() ==> glyph_rows_fit(
            #[trigger] split_bytes(data, 0x3B)[m],
        )
}

/// The store after loading the glyphs `gs` (in order, the first defining
/// the header's start character and each next one the character after it,
/// wrapping past 255); an empty glyph leaves its character as it was.
pub open spec fn glyphs_loaded(
    store: Map<u16, GlyphView>,
    hd: DecdldHeader,
    gs: Seq<Seq<u8>>,
) -> Map<u16, GlyphView>
    decreases gs.len(),
{
    if gs.len() == 0 {
        store
    } else {
        let prev = glyphs_loaded(store, hd, gs.drop_last());
        let code = ((hd.start_char + gs.len() - 1) % 256) as u8;
        if gs.last().len() == 0 {
            prev
        } else {
            prev.insert(
                glyph_key(hd.font_number, code),
                decoded_glyph(gs.last(), hd.cell_width, hd.cell_height),
            )
        }
    }
}

/// The store after the body of a DECDLD sequence: its `;`-separated glyphs
/// loaded into the header's font.
pub open spec fn decdld_loaded(store: Map<u16, GlyphView>, hd: DecdldHeader, data: Seq<u8>) -> Map<
    u16,
    GlyphView,
> {
    glyphs_loaded(store, hd, split_bytes(data, 0x3B))
}

/// Load the glyph `data[lo..hi]` as character `code`, unless it is empty.
fn load_glyph(
    hd: &DecdldHeader,
    data: &[u8],
    lo: usize,
    hi: usize,
    code: u8,
    store: &mut DrcsFontStore,
)
    requires
        lo <= hi <= data@.len(),
        glyph_rows_fit(data@.subrange(lo as int, hi as int)),
    ensures
        final(store)@ == if lo == hi {
            old(store)@
        } else {
            old(store)@.insert(
                glyph_key(hd.font_number, code),
                decoded_glyph(data@.subrange(lo as int, hi as int), hd.cell_width, hd.cell_height),
            )
        },
{
    if lo < hi {
        let glyph = decode_glyph(data, lo, hi, hd.cell_width, hd.cell_height);
        store.set_glyph(hd.font_number, code, glyph);
    }
}

/// Load the body of a DECDLD sequence (what follows `{` up to the string
/// terminator): glyphs separated by `;`, each made of sixel rows separated
/// by `/`, defining consecutive characters of the header's font.
pub fn load_decdld_glyphs(hd: &DecdldHeader, data: &[u8], store: &mut DrcsFontStore)
    requires
        decdld_fits(data@),
    ensures
        final(store)@ == decdld_loaded(old(store)@, *hd, data@),
{
    let ghost gs = split_bytes(data@, 0x3B);
    let n = data.len();
    let mut char_code: u8 = hd.start_char;
    let mut start: usize = 0;
    let mut i: usize = 0;
    let ghost mut done: Seq<Seq<u8>> = Seq::empty();
    proof {
        assert(data@.take(0) =~= Seq::<u8>::empty());
        assert(data@.subrange(0, 0) =~= Seq::<u8>::empty());
        assert(done.push(data@.subrange(0, 0)) =~= seq![Seq::<u8>::empty()]);
        assert(data@.take(n as int) =~= data@);
    }
    while i < n
        invariant
            n == data@.len(),
            gs == split_bytes(data@, 0x3B),
            data@.take(n as int) == data@,
            decdld_fits(data@),
            start <= i <= n,
            split_bytes(data@.take(i as int), 0x3B) == done.push(
                data@.subrange(start as int, i as int),
            ),
            char_code == ((hd.start_char + done.len()) % 256) as u8,
            store@ == glyphs_loaded(old(store)@, *hd, done),
        decreases n - i,
    {
        proof {
            assert(data@.take(i + 1).drop_last() =~= data@.take(i as int));
            assert(data@.take(i + 1).last() == data@[i as int]);
        }
        if data[i] == 0x3B {
            let ghost piece = data@.subrange(start as int, i as int);
            proof {
                lemma_split_prefix(data@, 0x3B, i + 1, n as int);
                assert(split_bytes(data@.take(i + 1), 0x3B) == done.push(piece).push(Seq::empty()));
                assert(gs[done.len() as int] == piece);
            }
            load_glyph(hd, data, start, i, char_code, store);
            proof {
                assert(done.push(piece).drop_last() =~= done);
                done = done.push(piece);
                assert(data@.subrange(i + 1, i + 1) =~= Seq::<u8>::empty());
            }
            char_code = if char_code == 255 {
                0
            } else {
                char_code + 1
            };
            start = i + 1;
        } else {
            proof {
                let prev = done.push(data@.subrange(start as int, i as int));
                assert(data@.subrange(start as int, i as int).push(data@[i as int])
                    =~= data@.subrange(start as int, i + 1));
                assert(prev.update(prev.len() - 1, prev.last().push(data@[i as int])) =~= done.push(
                    data@.subrange(start as int, i + 1),
                ));
            }
        }
        i = i + 1;
    }
    let ghost piece = data@.subrange(start as int, n as int);
    proof {
        assert(gs == done.push(piece));
        assert(gs[done.len() as int] == piece);
    }
    load_glyph(hd, data, start, n, char_code, store);
    proof {
        assert(done.push(piece).drop_last() =~= done);
    }
}

/// The DECDLD header `Pfn;Pcn;Pe;Pcmw;Pss;Pt;Pcmh;Pcss`: the font is the
/// first parameter (at most 3), the first character the second (at most
/// 95), erase control the third (at most 2), the cell width the fourth and
/// the cell height the seventh (taken modulo 256, 10 by 20 when 0).
pub proof fn lemma_decdld_header_fields(p: Seq<u16>)
    ensures
        ({
            let hd = decdld_header(p);
            let at = |i: int| if i < p.len() { p[i] as int } else { 0int };
            &&& hd.font_number == (if at(0) > 3 { 3 } else { at(0) })
            &&& hd.start_char == (if at(1) > 95 { 95 } else { at(1) })
            &&& hd.erase_control == (if at(2) > 2 { 2 } else { at(2) })
            &&& hd.cell_width == (if at(3) % 256 == 0 { 10 } else { at(3) % 256 })
            &&& hd.cell_height == (if at(6) % 256 == 0 { 20 } else { at(6) % 256 })
        }),
{
    let w = param_or_zero(p, 3);
    let h = param_or_zero(p, 6);
    assert(w as u8 == w % 256) by (bit_vector);
    assert(h as u8 == h % 256) by (bit_vector);
}

/// A glyph row draws one column per sixel character, the character less
/// 0x3F giving its six pixels (bit 0 at the top); `!n` before a sixel
/// character repeats it `n` times.
pub proof fn lemma_glyph_row_columns(c: u8, d: u8)
    requires
        0x3F <= c <= 0x7E,
        0x3F <= d <= 0x7E,
    ensures
        row_columns_from(seq![c, d], 0) == seq![(c - 0x3F) as u8, (d - 0x3F) as u8],
        row_columns_from(seq![0x21u8, 0x33u8, c], 0) == seq![
            (c - 0x3F) as u8,
            (c - 0x3F) as u8,
            (c - 0x3F) as u8,
        ],
{
    let r = seq![c, d];
    assert(row_columns_from(r, 2) == Seq::<u8>::empty());
    assert(row_columns_from(r, 1) =~= seq![(d - 0x3F) as u8]);
    assert(row_columns_from(r, 0) =~= seq![(c - 0x3F) as u8, (d - 0x3F) as u8]);
    let q = seq![0x21u8, 0x33u8, c];
    lemma_digits_end_bounds(q, 1);
    assert(digits_end(q, 3) == 3);
    assert(digits_end(q, 2) == 2);
    assert(digits_end(q, 1) == 2);
    assert(digits_value(q, 1, 1) == 0);
    assert(digits_value(q, 1, 2) == 3);
    assert(row_columns_from(q, 3) == Seq::<u8>::empty());
    assert(row_columns_from(q, 0) =~= seq![(c - 0x3F) as u8, (c - 0x3F) as u8, (c - 0x3F) as u8]);
}

} // verus!
