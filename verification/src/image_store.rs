//! Decoded images and their placements on the terminal grid.

use std::collections::HashMap;
use vstd::prelude::*;

verus! {

broadcast use vstd::std_specs::hash::group_hash_axioms;

/// A decoded terminal image (RGBA pixel data).
#[derive(Debug, Clone)]
pub struct TerminalImage {
    /// Unique image ID (assigned by protocol or auto-generated).
    pub id: u32,
    /// RGBA pixel data (4 bytes per pixel).
    pub data: Vec<u8>,
    /// Image width in pixels.
    pub width: u32,
    /// Image height in pixels.
    pub height: u32,
}

/// Where an image is placed on the terminal grid.
#[derive(Debug, Clone, Copy)]
pub struct ImagePlacement {
    /// Image ID this placement refers to.
    pub image_id: u32,
    /// Column position (0-based).
    pub col: usize,
    /// Row position (signed: negative means partially scrolled off the top).
    pub row: isize,
    /// How many cell columns the image spans.
    pub cell_cols: usize,
    /// How many cell rows the image spans.
    pub cell_rows: usize,
    /// Source image width in pixels (for scaling).
    pub src_width: u32,
    /// Source image height in pixels (for scaling).
    pub src_height: u32,
}

/// Intermediate decoded image before storing.
pub struct DecodedImage {
    pub data: Vec<u8>,
    pub width: u32,
    pub height: u32,
}

/// A decoded image as plain values.
pub struct ImageView {
    pub id: u32,
    pub data: Seq<u8>,
    pub width: u32,
    pub height: u32,
}

impl View for TerminalImage {
    type V = ImageView;

    open spec fn view(&self) -> ImageView {
        ImageView { id: self.id, data: self.data@, width: self.width, height: self.height }
    }
}

/// The contents of an image store.
pub struct ImageStoreView {
    /// The stored images, by ID.
    pub images: Map<u32, ImageView>,
    /// The active placements, oldest first.
    pub placements: Seq<ImagePlacement>,
    /// The ID the next call of `next_id` hands out.
    pub next_id: u32,
    /// Cell size in pixels.
    pub cell_width: u32,
    pub cell_height: u32,
    /// Whether the renderer has changes to pick up.
    pub dirty: bool,
}

impl ImageStoreView {
    /// The pending ID and the cell size are never zero.
    pub open spec fn wf(self) -> bool {
        &&& self.next_id >= 1
        &&& self.cell_width >= 1
        &&& self.cell_height >= 1
    }

    /// After handing out the pending ID.
    pub open spec fn id_taken(self) -> Self {
        ImageStoreView { next_id: following_id(self.next_id), ..self }
    }

    /// After storing `img` under its ID (replacing any image with that ID).
    pub open spec fn stored(self, img: ImageView) -> Self {
        ImageStoreView { images: self.images.insert(img.id, img), dirty: true, ..self }
    }

    /// After adding placement `p`.
    pub open spec fn placed(self, p: ImagePlacement) -> Self {
        ImageStoreView {
            placements: self.placements.push(
                normalized_placement(p, self.cell_width, self.cell_height),
            ),
            dirty: true,
            ..self
        }
    }

    /// After deleting image `id` and its placements.
    pub open spec fn image_deleted(self, id: u32) -> Self {
        ImageStoreView {
            images: self.images.remove(id),
            placements: self.placements.filter(|p: ImagePlacement| p.image_id != id),
            dirty: true,
            ..self
        }
    }

    /// After deleting every image and placement.
    pub open spec fn cleared(self) -> Self {
        ImageStoreView {
            images: Map::empty(),
            placements: Seq::empty(),
            dirty: true,
            ..self
        }
    }

    /// After the screen scrolled up by `lines` rows.
    pub open spec fn scrolled(self, lines: usize) -> Self {
        if lines == 0 || self.placements.len() == 0 {
            self
        } else {
            let ps = scrolled_placements(self.placements, lines as int);
            ImageStoreView {
                images: self.images.restrict(placed_ids(ps)),
                placements: ps,
                dirty: true,
                ..self
            }
        }
    }

    /// After capping the newest placement at `max_cols` by `max_rows` cells.
    pub open spec fn capped(self, max_cols: usize, max_rows: usize) -> Self {
        if self.placements.len() == 0 {
            self
        } else {
            let last = self.placements.last();
            ImageStoreView {
                placements: self.placements.update(
                    self.placements.len() - 1,
                    ImagePlacement {
                        cell_cols: if last.cell_cols > max_cols {
                            max_cols
                        } else {
                            last.cell_cols
                        },
                        cell_rows: if last.cell_rows > max_rows {
                            max_rows
                        } else {
                            last.cell_rows
                        },
                        ..last
                    },
                ),
                ..self
            }
        }
    }
}

/// The store a new store starts as.
pub open spec fn empty_store() -> ImageStoreView {
    ImageStoreView {
        images: Map::empty(),
        placements: Seq::empty(),
        next_id: 1,
        cell_width: 8,
        cell_height: 16,
        dirty: false,
    }
}

/// The contents of a map of images.
pub open spec fn image_views(m: Map<u32, TerminalImage>) -> Map<u32, ImageView> {
    m.map_values(|img: TerminalImage| img@)
}

/// Number of cells of `cell_px` pixels needed to cover `px` pixels.
pub open spec fn cells_for(px: u32, cell_px: u32) -> int {
    (px + cell_px - 1) / (cell_px as int)
}

/// The placement as it is stored: missing spans are computed from the
/// source pixel size, and every span is at least one cell.
pub open spec fn normalized_placement(p: ImagePlacement, cell_w: u32, cell_h: u32) -> ImagePlacement {
    let cols = if p.cell_cols == 0 && p.src_width > 0 {
        cells_for(p.src_width, cell_w)
    } else {
        p.cell_cols as int
    };
    let rows = if p.cell_rows == 0 && p.src_height > 0 {
        cells_for(p.src_height, cell_h)
    } else {
        p.cell_rows as int
    };
    ImagePlacement {
        cell_cols: (if cols < 1 { 1 } else { cols }) as usize,
        cell_rows: (if rows < 1 { 1 } else { rows }) as usize,
        ..p
    }
}

/// The placement after the screen scrolled up by `lines` rows.
pub open spec fn shifted_placement(p: ImagePlacement, lines: int) -> ImagePlacement {
    ImagePlacement { row: (p.row - lines) as isize, ..p }
}

/// A placement is still (partly) on screen when its bottom edge is below the top.
pub open spec fn placement_visible(p: ImagePlacement) -> bool {
    p.row + p.cell_rows > 0
}

/// Whether some placement in `ps` refers to image `id`.
pub open spec fn is_placed(ps: Seq<ImagePlacement>, id: u32) -> bool {
    exists|i: int| 0 <= i < ps.len() && (#[trigger] ps[i]).image_id == id
}

/// The IDs referred to by the placements in `ps`.
pub open spec fn placed_ids(ps: Seq<ImagePlacement>) -> Set<u32> {
    Set::new(|id: u32| is_placed(ps, id))
}

/// The placements that survive a scroll of `lines` rows.
pub open spec fn scrolled_placements(ps: Seq<ImagePlacement>, lines: int) -> Seq<ImagePlacement> {
    ps.map_values(|p: ImagePlacement| shifted_placement(p, lines)).filter(
        |p: ImagePlacement| placement_visible(p),
    )
}

/// Whether shifting every placement up by `lines` rows stays within `isize`.
pub open spec fn scroll_fits(ps: Seq<ImagePlacement>, lines: usize) -> bool {
    &&& lines <= isize::MAX
    &&& forall|i: int|
        0 <= i < ps.len() ==> {
            &&& isize::MIN <= #[trigger] ps[i].row - lines
            &&& ps[i].cell_rows <= isize::MAX
            &&& ps[i].row - lines + ps[i].cell_rows <= isize::MAX
        }
}

/// The ID that follows `id` when IDs are handed out: it wraps past `u32::MAX`
/// and never yields 0.
pub open spec fn following_id(id: u32) -> u32 {
    if id == u32::MAX {
        1
    } else {
        (id + 1) as u32
    }
}

/// Rounding a division up never exceeds the dividend.
proof fn lemma_ceil_div_bound(x: int, c: int)
    requires
        x >= 0,
        c >= 1,
    ensures
        0 <= (x + c - 1) / c <= x,
{
    assert(0 <= (x + c - 1) / c <= x) by (nonlinear_arith)
        requires
            x >= 0,
            c >= 1,
    ;
}

/// Central store for decoded images and their placements.
pub struct ImageStore {
    images: HashMap<u32, TerminalImage>,
    next_id: u32,
    /// Active placements on the current screen.
    placements: Vec<ImagePlacement>,
    /// Cell dimensions (set by the application; used to compute cell_cols/cell_rows).
    cell_width_px: u32,
    cell_height_px: u32,
    /// Dirty flag: set when images/placements change and the renderer needs to update.
    dirty: bool,
}

impl View for ImageStore {
    type V = ImageStoreView;

    closed spec fn view(&self) -> ImageStoreView {
        ImageStoreView {
            images: image_views(self.images@),
            placements: self.placements@,
            next_id: self.next_id,
            cell_width: self.cell_width_px,
            cell_height: self.cell_height_px,
            dirty: self.dirty,
        }
    }
}

impl ImageStore {
    pub fn new() -> (s: Self)
        ensures
            s@ == empty_store(),
    {
        let s = Self {
            images: HashMap::new(),
            next_id: 1,
            placements: Vec::new(),
            cell_width_px: 8,
            cell_height_px: 16,
            dirty: false,
        };
        proof {
            assert(image_views(s.images@) =~= Map::<u32, ImageView>::empty());
        }
        s
    }

    /// Set the cell dimensions (in pixels) used for computing placement cell spans.
    /// A zero dimension leaves the current one in place.
    pub fn set_cell_size(&mut self, width: u32, height: u32)
        ensures
            final(self)@ == (ImageStoreView {
                cell_width: if width > 0 { width } else { old(self)@.cell_width },
                cell_height: if height > 0 { height } else { old(self)@.cell_height },
                ..old(self)@
            }),
    {
        if width > 0 {
            self.cell_width_px = width;
        }
        if height > 0 {
            self.cell_height_px = height;
        }
    }

    /// Allocate the next auto-generated image ID.
    pub fn next_id(&mut self) -> (id: u32)
        requires
            old(self)@.wf(),
        ensures
            id == old(self)@.next_id,
            id >= 1,
            final(self)@ == old(self)@.id_taken(),
    {
        let id = self.next_id;
        let following = self.next_id.wrapping_add(1);
        self.next_id = if following < 1 { 1 } else { following };
        id
    }

    /// Store a decoded image. If an image with the same ID already exists, it is replaced.
    pub fn store_image(&mut self, image: TerminalImage)
        ensures
            final(self)@ == old(self)@.stored(image@),
    {
        let ghost v = image@;
        self.images.insert(image.id, image);
        self.dirty = true;
        proof {
            assert(image_views(self.images@) =~= old(self)@.images.insert(v.id, v));
        }
    }

    /// Get an image by ID.
    pub fn get_image(&self, id: u32) -> (r: Option<&TerminalImage>)
        ensures
            match r {
                Some(img) => self@.images.contains_key(id) && img@ == self@.images[id],
                None => !self@.images.contains_key(id),
            },
    {
        self.images.get(&id)
    }

    /// Add a placement. Computes cell_cols/cell_rows from pixel dimensions if not provided.
    pub fn add_placement(&mut self, placement: ImagePlacement)
        requires
            old(self)@.wf(),
        ensures
            final(self)@ == old(self)@.placed(placement),
    {
        let mut placement = placement;
        if placement.cell_cols == 0 && placement.src_width > 0 {
            let cw = self.cell_width_px as u64;
            let x = placement.src_width as u64;
            proof {
                lemma_ceil_div_bound(x as int, cw as int);
            }
            placement.cell_cols = ((x + cw - 1) / cw) as usize;
        }
        if placement.cell_rows == 0 && placement.src_height > 0 {
            let ch = self.cell_height_px as u64;
            let y = placement.src_height as u64;
            proof {
                lemma_ceil_div_bound(y as int, ch as int);
            }
            placement.cell_rows = ((y + ch - 1) / ch) as usize;
        }
        // Ensure at least 1x1 cell.
        if placement.cell_cols < 1 {
            placement.cell_cols = 1;
        }
        if placement.cell_rows < 1 {
            placement.cell_rows = 1;
        }
        self.placements.push(placement);
        self.dirty = true;
    }

    /// Delete an image and all its placements by ID.
    pub fn delete_image(&mut self, id: u32)
        ensures
            final(self)@ == old(self)@.image_deleted(id),
    {
        self.images.remove(&id);
        let ghost pred = |p: ImagePlacement| p.image_id != id;
        let ghost orig = self.placements@;
        let mut kept: Vec<ImagePlacement> = Vec::new();
        let n = self.placements.len();
        for i in 0..n
            invariant
                n == orig.len(),
                self.placements@ == orig,
                pred == (|p: ImagePlacement| p.image_id != id),
                kept@ == orig.take(i as int).filter(pred),
        {
            proof {
                reveal_with_fuel(Seq::<_>::filter, 1);
                assert(orig.take(i + 1).drop_last() =~= orig.take(i as int));
            }
            let p = self.placements[i];
            proof {
                assert(orig.take(i + 1).last() == p);
            }
            if p.image_id != id {
                kept.push(p);
            }
        }
        proof {
            assert(orig.take(n as int) =~= orig);
        }
        self.placements = kept;
        self.dirty = true;
        proof {
            assert(image_views(self.images@) =~= old(self)@.images.remove(id));
        }
    }

    /// Delete all images and placements.
    pub fn delete_all(&mut self)
        ensures
            final(self)@ == old(self)@.cleared(),
    {
        self.images.clear();
        self.placements.clear();
        self.dirty = true;
        proof {
            assert(image_views(self.images@) =~= Map::<u32, ImageView>::empty());
        }
    }

    /// Get all current placements.
    pub fn placements(&self) -> (r: &[ImagePlacement])
        ensures
            r@ == self@.placements,
    {
        self.placements.as_slice()
    }

    /// Get all stored images.
    pub fn images(&self) -> (r: &HashMap<u32, TerminalImage>)
        ensures
            image_views(r@) == self@.images,
    {
        &self.images
    }

    /// Check and clear the dirty flag.
    pub fn take_dirty(&mut self) -> (was_dirty: bool)
        ensures
            was_dirty == old(self)@.dirty,
            final(self)@ == (ImageStoreView { dirty: false, ..old(self)@ }),
    {
        let was_dirty = self.dirty;
        self.dirty = false;
        was_dirty
    }

    /// Check if there are any placements.
    pub fn has_placements(&self) -> (r: bool)
        ensures
            r == (self@.placements.len() > 0),
    {
        !self.placements.is_empty()
    }

    /// Adjust all image placements when the terminal scrolls up by `lines` rows.
    ///
    /// Shifts all placement rows up and removes images that have fully scrolled
    /// off the top of the screen.  Also garbage-collects images that no longer
    /// have any placements.
    pub fn scroll_up(&mut self, lines: usize)
        requires
            lines == 0 || old(self)@.placements.len() == 0 || scroll_fits(old(self)@.placements, lines),
        ensures
            final(self)@ == old(self)@.scrolled(lines),
    {
        if lines == 0 || self.placements.is_empty() {
            return;
        }
        let shift = lines as isize;
        let ghost orig = self.placements@;
        let ghost shifted = orig.map_values(|p: ImagePlacement| shifted_placement(p, lines as int));
        let ghost pred = |p: ImagePlacement| placement_visible(p);
        // Shift all placement rows up (row can go negative = scrolled off top)
        // and keep those whose bottom edge is still below the screen top.
        let mut kept: Vec<ImagePlacement> = Vec::new();
        let n = self.placements.len();
        for i in 0..n
            invariant
                n == orig.len(),
                self.placements@ == orig,
                shift == lines,
                scroll_fits(orig, lines),
                shifted == orig.map_values(|p: ImagePlacement| shifted_placement(p, lines as int)),
                pred == (|p: ImagePlacement| placement_visible(p)),
                kept@ == shifted.take(i as int).filter(pred),
        {
            proof {
                reveal_with_fuel(Seq::<_>::filter, 1);
                assert(shifted.take(i + 1).drop_last() =~= shifted.take(i as int));
                assert(shifted[i as int] == shifted_placement(orig[i as int], lines as int));
            }
            let mut p = self.placements[i];
            p.row = p.row - shift;
            if p.row + p.cell_rows as isize > 0 {
                kept.push(p);
            }
        }
        proof {
            assert(shifted.take(n as int) =~= shifted);
        }
        self.placements = kept;
        // Garbage-collect images that no longer have any placements.
        self.retain_placed_images();
        self.dirty = true;
    }

    /// Drop every image that no placement refers to.
    fn retain_placed_images(&mut self)
        ensures
            final(self)@ == (ImageStoreView {
                images: old(self)@.images.restrict(placed_ids(old(self)@.placements)),
                ..old(self)@
            }),
    {
        let ghost orig = self.images@;
        let ghost ps = self.placements@;
        let mut placed: HashMap<u32, TerminalImage> = HashMap::new();
        let mut rest: HashMap<u32, TerminalImage> = HashMap::new();
        std::mem::swap(&mut rest, &mut self.images);
        let n = self.placements.len();
        for i in 0..n
            invariant
                n == ps.len(),
                self.placements@ == ps,
                placed@ == orig.restrict(placed_ids(ps.take(i as int))),
                rest@ == orig.remove_keys(placed_ids(ps.take(i as int))),
        {
            let id = self.placements[i].image_id;
            proof {
                assert forall|k: u32|
                    placed_ids(ps.take(i + 1)).contains(k) <==> placed_ids(ps.take(i as int)).contains(
                        k,
                    ) || k == id by {
                    if placed_ids(ps.take(i + 1)).contains(k) {
                        let j = choose|j: int|
                            0 <= j < ps.take(i + 1).len() && (#[trigger] ps.take(i + 1)[j]).image_id
                                == k;
                        if j < i {
                            assert(ps.take(i as int)[j] == ps.take(i + 1)[j]);
                        }
                    }
                    if placed_ids(ps.take(i as int)).contains(k) {
                        let j = choose|j: int|
                            0 <= j < ps.take(i as int).len() && (#[trigger] ps.take(
                                i as int,
                            )[j]).image_id == k;
                        assert(ps.take(i + 1)[j] == ps.take(i as int)[j]);
                    }
                    if k == id {
                        assert(ps.take(i + 1)[i as int].image_id == id);
                    }
                }
            }
            match rest.remove(&id) {
                Some(img) => {
                    placed.insert(id, img);
                },
                None => {},
            }
            proof {
                assert(placed@ =~= orig.restrict(placed_ids(ps.take(i + 1))));
                assert(rest@ =~= orig.remove_keys(placed_ids(ps.take(i + 1))));
            }
        }
        proof {
            assert(ps.take(n as int) =~= ps);
        }
        self.images = placed;
        proof {
            assert(image_views(self.images@) =~= image_views(orig).restrict(placed_ids(ps)));
        }
    }

    /// Limit image placement size to fit within the visible terminal grid.
    ///
    /// Called after computing cell_cols/cell_rows so images don't extend
    /// beyond the terminal dimensions.
    pub fn cap_placement_size(&mut self, max_cols: usize, max_rows: usize)
        ensures
            final(self)@ == old(self)@.capped(max_cols, max_rows),
    {
        let n = self.placements.len();
        if n > 0 {
            let mut p = self.placements[n - 1];
            if p.cell_cols > max_cols {
                p.cell_cols = max_cols;
            }
            if p.cell_rows > max_rows {
                p.cell_rows = max_rows;
            }
            self.placements.set(n - 1, p);
        }
    }
}

impl Default for ImageStore {
    fn default() -> (s: Self)
        ensures
            s@ == empty_store(),
    {
        Self::new()
    }
}

/// The PNG file signature.
pub open spec fn png_signature() -> Seq<u8> {
    seq![0x89u8, 0x50u8, 0x4Eu8, 0x47u8, 0x0Du8, 0x0Au8, 0x1Au8, 0x0Au8]
}

/// Whether `data` starts with the PNG signature.
pub open spec fn png_header(data: Seq<u8>) -> bool {
    data.len() >= 8 && data.subrange(0, 8) == png_signature()
}

/// Whether `data` starts with the JPEG start-of-image marker.
pub open spec fn jpeg_header(data: Seq<u8>) -> bool {
    data.len() >= 2 && data[0] == 0xFF && data[1] == 0xD8
}

/// Check if data starts with PNG magic bytes.
pub fn is_png(data: &[u8]) -> (r: bool)
    ensures
        r == png_header(data@),
{
    let r = data.len() >= 8 && data[0] == 0x89 && data[1] == 0x50 && data[2] == 0x4E && data[3]
        == 0x47 && data[4] == 0x0D && data[5] == 0x0A && data[6] == 0x1A && data[7] == 0x0A;
    proof {
        if data@.len() >= 8 {
            if data@.subrange(0, 8) == png_signature() {
                assert(data@.subrange(0, 8)[1] == data@[1]);
                assert(data@.subrange(0, 8)[2] == data@[2]);
                assert(data@.subrange(0, 8)[3] == data@[3]);
                assert(data@.subrange(0, 8)[4] == data@[4]);
                assert(data@.subrange(0, 8)[5] == data@[5]);
                assert(data@.subrange(0, 8)[6] == data@[6]);
                assert(data@.subrange(0, 8)[7] == data@[7]);
                assert(data@.subrange(0, 8)[0] == data@[0]);
            }
            if r {
                assert(data@.subrange(0, 8) =~= png_signature());
            }
        }
    }
    r
}

/// Check if data starts with JPEG magic bytes.
pub fn is_jpeg(data: &[u8]) -> (r: bool)
    ensures
        r == jpeg_header(data@),
{
    data.len() >= 2 && data[0] == 0xFF && data[1] == 0xD8
}

/// What the `image` crate decodes a PNG file to: RGBA8 pixels, width, height.
pub uninterp spec fn png_decoding(data: Seq<u8>) -> Option<(Seq<u8>, u32, u32)>;

/// What the `image` crate decodes a JPEG file to: RGBA8 pixels, width, height.
pub uninterp spec fn jpeg_decoding(data: Seq<u8>) -> Option<(Seq<u8>, u32, u32)>;

/// The decoded image as plain values.
pub open spec fn decoded_parts(d: DecodedImage) -> (Seq<u8>, u32, u32) {
    (d.data@, d.width, d.height)
}

/// Decode PNG data to RGBA pixels with `image::load_from_memory_with_format`
/// followed by `to_rgba8`. The contract claims that the result is a
/// function of the input bytes (`png_decoding`), and that the pixels are
/// four bytes each (the RGBA8 buffer `to_rgba8` builds holds exactly
/// `4 * width * height` bytes); what that function is, is the `image`
/// crate's PNG decoder.
#[verifier::external_body]
pub(crate) fn decode_png(data: &[u8]) -> (r: Option<DecodedImage>)
    ensures
        match r {
            Some(d) => png_decoding(data@) == Some(decoded_parts(d)) && d.data@.len() == 4 * (
            d.width as int) * (d.height as int),
            None => png_decoding(data@).is_none(),
        },
{
    let img = image::load_from_memory_with_format(data, image::ImageFormat::Png).ok()?;
    let rgba = img.to_rgba8();
    Some(DecodedImage { width: rgba.width(), height: rgba.height(), data: rgba.into_raw() })
}

/// Decode JPEG data to RGBA pixels with `image::load_from_memory_with_format`
/// followed by `to_rgba8`. The contract claims that the result is a
/// function of the input bytes (`jpeg_decoding`), and that the pixels are
/// four bytes each (the RGBA8 buffer `to_rgba8` builds holds exactly
/// `4 * width * height` bytes); what that function is, is the `image`
/// crate's JPEG decoder.
#[verifier::external_body]
pub(crate) fn decode_jpeg(data: &[u8]) -> (r: Option<DecodedImage>)
    ensures
        match r {
            Some(d) => jpeg_decoding(data@) == Some(decoded_parts(d)) && d.data@.len() == 4 * (
            d.width as int) * (d.height as int),
            None => jpeg_decoding(data@).is_none(),
        },
{
    let img = image::load_from_memory_with_format(data, image::ImageFormat::Jpeg).ok()?;
    let rgba = img.to_rgba8();
    Some(DecodedImage { width: rgba.width(), height: rgba.height(), data: rgba.into_raw() })
}


// ---------------------------------------------------------------------------
// Laws of the store
// ---------------------------------------------------------------------------

/// A lookup by ID gives back the image last stored under that ID; images
/// under other IDs are untouched.
pub proof fn lemma_get_after_store(s: ImageStoreView, img: ImageView, other: u32)
    ensures
        s.stored(img).images.contains_key(img.id),
        s.stored(img).images[img.id] == img,
        other != img.id ==> (s.stored(img).images.contains_key(other) == s.images.contains_key(
            other,
        )),
        other != img.id && s.images.contains_key(other) ==> s.stored(img).images[other]
            == s.images[other],
{
}

/// Deleting an image removes it and every placement that shows it; other
/// images and placements stay.
pub proof fn lemma_delete_removes_image(s: ImageStoreView, id: u32, other: u32)
    ensures
        !s.image_deleted(id).images.contains_key(id),
        !is_placed(s.image_deleted(id).placements, id),
        other != id ==> (s.image_deleted(id).images.contains_key(other) == s.images.contains_key(
            other,
        )),
        other != id && s.images.contains_key(other) ==> s.image_deleted(id).images[other]
            == s.images[other],
        forall|i: int|
            0 <= i < s.placements.len() && s.placements[i].image_id != id ==> s.image_deleted(
                id,
            ).placements.contains(s.placements[i]),
{
    broadcast use vstd::seq_lib::group_filter_ensures;

    let pred = |p: ImagePlacement| p.image_id != id;
    let kept = s.placements.filter(pred);
    if is_placed(kept, id) {
        let i = choose|i: int| 0 <= i < kept.len() && (#[trigger] kept[i]).image_id == id;
        assert(pred(kept[i]));
    }
    assert forall|i: int|
        0 <= i < s.placements.len() && s.placements[i].image_id != id implies kept.contains(
        s.placements[i],
    ) by {
        assert(pred(s.placements[i]));
    }
}

/// Deleting everything leaves no image and no placement.
pub proof fn lemma_delete_all_empties(s: ImageStoreView)
    ensures
        s.cleared().images == Map::<u32, ImageView>::empty(),
        s.cleared().placements.len() == 0,
{
}

/// A new placement spans at least one cell each way; a span that is not
/// given is the image's pixel size divided by the cell size, rounded up.
pub proof fn lemma_placement_spans(s: ImageStoreView, p: ImagePlacement)
    requires
        s.wf(),
    ensures
        ({
            let q = s.placed(p).placements.last();
            &&& q.cell_cols >= 1
            &&& q.cell_rows >= 1
            &&& q.image_id == p.image_id && q.col == p.col && q.row == p.row
            &&& q.src_width == p.src_width && q.src_height == p.src_height
            &&& p.cell_cols > 0 ==> q.cell_cols == p.cell_cols
            &&& p.cell_rows > 0 ==> q.cell_rows == p.cell_rows
            &&& p.cell_cols == 0 && p.src_width > 0 ==> q.cell_cols == cells_for(
                p.src_width,
                s.cell_width,
            )
            &&& p.cell_rows == 0 && p.src_height > 0 ==> q.cell_rows == cells_for(
                p.src_height,
                s.cell_height,
            )
        }),
{
    lemma_ceil_div_bound(p.src_width as int, s.cell_width as int);
    lemma_ceil_div_bound(p.src_height as int, s.cell_height as int);
    lemma_ceil_div_positive(p.src_width as int, s.cell_width as int);
    lemma_ceil_div_positive(p.src_height as int, s.cell_height as int);
}

/// Rounding a positive division up gives at least one.
proof fn lemma_ceil_div_positive(x: int, c: int)
    requires
        c >= 1,
    ensures
        x >= 1 ==> (x + c - 1) / c >= 1,
{
    if x >= 1 {
        assert((x + c - 1) / c >= 1) by (nonlinear_arith)
            requires
                x >= 1,
                c >= 1,
        ;
    }
}

/// After the screen scrolls, every placement left is at least partly on
/// screen, every image left is shown by some placement and was there
/// before, and every placement still on screen after the shift is kept.
pub proof fn lemma_scroll_keeps_visible(s: ImageStoreView, lines: usize)
    requires
        lines > 0,
        s.placements.len() > 0,
    ensures
        ({
            let t = s.scrolled(lines);
            &&& forall|i: int| 0 <= i < t.placements.len() ==> placement_visible(#[trigger] t.placements[i])
            &&& forall|id: u32| #[trigger]
                t.images.contains_key(id) ==> is_placed(t.placements, id) && s.images.contains_key(id)
                    && t.images[id] == s.images[id]
            &&& forall|i: int|
                0 <= i < s.placements.len() && placement_visible(
                    shifted_placement(s.placements[i], lines as int),
                ) ==> t.placements.contains(#[trigger] shifted_placement(s.placements[i], lines as int))
        }),
{
    broadcast use vstd::seq_lib::group_filter_ensures;

    let shifted = s.placements.map_values(|p: ImagePlacement| shifted_placement(p, lines as int));
    let pred = |p: ImagePlacement| placement_visible(p);
    let t = s.scrolled(lines);
    assert forall|i: int| 0 <= i < t.placements.len() implies placement_visible(
        #[trigger] t.placements[i],
    ) by {
        assert(pred(shifted.filter(pred)[i]));
    }
    assert forall|i: int|
        0 <= i < s.placements.len() && placement_visible(
            shifted_placement(s.placements[i], lines as int),
        ) implies t.placements.contains(#[trigger] shifted_placement(s.placements[i], lines as int)) by {
        assert(shifted[i] == shifted_placement(s.placements[i], lines as int));
        assert(pred(shifted[i]));
    }
}

/// Capping bounds the newest placement's spans and changes nothing else.
pub proof fn lemma_cap_bounds_newest(s: ImageStoreView, max_cols: usize, max_rows: usize)
    requires
        s.placements.len() > 0,
    ensures
        s.capped(max_cols, max_rows).placements.len() == s.placements.len(),
        s.capped(max_cols, max_rows).placements.last().cell_cols <= max_cols,
        s.capped(max_cols, max_rows).placements.last().cell_rows <= max_rows,
        s.capped(max_cols, max_rows).placements.drop_last() == s.placements.drop_last(),
        s.capped(max_cols, max_rows).images == s.images,
{
    assert(s.capped(max_cols, max_rows).placements.drop_last() =~= s.placements.drop_last());
}

/// IDs are handed out one after another from the pending one, wrapping
/// from `u32::MAX` to 1, so an ID handed out is never 0.
pub proof fn lemma_ids_never_zero(s: ImageStoreView)
    requires
        s.wf(),
    ensures
        s.id_taken().wf(),
        s.id_taken().next_id >= 1,
        s.next_id < u32::MAX ==> s.id_taken().next_id == s.next_id + 1,
        s.next_id == u32::MAX ==> s.id_taken().next_id == 1,
{
}

/// Every operation keeps the store well formed.
pub proof fn lemma_operations_keep_wf(
    s: ImageStoreView,
    img: ImageView,
    p: ImagePlacement,
    id: u32,
    lines: usize,
    max_cols: usize,
    max_rows: usize,
)
    requires
        s.wf(),
    ensures
        s.id_taken().wf(),
        s.stored(img).wf(),
        s.placed(p).wf(),
        s.image_deleted(id).wf(),
        s.cleared().wf(),
        s.scrolled(lines).wf(),
        s.capped(max_cols, max_rows).wf(),
{
}

/// Storing, placing and deleting mark the store for the renderer, as does a
/// scroll that moves placements.
pub proof fn lemma_changes_mark_dirty(s: ImageStoreView, img: ImageView, p: ImagePlacement, id: u32, lines: usize)
    ensures
        s.stored(img).dirty,
        s.placed(p).dirty,
        s.image_deleted(id).dirty,
        s.cleared().dirty,
        lines > 0 && s.placements.len() > 0 ==> s.scrolled(lines).dirty,
{
}

/// A call on an image store, as plain values.
pub enum StoreCall {
    NextId,
    Store(ImageView),
    Place(ImagePlacement),
    Delete(u32),
    DeleteAll,
    Scroll(usize),
    Cap(usize, usize),
    SetCellSize(u32, u32),
    TakeDirty,
}

/// The store after one call, as the methods' contracts state it.
pub open spec fn after_call(s: ImageStoreView, c: StoreCall) -> ImageStoreView {
    match c {
        StoreCall::NextId => s.id_taken(),
        StoreCall::Store(img) => s.stored(img),
        StoreCall::Place(p) => s.placed(p),
        StoreCall::Delete(id) => s.image_deleted(id),
        StoreCall::DeleteAll => s.cleared(),
        StoreCall::Scroll(lines) => s.scrolled(lines),
        StoreCall::Cap(max_cols, max_rows) => s.capped(max_cols, max_rows),
        StoreCall::SetCellSize(w, h) => ImageStoreView {
            cell_width: if w > 0 {
                w
            } else {
                s.cell_width
            },
            cell_height: if h > 0 {
                h
            } else {
                s.cell_height
            },
            ..s
        },
        StoreCall::TakeDirty => ImageStoreView { dirty: false, ..s },
    }
}

/// The store after the calls, in order.
pub open spec fn after_calls(s: ImageStoreView, cs: Seq<StoreCall>) -> ImageStoreView
    decreases cs.len(),
{
    if cs.len() == 0 {
        s
    } else {
        after_call(after_calls(s, cs.drop_last()), cs.last())
    }
}

/// Whether a call, made on store `s`, is a change the renderer must pick
/// up: storing, placing, deleting, or a scroll that moves placements.
pub open spec fn is_change(s: ImageStoreView, c: StoreCall) -> bool {
    match c {
        StoreCall::Store(_) => true,
        StoreCall::Place(_) => true,
        StoreCall::Delete(_) => true,
        StoreCall::DeleteAll => true,
        StoreCall::Scroll(lines) => lines > 0 && s.placements.len() > 0,
        _ => false,
    }
}

/// No `take_dirty` among the calls after position `i`.
pub open spec fn no_take_after(cs: Seq<StoreCall>, i: int) -> bool {
    forall|j: int| i < j < cs.len() ==> !(#[trigger] cs[j] is TakeDirty)
}

/// Call `i` is a change, and no `take_dirty` follows it.
pub open spec fn change_at(s: ImageStoreView, cs: Seq<StoreCall>, i: int) -> bool {
    &&& 0 <= i < cs.len()
    &&& is_change(after_calls(s, cs.take(i)), cs[i])
    &&& no_take_after(cs, i)
}

/// Whether the renderer has a change to pick up after the calls: one was
/// made after the last `take_dirty`, or the store was marked to begin with
/// and no `take_dirty` came.
pub open spec fn marked_after(s: ImageStoreView, cs: Seq<StoreCall>) -> bool {
    (exists|i: int| change_at(s, cs, i)) || (s.dirty && no_take_after(cs, -1))
}

proof fn lemma_change_at_extend(s: ImageStoreView, cs: Seq<StoreCall>, i: int)
    requires
        cs.len() > 0,
        !(cs.last() is TakeDirty),
        0 <= i < cs.len() - 1,
    ensures
        change_at(s, cs, i) == change_at(s, cs.drop_last(), i),
{
    let prev = cs.drop_last();
    assert(cs.take(i) =~= prev.take(i));
    assert(cs[i] == prev[i]);
    if no_take_after(prev, i) {
        assert forall|j: int| i < j < cs.len() implies !(#[trigger] cs[j] is TakeDirty) by {
            if j < cs.len() - 1 {
                assert(cs[j] == prev[j]);
            }
        }
    }
    if no_take_after(cs, i) {
        assert forall|j: int| i < j < prev.len() implies !(#[trigger] prev[j] is TakeDirty) by {
            assert(cs[j] == prev[j]);
        }
    }
}

/// After any sequence of calls, `take_dirty` reports whether a change was
/// made since the last `take_dirty` (or since the start, when the store was
/// already marked and no `take_dirty` came): a change sets the mark, only
/// `take_dirty` clears it, and other calls leave it.
pub proof fn lemma_dirty_over_calls(s: ImageStoreView, cs: Seq<StoreCall>)
    ensures
        after_calls(s, cs).dirty == marked_after(s, cs),
    decreases cs.len(),
{
    if cs.len() > 0 {
        let prev = cs.drop_last();
        let n = cs.len() - 1;
        lemma_dirty_over_calls(s, prev);
        let sp = after_calls(s, prev);
        let c = cs.last();
        assert(cs[n] == c);
        if c is TakeDirty {
            if exists|i: int| change_at(s, cs, i) {
                let i = choose|i: int| change_at(s, cs, i);
                if i < n {
                    assert(!(cs[n] is TakeDirty));
                }
            }
            assert(!no_take_after(cs, -1)) by {
                assert(cs[n] is TakeDirty);
            }
        } else {
            assert(no_take_after(cs, n));
            if is_change(sp, c) {
                assert(cs.take(n) =~= prev);
                assert(change_at(s, cs, n));
            } else {
                assert(cs.take(n) =~= prev);
                assert(!change_at(s, cs, n));
                if exists|i: int| change_at(s, prev, i) {
                    let i = choose|i: int| change_at(s, prev, i);
                    lemma_change_at_extend(s, cs, i);
                }
                if exists|i: int| change_at(s, cs, i) {
                    let i = choose|i: int| change_at(s, cs, i);
                    lemma_change_at_extend(s, cs, i);
                }
                if no_take_after(prev, -1) {
                    assert forall|j: int| -1 < j < cs.len() implies !(#[trigger] cs[j] is TakeDirty) by {
                        if j < n {
                            assert(cs[j] == prev[j]);
                        }
                    }
                }
                if no_take_after(cs, -1) {
                    assert forall|j: int| -1 < j < prev.len() implies !(#[trigger] prev[j] is TakeDirty) by {
                        assert(cs[j] == prev[j]);
                    }
                }
            }
        }
    }
}

/// A stored placement spans at least one cell each way; a span given
/// keeps its size, and a span left at 0 covers the source pixels with as
/// few cells as hold them (`(n - 1) * cell < px <= n * cell`). The
/// position, image and source size are kept.
pub proof fn lemma_spans_cover_pixels(p: ImagePlacement, cw: u32, ch: u32)
    requires
        cw >= 1,
        ch >= 1,
    ensures
        ({
            let n = normalized_placement(p, cw, ch);
            &&& n.cell_cols >= 1 && n.cell_rows >= 1
            &&& p.cell_cols > 0 ==> n.cell_cols == p.cell_cols
            &&& p.cell_rows > 0 ==> n.cell_rows == p.cell_rows
            &&& (p.cell_cols == 0 && p.src_width > 0) ==> (n.cell_cols - 1) * cw < p.src_width
                <= n.cell_cols * cw
            &&& (p.cell_rows == 0 && p.src_height > 0) ==> (n.cell_rows - 1) * ch < p.src_height
                <= n.cell_rows * ch
            &&& n.image_id == p.image_id && n.col == p.col && n.row == p.row
            &&& n.src_width == p.src_width && n.src_height == p.src_height
        }),
{
    let w = p.src_width as int;
    let h = p.src_height as int;
    let cwi = cw as int;
    let chi = ch as int;
    if p.src_width > 0 {
        let c = (w + cwi - 1) / cwi;
        assert((c - 1) * cwi < w <= c * cwi && 1 <= c <= w) by (nonlinear_arith)
            requires
                c == (w + cwi - 1) / cwi,
                w >= 1,
                cwi >= 1,
        ;
    }
    if p.src_height > 0 {
        let r = (h + chi - 1) / chi;
        assert((r - 1) * chi < h <= r * chi && 1 <= r <= h) by (nonlinear_arith)
            requires
                r == (h + chi - 1) / chi,
                h >= 1,
                chi >= 1,
        ;
    }
}

/// Scrolling up by `lines` rows moves every placement up by that many
/// rows and keeps exactly those still (partly) on screen; the images kept
/// are those some kept placement shows.
pub proof fn lemma_scroll_moves_placements(s: ImageStoreView, lines: usize)
    requires
        lines > 0,
        s.placements.len() > 0,
        scroll_fits(s.placements, lines),
    ensures
        ({
            let after = s.scrolled(lines);
            &&& forall|i: int|
                0 <= i < s.placements.len() && s.placements[i].row - lines + s.placements[i].cell_rows
                    > 0 ==> after.placements.contains(
                    ImagePlacement { row: (s.placements[i].row - lines) as isize, ..s.placements[i] },
                )
            &&& forall|q: ImagePlacement|
                after.placements.contains(q) ==> q.row + q.cell_rows > 0 && exists|i: int|
                    #![trigger s.placements[i]]
                    0 <= i < s.placements.len() && q == (ImagePlacement {
                        row: (s.placements[i].row - lines) as isize,
                        ..s.placements[i]
                    })
            &&& forall|id: u32|
                after.images.contains_key(id) ==> s.images.contains_key(id) && after.images[id]
                    == s.images[id] && exists|j: int|
                    0 <= j < after.placements.len() && #[trigger] after.placements[j].image_id == id
            &&& forall|j: int|
                0 <= j < after.placements.len() && s.images.contains_key(after.placements[j].image_id)
                    ==> after.images.contains_key(after.placements[j].image_id)
        }),
{
    broadcast use vstd::seq_lib::group_filter_ensures;

    let shifted = s.placements.map_values(|p: ImagePlacement| shifted_placement(p, lines as int));
    let vis = |p: ImagePlacement| placement_visible(p);
    let after = s.scrolled(lines);
    assert forall|i: int|
        0 <= i < s.placements.len() && s.placements[i].row - lines + s.placements[i].cell_rows
            > 0 implies after.placements.contains(
        ImagePlacement { row: (s.placements[i].row - lines) as isize, ..s.placements[i] },
    ) by {
        assert(shifted[i] == shifted_placement(s.placements[i], lines as int));
        shifted.lemma_filter_contains(vis, i);
    }
    assert forall|q: ImagePlacement| after.placements.contains(q) implies q.row + q.cell_rows > 0
        && exists|i: int|
        #![trigger s.placements[i]]
        0 <= i < s.placements.len() && q == (ImagePlacement {
            row: (s.placements[i].row - lines) as isize,
            ..s.placements[i]
        }) by {
        shifted.lemma_filter_contains_rev(vis, q);
        let k = choose|k: int| 0 <= k < after.placements.len() && after.placements[k] == q;
        shifted.lemma_filter_pred(vis, k);
        let i = choose|i: int| 0 <= i < shifted.len() && shifted[i] == q;
        assert(q == (ImagePlacement { row: (s.placements[i].row - lines) as isize, ..s.placements[i] }));
    }
    assert forall|j: int|
        0 <= j < after.placements.len() && s.images.contains_key(after.placements[j].image_id)
            implies after.images.contains_key(after.placements[j].image_id) by {
        assert(is_placed(after.placements, after.placements[j].image_id));
    }
    assert forall|id: u32| after.images.contains_key(id) implies s.images.contains_key(id)
        && after.images[id] == s.images[id] && exists|j: int|
        0 <= j < after.placements.len() && #[trigger] after.placements[j].image_id == id by {
        assert(placed_ids(after.placements).contains(id));
        assert(is_placed(after.placements, id));
    }
}

/// Deleting image `id` drops it and every placement showing it, and keeps
/// every other image and placement.
pub proof fn lemma_delete_drops_image(s: ImageStoreView, id: u32)
    ensures
        ({
            let after = s.image_deleted(id);
            &&& !after.images.contains_key(id)
            &&& forall|k: u32| k != id && s.images.contains_key(k) ==> after.images.contains_key(k)
                && after.images[k] == s.images[k]
            &&& forall|q: ImagePlacement| after.placements.contains(q) ==> q.image_id != id
                && s.placements.contains(q)
            &&& forall|i: int|
                0 <= i < s.placements.len() && s.placements[i].image_id != id
                    ==> after.placements.contains(s.placements[i])
        }),
{
    broadcast use vstd::seq_lib::group_filter_ensures;

    let keep = |p: ImagePlacement| p.image_id != id;
    let after = s.image_deleted(id);
    assert forall|q: ImagePlacement| after.placements.contains(q) implies q.image_id != id
        && s.placements.contains(q) by {
        s.placements.lemma_filter_contains_rev(keep, q);
        let k = choose|k: int| 0 <= k < after.placements.len() && after.placements[k] == q;
        s.placements.lemma_filter_pred(keep, k);
    }
    assert forall|i: int| 0 <= i < s.placements.len() && s.placements[i].image_id != id
        implies after.placements.contains(s.placements[i]) by {
        s.placements.lemma_filter_contains(keep, i);
    }
}

} // verus!
