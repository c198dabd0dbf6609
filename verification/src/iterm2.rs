//! iTerm2 Inline Images (OSC 1337) implementation.

use vstd::prelude::*;

use crate::codec::{base64_standard_decoding, decode_base64};
use crate::image_store::{
    decode_jpeg, decode_png, decoded_parts, is_jpeg, is_png, jpeg_decoding, jpeg_header,
    png_decoding, png_header, DecodedImage, ImagePlacement, ImageStore, ImageStoreView, ImageView,
    TerminalImage,
};
use crate::text::{
    after_first, before_first, char_position, find_char, has_prefix, has_suffix,
    last_char_position, lemma_last_char_position_after, lemma_prefix_concat, parse_u32, parse_u32_range, parse_usize, parse_usize_range,
    range_is_str, rfind_char, split_chars, str_chars, strip_prefix_len,
};

verus! {

broadcast use vstd::string::group_string_axioms;

/// The metadata of an iTerm2 image, as plain values.
pub struct Iterm2ParamsView {
    pub inline: bool,
    pub width: Option<Seq<char>>,
    pub height: Option<Seq<char>>,
    pub preserve_aspect: bool,
}

/// Parsed iTerm2 image metadata from the initial `MultipartFile=` or `File=` header.
#[derive(Debug)]
struct Iterm2Params {
    inline: bool,
    width: Option<String>,
    height: Option<String>,
    preserve_aspect: bool,
}

/// The text of an optional string.
pub open spec fn opt_text(s: Option<String>) -> Option<Seq<char>> {
    match s {
        Some(t) => Some(t@),
        None => None,
    }
}

impl View for Iterm2Params {
    type V = Iterm2ParamsView;

    closed spec fn view(&self) -> Iterm2ParamsView {
        Iterm2ParamsView {
            inline: self.inline,
            width: opt_text(self.width),
            height: opt_text(self.height),
            preserve_aspect: self.preserve_aspect,
        }
    }
}

/// The metadata a header without keys describes.
pub open spec fn default_iterm2_params() -> Iterm2ParamsView {
    Iterm2ParamsView { inline: false, width: None, height: None, preserve_aspect: true }
}

/// The metadata after one `key=value` pair (unknown keys are ignored).
pub open spec fn apply_iterm2_pair(p: Iterm2ParamsView, kv: Seq<char>) -> Iterm2ParamsView {
    let key = before_first(kv, '=');
    let value = after_first(kv, '=');
    if key == "inline"@ {
        Iterm2ParamsView { inline: value == "1"@, ..p }
    } else if key == "width"@ {
        Iterm2ParamsView { width: Some(value), ..p }
    } else if key == "height"@ {
        Iterm2ParamsView { height: Some(value), ..p }
    } else if key == "preserveAspectRatio"@ {
        Iterm2ParamsView { preserve_aspect: value != "0"@, ..p }
    } else {
        p
    }
}

/// The metadata after the pairs `kvs`, in order.
pub open spec fn apply_iterm2_pairs(p: Iterm2ParamsView, kvs: Seq<Seq<char>>) -> Iterm2ParamsView
    decreases kvs.len(),
{
    if kvs.len() == 0 {
        p
    } else {
        apply_iterm2_pair(apply_iterm2_pairs(p, kvs.drop_last()), kvs.last())
    }
}

/// The metadata that a parameter string (`;`-separated `key=value` pairs)
/// describes.
pub open spec fn iterm2_params(s: Seq<char>) -> Iterm2ParamsView {
    apply_iterm2_pairs(default_iterm2_params(), split_chars(s, ';'))
}

/// The cell count a `width=` or `height=` value gives: 0 (size from the
/// image) for `auto`, an empty value or a pixel size; the number itself for
/// a plain number; nothing for anything else.
pub open spec fn iterm2_dimension(s: Seq<char>) -> Option<usize> {
    if s == "auto"@ || s.len() == 0 {
        Some(0)
    } else if has_suffix(s, "px"@) {
        match parse_u32(s.take(s.len() - 2)) {
            Some(_) => Some(0),
            None => None,
        }
    } else {
        parse_usize(s)
    }
}

/// The cell count an optional dimension gives, 0 when absent or invalid.
pub open spec fn dimension_or_zero(s: Option<Seq<char>>) -> usize {
    match s {
        Some(t) => match iterm2_dimension(t) {
            Some(c) => c,
            None => 0,
        },
        None => 0,
    }
}

/// What an image file decodes to: PNG and JPEG are recognised by their
/// signature; other data yields nothing.
pub open spec fn inline_image_decoding(raw: Seq<u8>) -> Option<(Seq<u8>, u32, u32)> {
    if png_header(raw) {
        png_decoding(raw)
    } else if jpeg_header(raw) {
        jpeg_decoding(raw)
    } else {
        None
    }
}

/// The store after a decoded image (pixels, width, height) is stored under
/// a fresh ID and placed at the cursor with the given cell spans.
pub open spec fn new_image_placed(
    store: ImageStoreView,
    pixels: (Seq<u8>, u32, u32),
    cell_cols: usize,
    cell_rows: usize,
    col: usize,
    row: usize,
) -> ImageStoreView {
    let id = store.next_id;
    store.id_taken().stored(
        ImageView { id, data: pixels.0, width: pixels.1, height: pixels.2 },
    ).placed(
        ImagePlacement {
            image_id: id,
            col,
            row: row as isize,
            cell_cols,
            cell_rows,
            src_width: pixels.1,
            src_height: pixels.2,
        },
    )
}

/// The store after an image file `raw` is decoded and placed, and whether
/// it was.
pub open spec fn inline_image_stored(
    store: ImageStoreView,
    raw: Seq<u8>,
    cell_cols: usize,
    cell_rows: usize,
    col: usize,
    row: usize,
) -> (bool, ImageStoreView) {
    match inline_image_decoding(raw) {
        Some(px) => (true, new_image_placed(store, px, cell_cols, cell_rows, col, row)),
        None => (false, store),
    }
}

/// The store after an image whose metadata is `p` and whose base64 text is
/// `data` is displayed, and whether it was.
pub open spec fn iterm2_displayed(
    store: ImageStoreView,
    p: Iterm2ParamsView,
    data: Seq<char>,
    col: usize,
    row: usize,
) -> (bool, ImageStoreView) {
    if !p.inline {
        (false, store)
    } else {
        match base64_standard_decoding(data) {
            Some(raw) => inline_image_stored(
                store,
                raw,
                dimension_or_zero(p.width),
                dimension_or_zero(p.height),
                col,
                row,
            ),
            None => (false, store),
        }
    }
}

/// The store after a `File=<params>:<base64data>` payload.
pub open spec fn iterm2_image_processed(
    store: ImageStoreView,
    payload: Seq<char>,
    col: usize,
    row: usize,
) -> ImageStoreView {
    if !has_prefix(payload, "File="@) {
        store
    } else {
        let rest = payload.skip("File="@.len() as int);
        match last_char_position(rest, ':') {
            Some(idx) => iterm2_displayed(
                store,
                iterm2_params(rest.take(idx)),
                rest.skip(idx + 1),
                col,
                row,
            ).1,
            None => store,
        }
    }
}

/// The state of a multipart transfer.
pub struct Iterm2State {
    /// The metadata of the transfer in progress, if any.
    pub params: Option<Iterm2ParamsView>,
    /// The base64 text received so far.
    pub data: Seq<char>,
}

/// No transfer in progress.
pub open spec fn idle_iterm2_state() -> Iterm2State {
    Iterm2State { params: None, data: Seq::empty() }
}

/// The state after a `MultipartFile=<params>` payload.
pub open spec fn iterm2_begun(s: Iterm2State, payload: Seq<char>) -> Iterm2State {
    if has_prefix(payload, "MultipartFile="@) {
        Iterm2State {
            params: Some(iterm2_params(payload.skip("MultipartFile="@.len() as int))),
            data: Seq::empty(),
        }
    } else {
        s
    }
}

/// The state after a `FilePart=<base64chunk>` payload.
pub open spec fn iterm2_part_added(s: Iterm2State, payload: Seq<char>) -> Iterm2State {
    if has_prefix(payload, "FilePart="@) {
        Iterm2State { data: s.data + payload.skip("FilePart="@.len() as int), ..s }
    } else {
        s
    }
}

/// What `FileEnd` does: whether an image is placed, and the store after it.
pub open spec fn iterm2_finished(s: Iterm2State, store: ImageStoreView, col: usize, row: usize) -> (
    bool,
    ImageStoreView,
) {
    match s.params {
        Some(p) => iterm2_displayed(store, p, s.data, col, row),
        None => (false, store),
    }
}

/// Accumulator for iTerm2 multipart image transfer.
///
/// The multipart protocol works as follows:
///   1. `OSC 1337 ; MultipartFile=<params> ST` — begin transfer (metadata, no pixel data)
///   2. `OSC 1337 ; FilePart=<base64chunk> ST` — one or more data chunks
///   3. `OSC 1337 ; FileEnd ST`                — finalize: decode & place the image
#[derive(Debug, Default)]
pub struct Iterm2Accumulator {
    /// Parsed parameters from the initial MultipartFile header.
    params: Option<Iterm2Params>,
    /// Accumulated base64-encoded data across FilePart chunks.
    base64_data: String,
}

/// The metadata of an optional parameter set.
spec fn opt_params(p: Option<Iterm2Params>) -> Option<Iterm2ParamsView> {
    match p {
        Some(q) => Some(q@),
        None => None,
    }
}

impl View for Iterm2Accumulator {
    type V = Iterm2State;

    closed spec fn view(&self) -> Iterm2State {
        Iterm2State { params: opt_params(self.params), data: self.base64_data@ }
    }
}

/// The metadata after the pair `chars[lo..hi]`.
fn apply_pair(p: Iterm2Params, text: &str, chars: &Vec<char>, lo: usize, hi: usize) -> (r:
    Iterm2Params)
    requires
        chars@ == text@,
        lo <= hi <= chars@.len(),
    ensures
        r@ == apply_iterm2_pair(p@, chars@.subrange(lo as int, hi as int)),
{
    let ghost kv = chars@.subrange(lo as int, hi as int);
    let eq = find_char(chars, lo, hi, '=');
    let (vlo, vhi) = if eq < hi {
        (eq + 1, hi)
    } else {
        (hi, hi)
    };
    proof {
        assert(kv.take(char_position(kv, '=')) =~= chars@.subrange(lo as int, eq as int));
        if eq < hi {
            assert(kv.skip(char_position(kv, '=') + 1) =~= chars@.subrange(eq + 1, hi as int));
        } else {
            assert(chars@.subrange(hi as int, hi as int) =~= Seq::<char>::empty());
        }
    }
    let mut p = p;
    if range_is_str(chars, lo, eq, "inline") {
        p.inline = range_is_str(chars, vlo, vhi, "1");
    } else if range_is_str(chars, lo, eq, "width") {
        p.width = Some(String::from_str(text.substring_char(vlo, vhi)));
    } else if range_is_str(chars, lo, eq, "height") {
        p.height = Some(String::from_str(text.substring_char(vlo, vhi)));
    } else if range_is_str(chars, lo, eq, "preserveAspectRatio") {
        p.preserve_aspect = !range_is_str(chars, vlo, vhi, "0");
    }
    p
}

/// Parse iTerm2 key=value parameters from `text[lo..hi]` (without the `File=` or
/// `MultipartFile=` prefix, and without the `:base64data` suffix if present).
fn parse_iterm2_params(text: &str, chars: &Vec<char>, lo: usize, hi: usize) -> (r: Iterm2Params)
    requires
        chars@ == text@,
        lo <= hi <= chars@.len(),
    ensures
        r@ == iterm2_params(chars@.subrange(lo as int, hi as int)),
{
    let mut result = Iterm2Params {
        inline: false,
        width: None,
        height: None,
        preserve_aspect: true,
    };
    let mut start = lo;
    let mut i = lo;
    let ghost mut done: Seq<Seq<char>> = Seq::empty();
    proof {
        assert(chars@.subrange(lo as int, lo as int) =~= Seq::<char>::empty());
        assert(done.push(chars@.subrange(lo as int, lo as int)) =~= seq![Seq::<char>::empty()]);
    }
    while i < hi
        invariant
            chars@ == text@,
            lo <= start <= i <= hi <= chars@.len(),
            split_chars(chars@.subrange(lo as int, i as int), ';') == done.push(
                chars@.subrange(start as int, i as int),
            ),
            result@ == apply_iterm2_pairs(default_iterm2_params(), done),
        decreases hi - i,
    {
        proof {
            assert(chars@.subrange(lo as int, i + 1).drop_last() =~= chars@.subrange(
                lo as int,
                i as int,
            ));
            assert(chars@.subrange(lo as int, i + 1).last() == chars@[i as int]);
        }
        if chars[i] == ';' {
            result = apply_pair(result, text, chars, start, i);
            proof {
                assert(done.push(chars@.subrange(start as int, i as int)).drop_last() =~= done);
                done = done.push(chars@.subrange(start as int, i as int));
                assert(chars@.subrange(i + 1, i + 1) =~= Seq::<char>::empty());
            }
            start = i + 1;
        } else {
            proof {
                let prev = done.push(chars@.subrange(start as int, i as int));
                assert(chars@.subrange(start as int, i as int).push(chars@[i as int])
                    =~= chars@.subrange(start as int, i + 1));
                assert(prev.update(prev.len() - 1, prev.last().push(chars@[i as int])) =~= done.push(
                    chars@.subrange(start as int, i + 1),
                ));
            }
        }
        i = i + 1;
    }
    proof {
        assert(done.push(chars@.subrange(start as int, hi as int)).drop_last() =~= done);
    }
    apply_pair(result, text, chars, start, hi)
}

/// Parse an iTerm2 dimension string (e.g., "80px", "10", "auto").
/// Returns cell count or 0 for auto-sizing.
pub fn parse_iterm2_dimension(s: &str) -> (r: Option<usize>)
    ensures
        r == iterm2_dimension(s@),
{
    let chars = str_chars(s);
    let n = chars.len();
    proof {
        assert(chars@.subrange(0, n as int) =~= chars@);
        reveal_strlit("px");
    }
    if n == 0 || range_is_str(&chars, 0, n, "auto") {
        return Some(0);
    }
    if n >= 2 && chars[n - 2] == 'p' && chars[n - 1] == 'x' {
        proof {
            assert(chars@.skip(n - 2) =~= "px"@);
            assert(chars@.take(n - 2) =~= chars@.subrange(0, n - 2));
        }
        // Pixel dimension: the cell span is computed from the image size.
        match parse_u32_range(&chars, 0, n - 2) {
            Some(_) => Some(0),
            None => None,
        }
    } else {
        proof {
            if n >= 2 {
                assert(chars@.skip(n - 2)[0] == chars@[n - 2]);
                assert(chars@.skip(n - 2)[1] == chars@[n - 1]);
            }
        }
        // Treat as cell count.
        parse_usize_range(&chars, 0, n)
    }
}

/// The cell count an optional dimension parameter gives.
fn cells_from_param(param: &Option<String>) -> (r: usize)
    ensures
        r == dimension_or_zero(opt_text(*param)),
{
    match param {
        Some(w) => match parse_iterm2_dimension(w.as_str()) {
            Some(c) => c,
            None => 0,
        },
        None => 0,
    }
}

/// Store a decoded image under a fresh ID and place it at the cursor.
pub fn place_new_image(
    decoded: DecodedImage,
    cell_cols: usize,
    cell_rows: usize,
    store: &mut ImageStore,
    cursor_col: usize,
    cursor_row: usize,
)
    requires
        old(store)@.wf(),
    ensures
        final(store)@ == new_image_placed(
            old(store)@,
            decoded_parts(decoded),
            cell_cols,
            cell_rows,
            cursor_col,
            cursor_row,
        ),
        final(store)@.wf(),
{
    let id = store.next_id();
    let img_w = decoded.width;
    let img_h = decoded.height;
    store.store_image(TerminalImage { id, data: decoded.data, width: img_w, height: img_h });
    store.add_placement(
        ImagePlacement {
            image_id: id,
            col: cursor_col,
            row: cursor_row as isize,
            cell_cols,
            cell_rows,
            src_width: img_w,
            src_height: img_h,
        },
    );
}

/// Decode an image file (PNG or JPEG, told apart by their signatures) and
/// place it at the cursor. Returns whether an image was placed.
pub fn store_inline_image(
    raw: &[u8],
    cell_cols: usize,
    cell_rows: usize,
    store: &mut ImageStore,
    cursor_col: usize,
    cursor_row: usize,
) -> (placed: bool)
    requires
        old(store)@.wf(),
    ensures
        (placed, final(store)@) == inline_image_stored(
            old(store)@,
            raw@,
            cell_cols,
            cell_rows,
            cursor_col,
            cursor_row,
        ),
        final(store)@.wf(),
{
    // Detect format and decode to RGBA.
    let decoded = if is_png(raw) {
        decode_png(raw)
    } else if is_jpeg(raw) {
        decode_jpeg(raw)
    } else {
        None
    };
    match decoded {
        Some(d) => {
            place_new_image(d, cell_cols, cell_rows, store, cursor_col, cursor_row);
            true
        },
        None => false,
    }
}

impl Iterm2Accumulator {
    pub fn new() -> (acc: Self)
        ensures
            acc@ == idle_iterm2_state(),
    {
        Self { params: None, base64_data: String::new() }
    }

    /// Begin a new multipart transfer. Parses the `MultipartFile=<params>` payload.
    pub fn begin(&mut self, payload: &str)
        ensures
            final(self)@ == iterm2_begun(old(self)@, payload@),
    {
        let chars = str_chars(payload);
        let n = chars.len();
        let start = match strip_prefix_len(&chars, "MultipartFile=") {
            Some(k) => k,
            None => {
                return ;
            },
        };
        proof {
            assert(chars@.subrange(start as int, n as int) =~= payload@.skip(start as int));
        }
        let params = parse_iterm2_params(payload, &chars, start, n);
        self.params = Some(params);
        self.base64_data = String::new();
    }

    /// Accumulate a `FilePart=<base64chunk>` chunk.
    pub fn add_part(&mut self, payload: &str)
        ensures
            final(self)@ == iterm2_part_added(old(self)@, payload@),
    {
        let chars = str_chars(payload);
        let start = match strip_prefix_len(&chars, "FilePart=") {
            Some(k) => k,
            None => {
                return ;
            },
        };
        let chunk = payload.substring_char(start, chars.len());
        proof {
            assert(chunk@ =~= payload@.skip(start as int));
        }
        self.base64_data.append(chunk);
    }

    /// Finalize on `FileEnd`: decode the accumulated data and place the image.
    /// Returns `true` if an image was successfully placed.
    pub fn finish(&mut self, store: &mut ImageStore, cursor_col: usize, cursor_row: usize) -> (placed:
        bool)
        requires
            old(store)@.wf(),
        ensures
            (placed, final(store)@) == iterm2_finished(old(self)@, old(store)@, cursor_col, cursor_row),
            final(self)@ == idle_iterm2_state(),
            final(store)@.wf(),
    {
        let mut taken: Option<Iterm2Params> = None;
        std::mem::swap(&mut taken, &mut self.params);
        let mut b64 = String::new();
        std::mem::swap(&mut b64, &mut self.base64_data);
        let params = match taken {
            Some(p) => p,
            None => {
                return false;
            },
        };
        if !params.inline {
            return false;
        }
        let raw = match decode_base64(b64.as_str()) {
            Some(bytes) => bytes,
            None => {
                return false;
            },
        };
        let cell_cols = cells_from_param(&params.width);
        let cell_rows = cells_from_param(&params.height);
        store_inline_image(raw.as_slice(), cell_cols, cell_rows, store, cursor_col, cursor_row)
    }

    /// Whether a multipart transfer is currently in progress.
    pub fn is_active(&self) -> (r: bool)
        ensures
            r == self@.params is Some,
    {
        self.params.is_some()
    }
}

/// Parse an iTerm2 inline image OSC 1337 payload.
///
/// Format: `File=<params>:<base64data>`
/// Params are semicolon-separated `key=value` pairs.
pub fn parse_iterm2_image(payload: &str, store: &mut ImageStore, cursor_col: usize, cursor_row: usize)
    requires
        old(store)@.wf(),
    ensures
        final(store)@ == iterm2_image_processed(old(store)@, payload@, cursor_col, cursor_row),
        final(store)@.wf(),
{
    let chars = str_chars(payload);
    let n = chars.len();
    // The payload after "File=" is: params:base64data
    let start = match strip_prefix_len(&chars, "File=") {
        Some(k) => k,
        None => {
            return ;
        },
    };
    let ghost rest = payload@.skip(start as int);
    proof {
        assert(chars@.subrange(start as int, n as int) =~= rest);
    }
    let idx = match rfind_char(&chars, start, n, ':') {
        Some(i) => i,
        None => {
            return ;
        },
    };
    proof {
        assert(chars@.subrange(start as int, idx as int) =~= rest.take(idx - start));
        assert(chars@.subrange(idx + 1, n as int) =~= rest.skip(idx - start + 1));
    }
    let params = parse_iterm2_params(payload, &chars, start, idx);
    if !params.inline {
        return ;
    }
    // Decode base64 data.
    let b64 = payload.substring_char(idx + 1, n);
    let raw = match decode_base64(b64) {
        Some(bytes) => bytes,
        None => {
            return ;
        },
    };
    // Parse width/height params for cell sizing.
    let cell_cols = cells_from_param(&params.width);
    let cell_rows = cells_from_param(&params.height);
    store_inline_image(raw.as_slice(), cell_cols, cell_rows, store, cursor_col, cursor_row);
}


// ---------------------------------------------------------------------------
// Multipart and single-payload transfers agree
// ---------------------------------------------------------------------------

/// The parts joined in order.
pub open spec fn joined(parts: Seq<Seq<char>>) -> Seq<char>
    decreases parts.len(),
{
    if parts.len() == 0 {
        Seq::empty()
    } else {
        joined(parts.drop_last()) + parts.last()
    }
}

/// The state after one `FilePart=` payload per part, in order.
pub open spec fn file_parts_added(s: Iterm2State, parts: Seq<Seq<char>>) -> Iterm2State
    decreases parts.len(),
{
    if parts.len() == 0 {
        s
    } else {
        iterm2_part_added(file_parts_added(s, parts.drop_last()), "FilePart="@ + parts.last())
    }
}

/// `FilePart=` payloads append their text and keep the metadata.
pub proof fn lemma_file_parts_append(s: Iterm2State, parts: Seq<Seq<char>>)
    ensures
        file_parts_added(s, parts).params == s.params,
        file_parts_added(s, parts).data == s.data + joined(parts),
    decreases parts.len(),
{
    if parts.len() == 0 {
        assert(s.data + Seq::<char>::empty() =~= s.data);
    } else {
        lemma_file_parts_append(s, parts.drop_last());
        lemma_prefix_concat("FilePart="@, parts.last());
        assert(s.data + joined(parts.drop_last()) + parts.last() =~= s.data + joined(parts));
    }
}

/// A multipart transfer (`MultipartFile=<params>`, then one `FilePart=`
/// per part, then `FileEnd`) places the same image as the single payload
/// `File=<params>:<parts joined>`, when the base64 text holds no `:`.
pub proof fn lemma_multipart_matches_single(
    s: Iterm2State,
    params: Seq<char>,
    parts: Seq<Seq<char>>,
    store: ImageStoreView,
    col: usize,
    row: usize,
)
    requires
        forall|k: int| 0 <= k < joined(parts).len() ==> joined(parts)[k] != ':',
    ensures
        iterm2_finished(
            file_parts_added(iterm2_begun(s, "MultipartFile="@ + params), parts),
            store,
            col,
            row,
        ).1 == iterm2_image_processed(
            store,
            "File="@ + params + seq![':'] + joined(parts),
            col,
            row,
        ),
{
    let data = joined(parts);
    lemma_prefix_concat("MultipartFile="@, params);
    let begun = iterm2_begun(s, "MultipartFile="@ + params);
    lemma_file_parts_append(begun, parts);
    assert(Seq::<char>::empty() + data =~= data);
    let payload = "File="@ + params + seq![':'] + data;
    let rest = params + seq![':'] + data;
    assert(payload =~= "File="@ + rest);
    lemma_prefix_concat("File="@, rest);
    lemma_last_char_position_after(params, ':', data);
    assert(rest.take(params.len() as int) =~= params);
    assert(rest.skip(params.len() as int + 1) =~= data);
}

/// A call on the iTerm2 accumulator, as plain values (`finish` leaves it
/// idle whatever it places).
pub enum Iterm2Call {
    Begin(Seq<char>),
    AddPart(Seq<char>),
    Finish,
}

/// The accumulator after the calls, in order.
pub open spec fn iterm2_after_calls(s: Iterm2State, cs: Seq<Iterm2Call>) -> Iterm2State
    decreases cs.len(),
{
    if cs.len() == 0 {
        s
    } else {
        let prev = iterm2_after_calls(s, cs.drop_last());
        match cs.last() {
            Iterm2Call::Begin(p) => iterm2_begun(prev, p),
            Iterm2Call::AddPart(p) => iterm2_part_added(prev, p),
            Iterm2Call::Finish => idle_iterm2_state(),
        }
    }
}

/// Call `i` begins a transfer (`MultipartFile=`), and no `finish` follows.
pub open spec fn open_begin_at(cs: Seq<Iterm2Call>, i: int) -> bool {
    &&& 0 <= i < cs.len()
    &&& cs[i] matches Iterm2Call::Begin(p) && has_prefix(p, "MultipartFile="@)
    &&& forall|j: int| i < j < cs.len() ==> !(#[trigger] cs[j] is Finish)
}

proof fn lemma_open_begin_extend(cs: Seq<Iterm2Call>, i: int)
    requires
        cs.len() > 0,
        !(cs.last() is Finish),
        0 <= i < cs.len() - 1,
    ensures
        open_begin_at(cs, i) == open_begin_at(cs.drop_last(), i),
{
    let prev = cs.drop_last();
    assert(cs[i] == prev[i]);
    assert forall|j: int| i < j < prev.len() implies cs[j] == prev[j] by {}
}

/// From a fresh accumulator, any sequence of calls leaves it active exactly
/// when a `MultipartFile=` begin came and no `finish` after it: `add_part`
/// never changes whether it is active.
pub proof fn lemma_iterm2_active_over_calls(cs: Seq<Iterm2Call>)
    ensures
        (iterm2_after_calls(idle_iterm2_state(), cs).params is Some) == (exists|i: int|
            open_begin_at(cs, i)),
    decreases cs.len(),
{
    if cs.len() > 0 {
        let prev = cs.drop_last();
        let n = cs.len() - 1;
        lemma_iterm2_active_over_calls(prev);
        assert(cs[n] == cs.last());
        match cs.last() {
            Iterm2Call::Finish => {
                if exists|i: int| open_begin_at(cs, i) {
                    let i = choose|i: int| open_begin_at(cs, i);
                    if i < n {
                        assert(cs[n] is Finish);
                    }
                }
            },
            Iterm2Call::Begin(p) => {
                if has_prefix(p, "MultipartFile="@) {
                    assert(open_begin_at(cs, n));
                } else {
                    assert(!open_begin_at(cs, n));
                    if exists|i: int| open_begin_at(prev, i) {
                        let i = choose|i: int| open_begin_at(prev, i);
                        lemma_open_begin_extend(cs, i);
                    }
                    if exists|i: int| open_begin_at(cs, i) {
                        let i = choose|i: int| open_begin_at(cs, i);
                        lemma_open_begin_extend(cs, i);
                    }
                }
            },
            Iterm2Call::AddPart(p) => {
                assert(!open_begin_at(cs, n));
                if exists|i: int| open_begin_at(prev, i) {
                    let i = choose|i: int| open_begin_at(prev, i);
                    lemma_open_begin_extend(cs, i);
                }
                if exists|i: int| open_begin_at(cs, i) {
                    let i = choose|i: int| open_begin_at(cs, i);
                    lemma_open_begin_extend(cs, i);
                }
            },
        }
    }
}

/// A pair `key=value` whose key holds no `=` splits there.
proof fn lemma_iterm2_pair_parts(key: Seq<char>, v: Seq<char>)
    requires
        forall|i: int| 0 <= i < key.len() ==> key[i] != '=',
    ensures
        char_position(key + seq!['='] + v, '=') == key.len(),
        before_first(key + seq!['='] + v, '=') == key,
        after_first(key + seq!['='] + v, '=') == v,
    decreases key.len(),
{
    let kv = key + seq!['='] + v;
    if key.len() == 0 {
        assert(kv =~= seq!['='] + v);
    } else {
        lemma_iterm2_pair_parts(key.drop_first(), v);
        assert(kv.drop_first() =~= key.drop_first() + seq!['='] + v);
        assert(kv[0] == key[0]);
    }
    assert(kv.len() == key.len() + 1 + v.len());
    assert(kv.take(key.len() as int) =~= key);
    assert(kv.skip(key.len() as int + 1) =~= v);
}

/// The iTerm2 image keys: `inline=1` asks for display (anything else
/// not), `width=` and `height=` give the spans as sent (width the
/// columns, height the rows), `preserveAspectRatio=0` turns aspect keeping
/// off; each key sets its own field and nothing else.
pub proof fn lemma_iterm2_keys(p: Iterm2ParamsView, v: Seq<char>)
    ensures
        apply_iterm2_pair(p, "width"@ + seq!['='] + v) == (Iterm2ParamsView { width: Some(v), ..p }),
        apply_iterm2_pair(p, "height"@ + seq!['='] + v) == (Iterm2ParamsView { height: Some(v), ..p }),
        apply_iterm2_pair(p, "inline"@ + seq!['='] + v) == (Iterm2ParamsView {
            inline: v == seq!['1'],
            ..p
        }),
        apply_iterm2_pair(p, "preserveAspectRatio"@ + seq!['='] + v) == (Iterm2ParamsView {
            preserve_aspect: v != seq!['0'],
            ..p
        }),
{
    reveal_strlit("width");
    reveal_strlit("height");
    reveal_strlit("inline");
    reveal_strlit("preserveAspectRatio");
    reveal_strlit("1");
    reveal_strlit("0");
    lemma_iterm2_pair_parts("width"@, v);
    lemma_iterm2_pair_parts("height"@, v);
    lemma_iterm2_pair_parts("inline"@, v);
    lemma_iterm2_pair_parts("preserveAspectRatio"@, v);
    assert("height"@ != "width"@) by {
        assert("height"@.len() != "width"@.len());
    }
    assert("inline"@ != "width"@ && "inline"@ != "height"@) by {
        assert("inline"@[0] != "width"@[0] && "inline"@[0] != "height"@[0]);
    }
    assert("preserveAspectRatio"@ != "width"@ && "preserveAspectRatio"@ != "height"@
        && "preserveAspectRatio"@ != "inline"@) by {
        assert("preserveAspectRatio"@.len() != "width"@.len() && "preserveAspectRatio"@.len()
            != "height"@.len() && "preserveAspectRatio"@.len() != "inline"@.len());
    }
    assert("1"@ =~= seq!['1']);
    assert("0"@ =~= seq!['0']);
}

/// A `width` or `height` value: `auto` or nothing leaves the span to the
/// image (0); a plain number is that many cells.
pub proof fn lemma_iterm2_dimension(s: Seq<char>)
    ensures
        iterm2_dimension("auto"@) == Some(0usize),
        iterm2_dimension(Seq::empty()) == Some(0usize),
        (s.len() > 0 && forall|i: int| 0 <= i < s.len() ==> '0' <= #[trigger] s[i] <= '9')
            ==> iterm2_dimension(s) == parse_usize(s),
{
    reveal_strlit("px");
    reveal_strlit("auto");
    if s.len() > 0 && forall|i: int| 0 <= i < s.len() ==> '0' <= #[trigger] s[i] <= '9' {
        assert(s != "auto"@) by {
            if s.len() == 4 {
                assert("auto"@[0] == 'a');
                assert('0' <= s[0] <= '9');
            }
        }
        if s.len() >= 2 {
            assert(s.skip(s.len() - 2) != "px"@) by {
                assert(s.skip(s.len() - 2)[1] == s[s.len() - 1]);
                assert('0' <= s[s.len() - 1] <= '9');
            }
        }
    }
}

/// A displayed image is stored under the next ID and placed at the
/// cursor, its `width` giving the columns and its `height` the rows it
/// spans when they are numbers of cells.
pub proof fn lemma_iterm2_display_spans(
    store: ImageStoreView,
    p: Iterm2ParamsView,
    data: Seq<char>,
    col: usize,
    row: usize,
)
    requires
        store.wf(),
    ensures
        ({
            let (shown, after) = iterm2_displayed(store, p, data, col, row);
            &&& !p.inline ==> !shown && after == store
            &&& shown ==> {
                &&& after.placements.len() == store.placements.len() + 1
                &&& after.images.contains_key(store.next_id)
                &&& after.placements.last().image_id == store.next_id
                &&& after.placements.last().col == col
                &&& after.placements.last().row == row as isize
                &&& dimension_or_zero(p.width) > 0 ==> after.placements.last().cell_cols
                    == dimension_or_zero(p.width)
                &&& dimension_or_zero(p.height) > 0 ==> after.placements.last().cell_rows
                    == dimension_or_zero(p.height)
            }
            &&& !shown ==> after == store
        }),
{
}

} // verus!
