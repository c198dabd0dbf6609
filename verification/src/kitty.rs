//! Kitty Graphics Protocol implementation.

use vstd::prelude::*;

use crate::codec::{base64_standard_decoding, decode_base64};
use crate::image_store::{
    decode_png, decoded_parts, png_decoding, DecodedImage, ImagePlacement, ImageStore, ImageStoreView, ImageView,
    TerminalImage,
};
use crate::text::{
    after_first, before_first, char_position, is_whitespace, trim_end, trim_start, find_char, parse_u32, parse_u32_range, parse_u8,
    parse_u8_range, parse_usize, parse_usize_range, split_chars, str_chars, trim, trim_range,
};

verus! {

/// Kitty Graphics action type.
#[derive(Debug, Clone, Copy, PartialEq, Eq, Structural)]
pub enum KittyAction {
    /// `a=t` — Transmit image data (store but don't display).
    Transmit,
    /// `a=T` — Transmit and display at cursor.
    TransmitAndDisplay,
    /// `a=p` — Display a previously transmitted image.
    Place,
    /// `a=d` — Delete image(s).
    Delete,
    /// `a=q` — Query support.
    Query,
}

/// Kitty Graphics data format.
#[derive(Debug, Clone, Copy, PartialEq, Eq, Structural)]
pub enum KittyFormat {
    /// `f=24` — RGB (3 bytes per pixel).
    Rgb,
    /// `f=32` — RGBA (4 bytes per pixel).
    Rgba,
    /// `f=100` — PNG compressed.
    Png,
}

/// Parsed Kitty Graphics command header.
#[derive(Debug, Clone, Copy)]
pub struct KittyCommand {
    pub action: KittyAction,
    pub format: KittyFormat,
    /// Image ID (`i=`).
    pub image_id: Option<u32>,
    /// Pixel width (`s=`).
    pub width: Option<u32>,
    /// Pixel height (`v=`).
    pub height: Option<u32>,
    /// Cell columns for placement (`c=`).
    pub cell_cols: Option<usize>,
    /// Cell rows for placement (`r=`).
    pub cell_rows: Option<usize>,
    /// More data chunks follow (`m=1`).
    pub more_chunks: bool,
    /// Transmission type (only `d` = direct is supported).
    pub transmission: char,
    /// Delete target for `a=d`.
    pub delete_target: Option<char>,
    /// Quiet mode (`q=`). 0 = normal, 1 = suppress OK, 2 = suppress all.
    pub quiet: u8,
}

/// The command a header without keys describes.
pub open spec fn default_kitty_command() -> KittyCommand {
    KittyCommand {
        action: KittyAction::TransmitAndDisplay,
        format: KittyFormat::Rgba,
        image_id: None,
        width: None,
        height: None,
        cell_cols: None,
        cell_rows: None,
        more_chunks: false,
        transmission: 'd',
        delete_target: None,
        quiet: 0,
    }
}

impl Default for KittyCommand {
    fn default() -> (c: Self)
        ensures
            c == default_kitty_command(),
    {
        Self {
            action: KittyAction::TransmitAndDisplay,
            format: KittyFormat::Rgba,
            image_id: None,
            width: None,
            height: None,
            cell_cols: None,
            cell_rows: None,
            more_chunks: false,
            transmission: 'd',
            delete_target: None,
            quiet: 0,
        }
    }
}

/// The action an `a=` value selects.
pub open spec fn kitty_action_of(v: Seq<char>) -> KittyAction {
    if v == seq!['t'] {
        KittyAction::Transmit
    } else if v == seq!['T'] {
        KittyAction::TransmitAndDisplay
    } else if v == seq!['p'] {
        KittyAction::Place
    } else if v == seq!['d'] {
        KittyAction::Delete
    } else if v == seq!['q'] {
        KittyAction::Query
    } else {
        KittyAction::TransmitAndDisplay
    }
}

/// The format an `f=` value selects.
pub open spec fn kitty_format_of(v: Seq<char>) -> KittyFormat {
    if v == seq!['2', '4'] {
        KittyFormat::Rgb
    } else if v == seq!['3', '2'] {
        KittyFormat::Rgba
    } else if v == seq!['1', '0', '0'] {
        KittyFormat::Png
    } else {
        KittyFormat::Rgba
    }
}

/// The first character of `v`, if any.
pub open spec fn first_char(v: Seq<char>) -> Option<char> {
    if v.len() > 0 {
        Some(v[0])
    } else {
        None
    }
}

/// The command after one `key=value` pair of a header (key and value trimmed;
/// unknown keys are ignored).
pub open spec fn apply_kitty_pair(cmd: KittyCommand, kv: Seq<char>) -> KittyCommand {
    let key = trim(before_first(kv, '='));
    let value = trim(after_first(kv, '='));
    if key == seq!['a'] {
        KittyCommand { action: kitty_action_of(value), ..cmd }
    } else if key == seq!['f'] {
        KittyCommand { format: kitty_format_of(value), ..cmd }
    } else if key == seq!['t'] {
        KittyCommand {
            transmission: match first_char(value) {
                Some(c) => c,
                None => 'd',
            },
            ..cmd
        }
    } else if key == seq!['i'] {
        KittyCommand { image_id: parse_u32(value), ..cmd }
    } else if key == seq!['s'] {
        KittyCommand { width: parse_u32(value), ..cmd }
    } else if key == seq!['v'] {
        KittyCommand { height: parse_u32(value), ..cmd }
    } else if key == seq!['c'] {
        KittyCommand { cell_cols: parse_usize(value), ..cmd }
    } else if key == seq!['r'] {
        KittyCommand { cell_rows: parse_usize(value), ..cmd }
    } else if key == seq!['m'] {
        KittyCommand { more_chunks: value == seq!['1'], ..cmd }
    } else if key == seq!['d'] {
        KittyCommand { delete_target: first_char(value), ..cmd }
    } else if key == seq!['q'] {
        KittyCommand {
            quiet: match parse_u8(value) {
                Some(q) => q,
                None => 0,
            },
            ..cmd
        }
    } else {
        cmd
    }
}

/// The command after the pairs `kvs`, in order.
pub open spec fn apply_kitty_pairs(cmd: KittyCommand, kvs: Seq<Seq<char>>) -> KittyCommand
    decreases kvs.len(),
{
    if kvs.len() == 0 {
        cmd
    } else {
        apply_kitty_pair(apply_kitty_pairs(cmd, kvs.drop_last()), kvs.last())
    }
}

/// The command that a header (comma-separated `key=value` pairs) describes.
pub open spec fn kitty_header(header: Seq<char>) -> KittyCommand {
    apply_kitty_pairs(default_kitty_command(), split_chars(header, ','))
}

/// Whether `chars[lo..hi]` is the one character `a`.
fn range_is1(chars: &Vec<char>, lo: usize, hi: usize, a: char) -> (r: bool)
    requires
        lo <= hi <= chars@.len(),
    ensures
        r == (chars@.subrange(lo as int, hi as int) == seq![a]),
{
    let r = hi - lo == 1 && chars[lo] == a;
    proof {
        let s = chars@.subrange(lo as int, hi as int);
        assert(seq![a].len() == 1 && seq![a][0] == a);
        if s == seq![a] {
            assert(s[0] == chars@[lo as int]);
        }
        if r {
            assert(s =~= seq![a]);
        }
    }
    r
}

/// Whether `chars[lo..hi]` is the two characters `a b`.
fn range_is2(chars: &Vec<char>, lo: usize, hi: usize, a: char, b: char) -> (r: bool)
    requires
        lo <= hi <= chars@.len(),
    ensures
        r == (chars@.subrange(lo as int, hi as int) == seq![a, b]),
{
    let r = hi - lo == 2 && chars[lo] == a && chars[lo + 1] == b;
    proof {
        let s = chars@.subrange(lo as int, hi as int);
        assert(seq![a, b].len() == 2 && seq![a, b][0] == a && seq![a, b][1] == b);
        if s == seq![a, b] {
            assert(s[0] == chars@[lo as int]);
            assert(s[1] == chars@[lo + 1]);
        }
        if r {
            assert(s =~= seq![a, b]);
        }
    }
    r
}

/// Whether `chars[lo..hi]` is the three characters `a b c`.
fn range_is3(chars: &Vec<char>, lo: usize, hi: usize, a: char, b: char, c: char) -> (r: bool)
    requires
        lo <= hi <= chars@.len(),
    ensures
        r == (chars@.subrange(lo as int, hi as int) == seq![a, b, c]),
{
    let r = hi - lo == 3 && chars[lo] == a && chars[lo + 1] == b && chars[lo + 2] == c;
    proof {
        let s = chars@.subrange(lo as int, hi as int);
        assert(seq![a, b, c].len() == 3 && seq![a, b, c][0] == a && seq![a, b, c][1] == b
            && seq![a, b, c][2] == c);
        if s == seq![a, b, c] {
            assert(s[0] == chars@[lo as int]);
            assert(s[1] == chars@[lo + 1]);
            assert(s[2] == chars@[lo + 2]);
        }
        if r {
            assert(s =~= seq![a, b, c]);
        }
    }
    r
}

/// The command after the pair `chars[lo..hi]`.
fn apply_pair(cmd: KittyCommand, chars: &Vec<char>, lo: usize, hi: usize) -> (r: KittyCommand)
    requires
        lo <= hi <= chars@.len(),
    ensures
        r == apply_kitty_pair(cmd, chars@.subrange(lo as int, hi as int)),
{
    let ghost kv = chars@.subrange(lo as int, hi as int);
    let eq = find_char(chars, lo, hi, '=');
    proof {
        assert(kv.take(char_position(kv, '=')) =~= chars@.subrange(lo as int, eq as int));
        if eq < hi {
            assert(kv.skip(char_position(kv, '=') + 1) =~= chars@.subrange(eq + 1, hi as int));
        }
    }
    let (klo, khi) = trim_range(chars, lo, eq);
    let (vlo, vhi) = if eq < hi {
        trim_range(chars, eq + 1, hi)
    } else {
        (hi, hi)
    };
    proof {
        if eq >= hi {
            assert(chars@.subrange(hi as int, hi as int) =~= trim(Seq::<char>::empty()));
        }
    }
    let mut cmd = cmd;
    if range_is1(chars, klo, khi, 'a') {
        cmd.action = if range_is1(chars, vlo, vhi, 't') {
            KittyAction::Transmit
        } else if range_is1(chars, vlo, vhi, 'T') {
            KittyAction::TransmitAndDisplay
        } else if range_is1(chars, vlo, vhi, 'p') {
            KittyAction::Place
        } else if range_is1(chars, vlo, vhi, 'd') {
            KittyAction::Delete
        } else if range_is1(chars, vlo, vhi, 'q') {
            KittyAction::Query
        } else {
            KittyAction::TransmitAndDisplay
        };
    } else if range_is1(chars, klo, khi, 'f') {
        cmd.format = if range_is2(chars, vlo, vhi, '2', '4') {
            KittyFormat::Rgb
        } else if range_is2(chars, vlo, vhi, '3', '2') {
            KittyFormat::Rgba
        } else if range_is3(chars, vlo, vhi, '1', '0', '0') {
            KittyFormat::Png
        } else {
            KittyFormat::Rgba
        };
    } else if range_is1(chars, klo, khi, 't') {
        cmd.transmission = if vlo < vhi {
            chars[vlo]
        } else {
            'd'
        };
    } else if range_is1(chars, klo, khi, 'i') {
        cmd.image_id = parse_u32_range(chars, vlo, vhi);
    } else if range_is1(chars, klo, khi, 's') {
        cmd.width = parse_u32_range(chars, vlo, vhi);
    } else if range_is1(chars, klo, khi, 'v') {
        cmd.height = parse_u32_range(chars, vlo, vhi);
    } else if range_is1(chars, klo, khi, 'c') {
        cmd.cell_cols = parse_usize_range(chars, vlo, vhi);
    } else if range_is1(chars, klo, khi, 'r') {
        cmd.cell_rows = parse_usize_range(chars, vlo, vhi);
    } else if range_is1(chars, klo, khi, 'm') {
        cmd.more_chunks = range_is1(chars, vlo, vhi, '1');
    } else if range_is1(chars, klo, khi, 'd') {
        cmd.delete_target = if vlo < vhi {
            Some(chars[vlo])
        } else {
            None
        };
    } else if range_is1(chars, klo, khi, 'q') {
        cmd.quiet = match parse_u8_range(chars, vlo, vhi) {
            Some(q) => q,
            None => 0,
        };
    }
    cmd
}

/// Parse a Kitty Graphics payload header (everything before the `;`).
///
/// The header consists of comma-separated `key=value` pairs.
pub fn parse_kitty_header(header: &str) -> (cmd: KittyCommand)
    ensures
        cmd == kitty_header(header@),
{
    let chars = str_chars(header);
    let n = chars.len();
    let mut cmd = KittyCommand::default();
    let mut start: usize = 0;
    let ghost mut done: Seq<Seq<char>> = Seq::empty();
    proof {
        assert(chars@.take(0) =~= Seq::<char>::empty());
        assert(chars@.subrange(0, 0) =~= Seq::<char>::empty());
        assert(done.push(chars@.subrange(0, 0)) =~= seq![Seq::<char>::empty()]);
    }
    for i in 0..n
        invariant
            n == chars@.len(),
            chars@ == header@,
            start <= i,
            split_chars(chars@.take(i as int), ',') == done.push(chars@.subrange(start as int, i as int)),
            cmd == apply_kitty_pairs(default_kitty_command(), done),
    {
        proof {
            assert(chars@.take(i + 1).drop_last() =~= chars@.take(i as int));
            assert(chars@.take(i + 1).last() == chars@[i as int]);
        }
        if chars[i] == ',' {
            cmd = apply_pair(cmd, &chars, start, i);
            proof {
                assert(done.push(chars@.subrange(start as int, i as int)).drop_last() =~= done);
                done = done.push(chars@.subrange(start as int, i as int));
                assert(chars@.subrange(i + 1, i + 1) =~= Seq::<char>::empty());
            }
            start = i + 1;
        } else {
            proof {
                let prev = done.push(chars@.subrange(start as int, i as int));
                assert(chars@.subrange(start as int, i as int).push(chars@[i as int]) =~= chars@.subrange(start as int, i + 1));
                assert(prev.update(prev.len() - 1, prev.last().push(chars@[i as int])) =~= done.push(
                    chars@.subrange(start as int, i + 1),
                ));
            }
        }
    }
    proof {
        assert(chars@.take(n as int) =~= chars@);
        assert(done.push(chars@.subrange(start as int, n as int)).drop_last() =~= done);
    }
    apply_pair(cmd, &chars, start, n)
}


// ---------------------------------------------------------------------------
// Chunked transmissions
// ---------------------------------------------------------------------------

/// What a chunked transmission has gathered so far.
pub struct KittyFeedState {
    /// The command of the first chunk.
    pub command: Option<KittyCommand>,
    /// The base64 text received so far.
    pub data: Seq<char>,
}

/// The state of an accumulator that has nothing pending.
pub open spec fn idle_feed_state() -> KittyFeedState {
    KittyFeedState { command: None, data: Seq::empty() }
}

/// The bytes a base64 text decodes to; nothing when it does not decode.
pub open spec fn decoded_or_empty(text: Seq<char>) -> Seq<u8> {
    match base64_standard_decoding(text) {
        Some(bytes) => bytes,
        None => Seq::empty(),
    }
}

/// One chunk `header;chunk` fed to an accumulator in state `s`: the state
/// after it, and the command with its decoded payload once the last chunk
/// (`m=0`) has arrived.
pub open spec fn kitty_feed(s: KittyFeedState, header: Seq<char>, chunk: Seq<char>) -> (
    KittyFeedState,
    Option<(KittyCommand, Seq<u8>)>,
) {
    let cmd = kitty_header(header);
    let first = match s.command {
        Some(c) => c,
        None => cmd,
    };
    let data = s.data + chunk;
    if cmd.more_chunks {
        (KittyFeedState { command: Some(KittyCommand { more_chunks: true, ..first }), data }, None)
    } else {
        (idle_feed_state(), Some((first, decoded_or_empty(data))))
    }
}

/// Accumulator for chunked Kitty Graphics transmissions.
#[derive(Debug, Default)]
pub struct KittyAccumulator {
    /// The command header from the first chunk.
    pub command: Option<KittyCommand>,
    /// Accumulated base64-encoded data across chunks.
    pub base64_data: String,
}

impl View for KittyAccumulator {
    type V = KittyFeedState;

    open spec fn view(&self) -> KittyFeedState {
        KittyFeedState { command: self.command, data: self.base64_data@ }
    }
}

impl KittyAccumulator {
    pub fn new() -> (acc: Self)
        ensures
            acc@ == idle_feed_state(),
    {
        Self { command: None, base64_data: String::new() }
    }

    /// Feed a parsed APC payload. Returns `Some(KittyCommand, decoded_bytes)` when
    /// the final chunk arrives (`m=0`).
    pub fn feed(&mut self, header: &str, base64_chunk: &str) -> (r: Option<(KittyCommand, Vec<u8>)>)
        ensures
            final(self)@ == kitty_feed(old(self)@, header@, base64_chunk@).0,
            match r {
                Some((cmd, bytes)) => kitty_feed(old(self)@, header@, base64_chunk@).1 == Some(
                    (cmd, bytes@),
                ),
                None => kitty_feed(old(self)@, header@, base64_chunk@).1 is None,
            },
    {
        let cmd = parse_kitty_header(header);
        if self.command.is_none() {
            self.command = Some(cmd);
        }
        self.base64_data.append(base64_chunk);
        if cmd.more_chunks {
            // Update more_chunks on the stored command.
            match self.command {
                Some(stored) => {
                    self.command = Some(KittyCommand { more_chunks: true, ..stored });
                },
                None => {},
            }
            return None;
        }
        // Final chunk: decode all accumulated data.
        let full_cmd = match self.command {
            Some(c) => c,
            None => cmd,
        };
        self.command = None;
        let mut b64 = String::new();
        std::mem::swap(&mut b64, &mut self.base64_data);
        let decoded = match decode_base64(b64.as_str()) {
            Some(bytes) => bytes,
            None => Vec::new(),
        };
        Some((full_cmd, decoded))
    }

    /// Reset the accumulator (e.g., on error).
    pub fn reset(&mut self)
        ensures
            final(self)@ == idle_feed_state(),
    {
        self.command = None;
        self.base64_data = String::new();
    }
}

/// A transmission split over two chunks delivers the first chunk's command
/// (marked as chunked) with the decoding of both chunks' text joined, and
/// leaves the accumulator idle.
pub proof fn lemma_kitty_two_chunks(h1: Seq<char>, c1: Seq<char>, h2: Seq<char>, c2: Seq<char>)
    requires
        kitty_header(h1).more_chunks,
        !kitty_header(h2).more_chunks,
    ensures
        ({
            let (s1, r1) = kitty_feed(idle_feed_state(), h1, c1);
            let (s2, r2) = kitty_feed(s1, h2, c2);
            &&& r1 is None
            &&& s2 == idle_feed_state()
            &&& r2 == Some((kitty_header(h1), decoded_or_empty(c1 + c2)))
        }),
{
    let (s1, r1) = kitty_feed(idle_feed_state(), h1, c1);
    assert(Seq::<char>::empty() + c1 =~= c1);
    assert(KittyCommand { more_chunks: true, ..kitty_header(h1) } == kitty_header(h1));
}

/// A transmission in one chunk delivers its own command and the decoding of
/// its text.
pub proof fn lemma_kitty_single_chunk(h: Seq<char>, c: Seq<char>)
    requires
        !kitty_header(h).more_chunks,
    ensures
        kitty_feed(idle_feed_state(), h, c) == (idle_feed_state(), Some(
            (kitty_header(h), decoded_or_empty(c)),
        )),
{
    assert(Seq::<char>::empty() + c =~= c);
}


// ---------------------------------------------------------------------------
// Executing commands
// ---------------------------------------------------------------------------

/// An optional pixel size, 0 when absent.
pub open spec fn u32_or_zero(v: Option<u32>) -> u32 {
    match v {
        Some(x) => x,
        None => 0,
    }
}

/// An optional cell span, 0 when absent.
pub open spec fn usize_or_zero(v: Option<usize>) -> usize {
    match v {
        Some(x) => x,
        None => 0,
    }
}

/// RGB pixels widened to RGBA with an opaque alpha channel.
pub open spec fn rgb_to_rgba(rgb: Seq<u8>) -> Seq<u8> {
    Seq::new(
        (rgb.len() / 3 * 4) as nat,
        |i: int|
            if i % 4 == 3 {
                255u8
            } else {
                rgb[(i / 4) * 3 + i % 4]
            },
    )
}

/// Whether the command stores pixel data that arrives raw (not PNG).
pub open spec fn transmits_raw_pixels(cmd: KittyCommand) -> bool {
    &&& (cmd.action == KittyAction::Transmit || cmd.action == KittyAction::TransmitAndDisplay)
    &&& cmd.transmission == 'd'
    &&& (cmd.format == KittyFormat::Rgb || cmd.format == KittyFormat::Rgba)
}

/// The byte counts a raw transmission of `payload_len` bytes computes fit in
/// `u32` (the width by height by bytes-per-pixel products).
pub open spec fn kitty_sizes_fit(cmd: KittyCommand, payload_len: int) -> bool {
    let area = u32_or_zero(cmd.width) * u32_or_zero(cmd.height);
    transmits_raw_pixels(cmd) ==> if cmd.format == KittyFormat::Rgba {
        area * 4 <= u32::MAX
    } else {
        &&& area * 3 <= u32::MAX
        &&& payload_len == area * 3 ==> area * 4 <= u32::MAX
    }
}

/// The RGBA pixels, width and height that a transmission's payload yields,
/// or nothing when it does not match the declared format and size.
pub open spec fn kitty_pixels(cmd: KittyCommand, payload: Seq<u8>) -> Option<(Seq<u8>, u32, u32)> {
    let w = u32_or_zero(cmd.width);
    let h = u32_or_zero(cmd.height);
    match cmd.format {
        KittyFormat::Png => png_decoding(payload),
        KittyFormat::Rgba => if w == 0 || h == 0 || payload.len() != w * h * 4 {
            None
        } else {
            Some((payload, w, h))
        },
        KittyFormat::Rgb => if w == 0 || h == 0 || payload.len() != w * h * 3 {
            None
        } else {
            Some((rgb_to_rgba(payload), w, h))
        },
    }
}

/// The placement a command makes for image `id` of `w` by `h` pixels at the
/// cursor.
pub open spec fn kitty_placement(
    cmd: KittyCommand,
    id: u32,
    w: u32,
    h: u32,
    col: usize,
    row: usize,
) -> ImagePlacement {
    ImagePlacement {
        image_id: id,
        col,
        row: row as isize,
        cell_cols: usize_or_zero(cmd.cell_cols),
        cell_rows: usize_or_zero(cmd.cell_rows),
        src_width: w,
        src_height: h,
    }
}

/// The store after a transmission of `pixels` (data, width, height): the
/// image is stored under the command's ID or a fresh one, and placed at the
/// cursor when the command also displays it.
pub open spec fn kitty_stored(
    store: ImageStoreView,
    cmd: KittyCommand,
    pixels: (Seq<u8>, u32, u32),
    col: usize,
    row: usize,
) -> ImageStoreView {
    let id = match cmd.image_id {
        Some(id) => id,
        None => store.next_id,
    };
    let taken = match cmd.image_id {
        Some(_) => store,
        None => store.id_taken(),
    };
    let s = taken.stored(ImageView { id, data: pixels.0, width: pixels.1, height: pixels.2 });
    if cmd.action == KittyAction::TransmitAndDisplay {
        s.placed(kitty_placement(cmd, id, pixels.1, pixels.2, col, row))
    } else {
        s
    }
}

/// The store after a complete command with its decoded payload.
pub open spec fn kitty_processed(
    store: ImageStoreView,
    cmd: KittyCommand,
    payload: Seq<u8>,
    col: usize,
    row: usize,
) -> ImageStoreView {
    match cmd.action {
        KittyAction::Transmit | KittyAction::TransmitAndDisplay => {
            if cmd.transmission != 'd' {
                store
            } else {
                match kitty_pixels(cmd, payload) {
                    Some(pixels) => kitty_stored(store, cmd, pixels, col, row),
                    None => store,
                }
            }
        },
        KittyAction::Place => match cmd.image_id {
            Some(id) => if store.images.contains_key(id) {
                store.placed(
                    kitty_placement(
                        cmd,
                        id,
                        store.images[id].width,
                        store.images[id].height,
                        col,
                        row,
                    ),
                )
            } else {
                store
            },
            None => store,
        },
        KittyAction::Delete => {
            if cmd.delete_target is None || cmd.delete_target == Some('a') {
                match cmd.image_id {
                    Some(id) => store.image_deleted(id),
                    None => store.cleared(),
                }
            } else if cmd.delete_target == Some('i') {
                match cmd.image_id {
                    Some(id) => store.image_deleted(id),
                    None => store,
                }
            } else {
                store
            }
        },
        KittyAction::Query => store,
    }
}

/// Store a transmitted image that has been decoded to RGBA, under the
/// command's ID or a fresh one, and place it at the cursor when the command
/// also displays it.
pub fn store_kitty_image(
    cmd: &KittyCommand,
    decoded: DecodedImage,
    store: &mut ImageStore,
    cursor_col: usize,
    cursor_row: usize,
)
    requires
        old(store)@.wf(),
    ensures
        final(store)@ == kitty_stored(old(store)@, *cmd, decoded_parts(decoded), cursor_col, cursor_row),
        final(store)@.wf(),
{
    let id = match cmd.image_id {
        Some(id) => id,
        None => store.next_id(),
    };
    let image = TerminalImage {
        id,
        data: decoded.data,
        width: decoded.width,
        height: decoded.height,
    };
    let should_place = cmd.action == KittyAction::TransmitAndDisplay;
    let img_w = image.width;
    let img_h = image.height;
    store.store_image(image);
    if should_place {
        store.add_placement(
            ImagePlacement {
                image_id: id,
                col: cursor_col,
                row: cursor_row as isize,
                cell_cols: match cmd.cell_cols {
                    Some(c) => c,
                    None => 0,
                },
                cell_rows: match cmd.cell_rows {
                    Some(r) => r,
                    None => 0,
                },
                src_width: img_w,
                src_height: img_h,
            },
        );
    }
}

/// RGB pixels widened to RGBA.
fn widen_rgb(payload: &[u8], capacity: usize) -> (rgba: Vec<u8>)
    requires
        payload@.len() % 3 == 0,
    ensures
        rgba@ == rgb_to_rgba(payload@),
{
    let mut rgba: Vec<u8> = Vec::with_capacity(capacity);
    let len = payload.len();
    let mut i: usize = 0;
    let ghost mut k: int = 0;
    while i < len
        invariant
            len == payload@.len(),
            len % 3 == 0,
            i == 3 * k,
            i <= len,
            rgba@.len() == 4 * k,
            forall|j: int|
                0 <= j < rgba@.len() ==> #[trigger] rgba@[j] == (if j % 4 == 3 {
                    255u8
                } else {
                    payload@[(j / 4) * 3 + j % 4]
                }),
        decreases len - i,
    {
        rgba.push(payload[i]);
        rgba.push(payload[i + 1]);
        rgba.push(payload[i + 2]);
        rgba.push(255);
        proof {
            assert((4 * k) / 4 == k && (4 * k) % 4 == 0);
            assert((4 * k + 1) / 4 == k && (4 * k + 1) % 4 == 1);
            assert((4 * k + 2) / 4 == k && (4 * k + 2) % 4 == 2);
            assert((4 * k + 3) / 4 == k && (4 * k + 3) % 4 == 3);
            k = k + 1;
        }
        i = i + 3;
    }
    proof {
        assert(rgba@ =~= rgb_to_rgba(payload@));
    }
    rgba
}

/// Process a complete Kitty Graphics command with decoded payload.
///
/// `cursor_col` and `cursor_row` are the current cursor position for placement.
pub fn process_kitty_command(
    cmd: &KittyCommand,
    payload: &[u8],
    store: &mut ImageStore,
    cursor_col: usize,
    cursor_row: usize,
)
    requires
        old(store)@.wf(),
        kitty_sizes_fit(*cmd, payload@.len() as int),
    ensures
        final(store)@ == kitty_processed(old(store)@, *cmd, payload@, cursor_col, cursor_row),
        final(store)@.wf(),
{
    match cmd.action {
        KittyAction::Transmit | KittyAction::TransmitAndDisplay => {
            // Only support direct transmission (t=d).
            if cmd.transmission != 'd' {
                return ;
            }
            let rgba_data = match cmd.format {
                KittyFormat::Png => match decode_png(payload) {
                    Some(img) => img,
                    None => {
                        return ;
                    },
                },
                KittyFormat::Rgba => {
                    let w = match cmd.width {
                        Some(w) => w,
                        None => 0,
                    };
                    let h = match cmd.height {
                        Some(h) => h,
                        None => 0,
                    };
                    if w == 0 || h == 0 {
                        return ;
                    }
                    let expected = (w * h * 4) as usize;
                    if payload.len() != expected {
                        return ;
                    }
                    DecodedImage { data: vstd::slice::slice_to_vec(payload), width: w, height: h }
                },
                KittyFormat::Rgb => {
                    let w = match cmd.width {
                        Some(w) => w,
                        None => 0,
                    };
                    let h = match cmd.height {
                        Some(h) => h,
                        None => 0,
                    };
                    if w == 0 || h == 0 {
                        return ;
                    }
                    let expected = (w * h * 3) as usize;
                    if payload.len() != expected {
                        return ;
                    }
                    // Convert RGB to RGBA.
                    let rgba = widen_rgb(payload, (w * h * 4) as usize);
                    DecodedImage { data: rgba, width: w, height: h }
                },
            };
            store_kitty_image(cmd, rgba_data, store, cursor_col, cursor_row);
        },
        KittyAction::Place => {
            let id = match cmd.image_id {
                Some(id) => id,
                None => {
                    return ;
                },
            };
            let (img_w, img_h) = match store.get_image(id) {
                Some(img) => (img.width, img.height),
                None => {
                    return ;
                },
            };
            store.add_placement(
                ImagePlacement {
                    image_id: id,
                    col: cursor_col,
                    row: cursor_row as isize,
                    cell_cols: match cmd.cell_cols {
                        Some(c) => c,
                        None => 0,
                    },
                    cell_rows: match cmd.cell_rows {
                        Some(r) => r,
                        None => 0,
                    },
                    src_width: img_w,
                    src_height: img_h,
                },
            );
        },
        KittyAction::Delete => {
            match cmd.delete_target {
                Some('i') => {
                    if let Some(id) = cmd.image_id {
                        store.delete_image(id);
                    }
                },
                Some(target) if target != 'a' => {},
                _ => {
                    // Delete all images.
                    if let Some(id) = cmd.image_id {
                        store.delete_image(id);
                    } else {
                        store.delete_all();
                    }
                },
            }
        },
        KittyAction::Query => {},
    }
}


/// Transmitting and displaying an image with an ID (`a=T`) leaves the store
/// as transmitting it (`a=t`) and then placing it at the same cursor
/// (`a=p`) does; the transmission alone places nothing.
pub proof fn lemma_transmit_and_display_is_transmit_then_place(
    s: ImageStoreView,
    cmd: KittyCommand,
    payload: Seq<u8>,
    other_payload: Seq<u8>,
    col: usize,
    row: usize,
)
    requires
        cmd.action == KittyAction::TransmitAndDisplay,
        cmd.image_id is Some,
        cmd.transmission == 'd',
        kitty_pixels(cmd, payload) is Some,
    ensures
        ({
            let transmit = KittyCommand { action: KittyAction::Transmit, ..cmd };
            let place = KittyCommand { action: KittyAction::Place, ..cmd };
            let sent = kitty_processed(s, transmit, payload, col, row);
            &&& sent.placements == s.placements
            &&& kitty_processed(s, cmd, payload, col, row) == kitty_processed(
                sent,
                place,
                other_payload,
                col,
                row,
            )
        }),
{
    let transmit = KittyCommand { action: KittyAction::Transmit, ..cmd };
    assert(kitty_pixels(transmit, payload) == kitty_pixels(cmd, payload));
}

/// A command the store does not act on: a transmission that is not direct
/// or whose pixels do not decode (raw pixels without a non-zero width and
/// height, or of the wrong length; PNG data the decoder refuses), a
/// placement of an image that is not stored, or a query.
pub open spec fn kitty_rejected(store: ImageStoreView, cmd: KittyCommand, payload: Seq<u8>) -> bool {
    let w = u32_or_zero(cmd.width);
    let h = u32_or_zero(cmd.height);
    match cmd.action {
        KittyAction::Transmit | KittyAction::TransmitAndDisplay => {
            ||| cmd.transmission != 'd'
            ||| (cmd.format == KittyFormat::Rgba && (w == 0 || h == 0 || payload.len() != w * h
                * 4))
            ||| (cmd.format == KittyFormat::Rgb && (w == 0 || h == 0 || payload.len() != w * h
                * 3))
            ||| (cmd.format == KittyFormat::Png && png_decoding(payload) is None)
        },
        KittyAction::Place => cmd.image_id is None || !store.images.contains_key(
            cmd.image_id->0,
        ),
        KittyAction::Query => true,
        KittyAction::Delete => false,
    }
}

/// A rejected command leaves the store exactly as it was: its images, its
/// placements, the renderer's mark, and the next automatic ID.
pub proof fn lemma_kitty_rejection_leaves_store(
    store: ImageStoreView,
    cmd: KittyCommand,
    payload: Seq<u8>,
    col: usize,
    row: usize,
)
    requires
        kitty_rejected(store, cmd, payload),
    ensures
        kitty_processed(store, cmd, payload, col, row) == store,
{
}

/// Widening RGB to RGBA keeps every pixel's bytes in the order received
/// and adds an opaque alpha: output pixel `k` is `rgb[3k]`, `rgb[3k+1]`,
/// `rgb[3k+2]`, 255, and there is one output pixel per whole input pixel.
pub proof fn lemma_rgb_widening(rgb: Seq<u8>)
    ensures
        rgb_to_rgba(rgb).len() == rgb.len() / 3 * 4,
        forall|k: int|
            0 <= k < rgb.len() / 3 ==> {
                &&& #[trigger] rgb_to_rgba(rgb)[4 * k] == rgb[3 * k]
                &&& rgb_to_rgba(rgb)[4 * k + 1] == rgb[3 * k + 1]
                &&& rgb_to_rgba(rgb)[4 * k + 2] == rgb[3 * k + 2]
                &&& rgb_to_rgba(rgb)[4 * k + 3] == 255
            },
{
    let out = rgb_to_rgba(rgb);
    assert forall|k: int| 0 <= k < rgb.len() / 3 implies {
        &&& #[trigger] out[4 * k] == rgb[3 * k]
        &&& out[4 * k + 1] == rgb[3 * k + 1]
        &&& out[4 * k + 2] == rgb[3 * k + 2]
        &&& out[4 * k + 3] == 255
    } by {
        assert((4 * k) / 4 == k && (4 * k) % 4 == 0);
        assert((4 * k + 1) / 4 == k && (4 * k + 1) % 4 == 1);
        assert((4 * k + 2) / 4 == k && (4 * k + 2) % 4 == 2);
        assert((4 * k + 3) / 4 == k && (4 * k + 3) % 4 == 3);
        assert(4 * k + 3 < rgb.len() / 3 * 4);
    }
}

/// A direct transmission (`t=d`) of a w by h image stores, under the
/// command's ID, RGBA pixels read straight from the payload: for `f=32`
/// the payload itself, for `f=24` each received pixel followed by an
/// opaque alpha byte. A payload of the wrong size stores nothing.
pub proof fn lemma_raw_transmission_pixels(
    store: ImageStoreView,
    cmd: KittyCommand,
    payload: Seq<u8>,
    col: usize,
    row: usize,
    id: u32,
)
    requires
        cmd.action == KittyAction::Transmit || cmd.action == KittyAction::TransmitAndDisplay,
        cmd.transmission == 'd',
        cmd.image_id == Some(id),
        cmd.format == KittyFormat::Rgb || cmd.format == KittyFormat::Rgba,
    ensures
        ({
            let w = u32_or_zero(cmd.width) as int;
            let h = u32_or_zero(cmd.height) as int;
            let bpp: int = if cmd.format == KittyFormat::Rgb { 3 } else { 4 };
            let after = kitty_processed(store, cmd, payload, col, row);
            &&& (w == 0 || h == 0 || payload.len() != w * h * bpp) ==> after == store
            &&& (w > 0 && h > 0 && payload.len() == w * h * bpp) ==> {
                &&& after.images.contains_key(id)
                &&& after.images[id].width == w
                &&& after.images[id].height == h
                &&& after.images[id].data.len() == w * h * 4
                &&& cmd.action == KittyAction::Transmit ==> after.placements == store.placements
                &&& cmd.action == KittyAction::TransmitAndDisplay ==> {
                    &&& after.placements.len() == store.placements.len() + 1
                    &&& after.placements.last().image_id == id
                    &&& after.placements.last().col == col
                    &&& after.placements.last().row == row as isize
                }
                &&& cmd.format == KittyFormat::Rgba ==> after.images[id].data == payload
                &&& cmd.format == KittyFormat::Rgb ==> forall|k: int|
                    0 <= k < w * h ==> {
                        &&& #[trigger] after.images[id].data[4 * k] == payload[3 * k]
                        &&& after.images[id].data[4 * k + 1] == payload[3 * k + 1]
                        &&& after.images[id].data[4 * k + 2] == payload[3 * k + 2]
                        &&& after.images[id].data[4 * k + 3] == 255
                    }
            }
        }),
{
    lemma_rgb_widening(payload);
    let w = u32_or_zero(cmd.width) as int;
    let h = u32_or_zero(cmd.height) as int;
    let a = w * h;
    assert((a * 3) / 3 == a);
}

/// A `key=value` pair splits at its `=` into the key and the value, when
/// neither has whitespace at its ends.
proof fn lemma_pair_parts(k: char, v: Seq<char>)
    requires
        k != '=',
        !is_whitespace(k),
        v.len() > 0 ==> !is_whitespace(v[0]) && !is_whitespace(v.last()),
    ensures
        trim(before_first(seq![k, '='] + v, '=')) == seq![k],
        trim(after_first(seq![k, '='] + v, '=')) == v,
{
    let kv = seq![k, '='] + v;
    assert(kv.drop_first() =~= seq!['='] + v);
    assert(char_position(kv.drop_first(), '=') == 0);
    assert(char_position(kv, '=') == 1);
    assert(kv.take(1) =~= seq![k]);
    assert(kv.skip(2) =~= v);
    assert(trim_start(seq![k]) == seq![k]);
    assert(trim_end(seq![k]) == seq![k]);
    assert(trim_start(v) == v);
    assert(trim_end(v) == v);
}

/// Each header key sets its own field and nothing else: `a=` the action
/// (`t` transmit, `T` transmit and display, `p` place, `d` delete, `q`
/// query), `f=` the format (24 RGB, 32 RGBA, 100 PNG), `s=` the width and
/// `v=` the height in pixels, `i=` the image ID, `c=` and `r=` the cell
/// columns and rows, `m=1` more chunks to come.
pub proof fn lemma_kitty_keys(cmd: KittyCommand, v: Seq<char>)
    requires
        v.len() > 0 ==> !is_whitespace(v[0]) && !is_whitespace(v.last()),
    ensures
        apply_kitty_pair(cmd, seq!['a', '=', 't']) == (KittyCommand { action: KittyAction::Transmit, ..cmd }),
        apply_kitty_pair(cmd, seq!['a', '=', 'T']) == (KittyCommand {
            action: KittyAction::TransmitAndDisplay,
            ..cmd
        }),
        apply_kitty_pair(cmd, seq!['a', '=', 'p']) == (KittyCommand { action: KittyAction::Place, ..cmd }),
        apply_kitty_pair(cmd, seq!['a', '=', 'd']) == (KittyCommand { action: KittyAction::Delete, ..cmd }),
        apply_kitty_pair(cmd, seq!['a', '=', 'q']) == (KittyCommand { action: KittyAction::Query, ..cmd }),
        apply_kitty_pair(cmd, seq!['f', '=', '2', '4']) == (KittyCommand { format: KittyFormat::Rgb, ..cmd }),
        apply_kitty_pair(cmd, seq!['f', '=', '3', '2']) == (KittyCommand { format: KittyFormat::Rgba, ..cmd }),
        apply_kitty_pair(cmd, seq!['f', '=', '1', '0', '0']) == (KittyCommand {
            format: KittyFormat::Png,
            ..cmd
        }),
        apply_kitty_pair(cmd, seq!['s', '='] + v) == (KittyCommand { width: parse_u32(v), ..cmd }),
        apply_kitty_pair(cmd, seq!['v', '='] + v) == (KittyCommand { height: parse_u32(v), ..cmd }),
        apply_kitty_pair(cmd, seq!['i', '='] + v) == (KittyCommand { image_id: parse_u32(v), ..cmd }),
        apply_kitty_pair(cmd, seq!['c', '='] + v) == (KittyCommand { cell_cols: parse_usize(v), ..cmd }),
        apply_kitty_pair(cmd, seq!['r', '='] + v) == (KittyCommand { cell_rows: parse_usize(v), ..cmd }),
        apply_kitty_pair(cmd, seq!['m', '=', '1']) == (KittyCommand { more_chunks: true, ..cmd }),
        apply_kitty_pair(cmd, seq!['m', '=', '0']) == (KittyCommand { more_chunks: false, ..cmd }),
{
    lemma_pair_parts('a', seq!['t']);
    lemma_pair_parts('a', seq!['T']);
    lemma_pair_parts('a', seq!['p']);
    lemma_pair_parts('a', seq!['d']);
    lemma_pair_parts('a', seq!['q']);
    lemma_pair_parts('f', seq!['2', '4']);
    lemma_pair_parts('f', seq!['3', '2']);
    lemma_pair_parts('f', seq!['1', '0', '0']);
    lemma_pair_parts('s', v);
    lemma_pair_parts('v', v);
    lemma_pair_parts('i', v);
    lemma_pair_parts('c', v);
    lemma_pair_parts('r', v);
    lemma_pair_parts('m', seq!['1']);
    lemma_pair_parts('m', seq!['0']);
    assert(seq!['a', '=', 't'] =~= seq!['a', '='] + seq!['t']);
    assert(seq!['a', '=', 'T'] =~= seq!['a', '='] + seq!['T']);
    assert(seq!['a', '=', 'p'] =~= seq!['a', '='] + seq!['p']);
    assert(seq!['a', '=', 'd'] =~= seq!['a', '='] + seq!['d']);
    assert(seq!['a', '=', 'q'] =~= seq!['a', '='] + seq!['q']);
    assert(seq!['f', '=', '2', '4'] =~= seq!['f', '='] + seq!['2', '4']);
    assert(seq!['f', '=', '3', '2'] =~= seq!['f', '='] + seq!['3', '2']);
    assert(seq!['f', '=', '1', '0', '0'] =~= seq!['f', '='] + seq!['1', '0', '0']);
    assert(seq!['m', '=', '1'] =~= seq!['m', '='] + seq!['1']);
    assert(seq!['m', '=', '0'] =~= seq!['m', '='] + seq!['0']);
    assert(seq!['T'] != seq!['t']) by { assert(seq!['T'][0] != seq!['t'][0]); }
    assert(seq!['p'] != seq!['t'] && seq!['p'] != seq!['T']) by {
        assert(seq!['p'][0] != seq!['t'][0] && seq!['p'][0] != seq!['T'][0]);
    }
    assert(seq!['d'] != seq!['t'] && seq!['d'] != seq!['T'] && seq!['d'] != seq!['p']) by {
        assert(seq!['d'][0] != seq!['t'][0] && seq!['d'][0] != seq!['T'][0] && seq!['d'][0]
            != seq!['p'][0]);
    }
    assert(seq!['q'] != seq!['t'] && seq!['q'] != seq!['T'] && seq!['q'] != seq!['p']
        && seq!['q'] != seq!['d']) by {
        assert(seq!['q'][0] != seq!['t'][0] && seq!['q'][0] != seq!['T'][0] && seq!['q'][0]
            != seq!['p'][0] && seq!['q'][0] != seq!['d'][0]);
    }
    assert(seq!['3', '2'] != seq!['2', '4']) by { assert(seq!['3', '2'][0] != seq!['2', '4'][0]); }
    assert(seq!['0'] != seq!['1']) by { assert(seq!['0'][0] != seq!['1'][0]); }
    assert(seq!['f'] != seq!['a']) by { assert(seq!['f'][0] != seq!['a'][0]); }
    assert(seq!['s'] != seq!['a'] && seq!['s'] != seq!['f'] && seq!['s'] != seq!['t']
        && seq!['s'] != seq!['i']) by {
        assert(seq!['s'][0] != seq!['a'][0] && seq!['s'][0] != seq!['f'][0] && seq!['s'][0]
            != seq!['t'][0] && seq!['s'][0] != seq!['i'][0]);
    }
    assert(seq!['v'] != seq!['a'] && seq!['v'] != seq!['f'] && seq!['v'] != seq!['t']
        && seq!['v'] != seq!['i'] && seq!['v'] != seq!['s']) by {
        assert(seq!['v'][0] != seq!['a'][0] && seq!['v'][0] != seq!['f'][0] && seq!['v'][0]
            != seq!['t'][0] && seq!['v'][0] != seq!['i'][0] && seq!['v'][0] != seq!['s'][0]);
    }
    assert(seq!['i'] != seq!['a'] && seq!['i'] != seq!['f'] && seq!['i'] != seq!['t']) by {
        assert(seq!['i'][0] != seq!['a'][0] && seq!['i'][0] != seq!['f'][0] && seq!['i'][0]
            != seq!['t'][0]);
    }
    assert(seq!['c'] != seq!['a'] && seq!['c'] != seq!['f'] && seq!['c'] != seq!['t']
        && seq!['c'] != seq!['i'] && seq!['c'] != seq!['s'] && seq!['c'] != seq!['v']) by {
        assert(seq!['c'][0] != seq!['a'][0] && seq!['c'][0] != seq!['f'][0] && seq!['c'][0]
            != seq!['t'][0] && seq!['c'][0] != seq!['i'][0] && seq!['c'][0] != seq!['s'][0]
            && seq!['c'][0] != seq!['v'][0]);
    }
    assert(seq!['r'] != seq!['a'] && seq!['r'] != seq!['f'] && seq!['r'] != seq!['t']
        && seq!['r'] != seq!['i'] && seq!['r'] != seq!['s'] && seq!['r'] != seq!['v']
        && seq!['r'] != seq!['c']) by {
        assert(seq!['r'][0] != seq!['a'][0] && seq!['r'][0] != seq!['f'][0] && seq!['r'][0]
            != seq!['t'][0] && seq!['r'][0] != seq!['i'][0] && seq!['r'][0] != seq!['s'][0]
            && seq!['r'][0] != seq!['v'][0] && seq!['r'][0] != seq!['c'][0]);
    }
    assert(seq!['m'] != seq!['a'] && seq!['m'] != seq!['f'] && seq!['m'] != seq!['t']
        && seq!['m'] != seq!['i'] && seq!['m'] != seq!['s'] && seq!['m'] != seq!['v']
        && seq!['m'] != seq!['c'] && seq!['m'] != seq!['r']) by {
        assert(seq!['m'][0] != seq!['a'][0] && seq!['m'][0] != seq!['f'][0] && seq!['m'][0]
            != seq!['t'][0] && seq!['m'][0] != seq!['i'][0] && seq!['m'][0] != seq!['s'][0]
            && seq!['m'][0] != seq!['v'][0] && seq!['m'][0] != seq!['c'][0] && seq!['m'][0]
            != seq!['r'][0]);
    }
}

/// Placing (`a=p`) a stored image adds one placement of it at the cursor,
/// with its pixel size, and changes no image; an unknown ID places
/// nothing. Deleting (`a=d`) with `d=a`, `d=i` or no target removes the
/// image the ID names and its placements, or, with no ID and target `a`
/// or none, every image and placement. A query changes nothing.
pub proof fn lemma_kitty_place_delete(
    store: ImageStoreView,
    cmd: KittyCommand,
    payload: Seq<u8>,
    col: usize,
    row: usize,
    id: u32,
)
    requires
        cmd.image_id == Some(id),
    ensures
        ({
            let after = kitty_processed(store, cmd, payload, col, row);
            &&& cmd.action == KittyAction::Place && store.images.contains_key(id) ==> {
                &&& after.images == store.images
                &&& after.placements.len() == store.placements.len() + 1
                &&& after.placements.take(store.placements.len() as int) == store.placements
                &&& after.placements.last().image_id == id
                &&& after.placements.last().col == col
                &&& after.placements.last().row == row as isize
                &&& after.placements.last().src_width == store.images[id].width
                &&& after.placements.last().src_height == store.images[id].height
                &&& (cmd.cell_cols is Some && cmd.cell_cols->0 > 0) ==> after.placements.last().cell_cols
                    == cmd.cell_cols->0
                &&& (cmd.cell_rows is Some && cmd.cell_rows->0 > 0) ==> after.placements.last().cell_rows
                    == cmd.cell_rows->0
            }
            &&& cmd.action == KittyAction::Place && !store.images.contains_key(id) ==> after == store
            &&& (cmd.action == KittyAction::Delete && (cmd.delete_target is None
                || cmd.delete_target == Some('a') || cmd.delete_target == Some('i'))) ==> {
                &&& !after.images.contains_key(id)
                &&& forall|q: ImagePlacement| after.placements.contains(q) ==> q.image_id != id
            }
            &&& cmd.action == KittyAction::Query ==> after == store
        }),
{
    broadcast use vstd::seq_lib::group_filter_ensures;

    let after = kitty_processed(store, cmd, payload, col, row);
    if cmd.action == KittyAction::Place && store.images.contains_key(id) {
        assert(after.placements.take(store.placements.len() as int) =~= store.placements);
    }
    if cmd.action == KittyAction::Delete && (cmd.delete_target is None || cmd.delete_target == Some('a')
        || cmd.delete_target == Some('i')) {
        let keep = |p: ImagePlacement| p.image_id != id;
        assert forall|q: ImagePlacement| after.placements.contains(q) implies q.image_id != id by {
            let k = choose|k: int| 0 <= k < after.placements.len() && after.placements[k] == q;
            store.placements.lemma_filter_pred(keep, k);
        }
    }
}

/// Deleting with no ID (target `a` or none) clears the store.
pub proof fn lemma_kitty_delete_all(store: ImageStoreView, cmd: KittyCommand, payload: Seq<u8>, col: usize, row: usize)
    requires
        cmd.action == KittyAction::Delete,
        cmd.image_id is None,
        cmd.delete_target is None || cmd.delete_target == Some('a'),
    ensures
        kitty_processed(store, cmd, payload, col, row).images == Map::<u32, ImageView>::empty(),
        kitty_processed(store, cmd, payload, col, row).placements.len() == 0,
{
}

/// Chunked transmissions: a single final chunk (`m=0`) hands out its own
/// command and its decoded data; a first chunk with `m=1` hands out
/// nothing and the final chunk after it hands out the first chunk's
/// command with the data of both chunks joined in order, leaving the
/// accumulator idle.
pub proof fn lemma_kitty_chunks_join(h1: Seq<char>, c1: Seq<char>, h2: Seq<char>, c2: Seq<char>)
    ensures
        !kitty_header(h1).more_chunks ==> kitty_feed(idle_feed_state(), h1, c1) == (
            idle_feed_state(),
            Some((kitty_header(h1), decoded_or_empty(c1))),
        ),
        (kitty_header(h1).more_chunks && !kitty_header(h2).more_chunks) ==> {
            let (s1, r1) = kitty_feed(idle_feed_state(), h1, c1);
            let (s2, r2) = kitty_feed(s1, h2, c2);
            &&& r1 is None
            &&& s2 == idle_feed_state()
            &&& r2 == Some((kitty_header(h1), decoded_or_empty(c1 + c2)))
        },
{
    assert(Seq::<char>::empty() + c1 =~= c1);
}

} // verus!
