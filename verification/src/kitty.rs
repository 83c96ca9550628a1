//! Minimal implementation of the kitty graphics protocol.
//!
//! Programs transmit images in application command sequences (`ESC _` ...
//! `ESC \`). A [`KittyStore`] turns their payloads into decoded images and into
//! placements that the renderer draws.
//!
//! Sizes in the protocol are floating-point numerals. They are kept as the
//! numerals that were sent; working out how many cells an image covers is left
//! to the caller, which answers a [`MeasureJob`]. Reading a file is left to the
//! caller too, which answers a [`FileJob`].
use std::collections::HashMap;

use base64::Engine;
use vstd::prelude::*;
use vstd::string::*;
use vstd::utf8::*;

use crate::text::{
    chars_of, decimal, find_char, first_index, float_numeral, is_float_numeral,
    law_floating_point_numerals, law_numeral_reads_back, lemma_ascii_byte, lemma_decimal_digits,
    lemma_encode_sum, lemma_first_index_bound, lemma_readable_encoded, lemma_split_last, opt_text,
    owned, parse_signed, parse_unsigned, readable_text, same, signed_value, split_at_each,
    split_text, text_of, texts, trim, trimmed, unsigned_value, utf8_lossy,
};
use crate::text_map::TextMap;

verus! {

broadcast use vstd::std_specs::hash::group_hash_axioms;

/// Invisible character written into the grid cells that an image placement
/// covers. A placement is only drawn while every cell of its box still holds
/// the marker: as soon as a cell is overwritten the placement is dropped, so
/// that stale images do not linger on screen.
pub const KITTY_MARKER: char = '\u{E000}';

/// Decoded RGBA image ready to be uploaded as a texture.
pub struct KittyImage {
    pub width: u32,
    pub height: u32,
    /// Straight RGBA, four bytes a pixel, row by row.
    pub rgba: Vec<u8>,
    /// Cell size given at transmit time, for later placements that omit it.
    pub cells_w: Option<String>,
    pub cells_h: Option<String>,
    /// Differs from that of every image stored earlier, so that stale textures
    /// can be told apart.
    pub gen: u64,
}

/// A request to draw an image anchored to a grid cell.
pub struct Placement {
    pub image_id: u64,
    pub gen: u64,
    pub col: usize,
    pub row: isize,
    /// Width and height in cells.
    pub cells_w: Option<String>,
    pub cells_h: Option<String>,
    /// Width and height in pixels.
    pub px_w: Option<String>,
    pub px_h: Option<String>,
    pub z: i32,
}

/// What a transmission says of its image before the data.
pub struct Header {
    pub image_id: u64,
    pub format: u32,
    pub zlib: bool,
    /// The payload is the base64 of a file path, not image data.
    pub file: bool,
    pub size: Option<(u32, u32)>,
    pub cells_w: Option<String>,
    pub cells_h: Option<String>,
    pub px_w: Option<String>,
    pub px_h: Option<String>,
    pub z: i32,
}

/// A chunked transmission in progress.
struct Pending {
    header: Header,
    /// Base64 payload accumulated across chunks.
    data: Vec<u8>,
}

/// Outcome of processing one payload.
#[derive(Debug, Clone, Copy, PartialEq, Eq, Structural)]
pub enum KittyAction {
    /// Nothing interesting happened.
    Nothing,
    /// A capability query was received; the caller should answer.
    Respond,
    /// The store changed and the screen should be redrawn.
    Changed,
    /// A transmitted image was placed at `(col, row)` covering `cols` by `rows`
    /// cells. The caller should allocate those cells and advance the cursor so
    /// that later text flows around the image.
    Place { col: usize, row: isize, cols: usize, rows: usize },
    /// A placement covers `cols` by `rows` cells at `(col, row)`. The caller
    /// should mark those cells without moving the cursor.
    MarkCells { col: usize, row: isize, cols: usize, rows: usize },
}

/// A file that has to be read before a transmission can go on.
pub struct FileJob {
    header: Header,
    path: String,
    cursor: (usize, isize),
    display: bool,
}

/// A placement whose cell box has to be worked out.
pub struct MeasureJob {
    pub placement: Placement,
    /// Column and row that were asked for, in place of the cursor.
    pub x: Option<String>,
    pub y: Option<String>,
    /// Size of the image in pixels.
    pub width: u32,
    pub height: u32,
    /// The image flows with the text.
    pub inline: bool,
}

/// What is left to do for a payload.
pub enum KittyStep {
    /// Nothing: this is the outcome.
    Done(KittyAction),
    /// Read a file and hand its bytes to [`KittyStore::read_file`].
    Read(FileJob),
    /// Work out a cell box and hand it to [`KittyStore::place`].
    Measure(MeasureJob),
}

/// Store of the decoded images and active placements of a pane.
pub struct KittyStore {
    pub images: HashMap<u64, KittyImage>,
    pub placements: Vec<Placement>,
    pending: Option<Pending>,
    gen_counter: u64,
}

// ---------------------------------------------------------------------------
// Views
// ---------------------------------------------------------------------------

/// The pixels of an image.
#[verifier::ext_equal]
pub struct PixelsView {
    pub width: u32,
    pub height: u32,
    pub rgba: Seq<u8>,
}

/// A stored image.
#[verifier::ext_equal]
pub struct ImageView {
    pub pixels: PixelsView,
    pub cells_w: Option<Seq<char>>,
    pub cells_h: Option<Seq<char>>,
    pub gen: u64,
}

/// A placement.
#[verifier::ext_equal]
pub struct PlacementView {
    pub image_id: u64,
    pub gen: u64,
    pub col: usize,
    pub row: isize,
    pub cells_w: Option<Seq<char>>,
    pub cells_h: Option<Seq<char>>,
    pub px_w: Option<Seq<char>>,
    pub px_h: Option<Seq<char>>,
    pub z: i32,
}

/// The header of a transmission.
#[verifier::ext_equal]
pub struct HeaderView {
    pub image_id: u64,
    pub format: u32,
    pub zlib: bool,
    pub file: bool,
    pub size: Option<(u32, u32)>,
    pub cells_w: Option<Seq<char>>,
    pub cells_h: Option<Seq<char>>,
    pub px_w: Option<Seq<char>>,
    pub px_h: Option<Seq<char>>,
    pub z: i32,
}

/// A transmission in progress: its header and the data so far.
#[verifier::ext_equal]
pub struct PendingView {
    pub header: HeaderView,
    pub data: Seq<u8>,
}

/// A file to be read.
#[verifier::ext_equal]
pub struct FileJobView {
    pub header: HeaderView,
    pub path: Seq<char>,
    pub cursor: (usize, isize),
    pub display: bool,
}

/// A placement to be measured.
#[verifier::ext_equal]
pub struct MeasureJobView {
    pub placement: PlacementView,
    pub x: Option<Seq<char>>,
    pub y: Option<Seq<char>>,
    pub width: u32,
    pub height: u32,
    pub inline: bool,
}

/// What is left to do for a payload.
#[verifier::ext_equal]
pub enum StepView {
    Done(KittyAction),
    Read(FileJobView),
    Measure(MeasureJobView),
}

/// The contents of a store. The next image stored gets the generation
/// `next_gen`.
#[verifier::ext_equal]
pub struct StoreView {
    pub images: Map<u64, ImageView>,
    pub placements: Seq<PlacementView>,
    pub pending: Option<PendingView>,
    pub next_gen: u64,
}

impl View for KittyImage {
    type V = ImageView;

    open spec fn view(&self) -> ImageView {
        ImageView {
            pixels: PixelsView { width: self.width, height: self.height, rgba: self.rgba@ },
            cells_w: opt_text(self.cells_w),
            cells_h: opt_text(self.cells_h),
            gen: self.gen,
        }
    }
}

impl View for Placement {
    type V = PlacementView;

    open spec fn view(&self) -> PlacementView {
        PlacementView {
            image_id: self.image_id,
            gen: self.gen,
            col: self.col,
            row: self.row,
            cells_w: opt_text(self.cells_w),
            cells_h: opt_text(self.cells_h),
            px_w: opt_text(self.px_w),
            px_h: opt_text(self.px_h),
            z: self.z,
        }
    }
}

impl View for Header {
    type V = HeaderView;

    open spec fn view(&self) -> HeaderView {
        HeaderView {
            image_id: self.image_id,
            format: self.format,
            zlib: self.zlib,
            file: self.file,
            size: self.size,
            cells_w: opt_text(self.cells_w),
            cells_h: opt_text(self.cells_h),
            px_w: opt_text(self.px_w),
            px_h: opt_text(self.px_h),
            z: self.z,
        }
    }
}

impl View for Pending {
    type V = PendingView;

    closed spec fn view(&self) -> PendingView {
        PendingView { header: self.header@, data: self.data@ }
    }
}

impl View for FileJob {
    type V = FileJobView;

    closed spec fn view(&self) -> FileJobView {
        FileJobView {
            header: self.header@,
            path: self.path@,
            cursor: self.cursor,
            display: self.display,
        }
    }
}

impl View for MeasureJob {
    type V = MeasureJobView;

    open spec fn view(&self) -> MeasureJobView {
        MeasureJobView {
            placement: self.placement@,
            x: opt_text(self.x),
            y: opt_text(self.y),
            width: self.width,
            height: self.height,
            inline: self.inline,
        }
    }
}

impl View for KittyStep {
    type V = StepView;

    open spec fn view(&self) -> StepView {
        match self {
            KittyStep::Done(action) => StepView::Done(*action),
            KittyStep::Read(job) => StepView::Read(job@),
            KittyStep::Measure(job) => StepView::Measure(job@),
        }
    }
}

/// The images of a store by their number.
pub open spec fn image_views(m: Map<u64, KittyImage>) -> Map<u64, ImageView> {
    m.map_values(|i: KittyImage| i@)
}

/// The placements of a store.
pub open spec fn placement_views(v: Seq<Placement>) -> Seq<PlacementView> {
    Seq::new(v.len(), |i: int| v[i]@)
}

impl View for KittyStore {
    type V = StoreView;

    closed spec fn view(&self) -> StoreView {
        StoreView {
            images: image_views(self.images@),
            placements: placement_views(self.placements@),
            pending: match self.pending {
                Some(pending) => Some(pending@),
                None => None,
            },
            next_gen: self.gen_counter,
        }
    }
}

// ---------------------------------------------------------------------------
// Control data
// ---------------------------------------------------------------------------

/// What a list of control tokens sets, and the key that was set last. A token
/// without `=` belongs to the value of the key before it.
pub open spec fn control_state(tokens: Seq<Seq<char>>) -> (
    Map<Seq<char>, Seq<char>>,
    Option<Seq<char>>,
)
    decreases tokens.len(),
{
    if tokens.len() == 0 {
        (Map::empty(), None)
    } else {
        let (m, last) = control_state(tokens.drop_last());
        let token = tokens.last();
        let eq = first_index(token, '=') as int;
        if eq < token.len() {
            let key = trimmed(token.take(eq));
            (m.insert(key, trimmed(token.skip(eq + 1))), Some(key))
        } else {
            match last {
                Some(key) => (m.insert(key, m[key] + ","@ + token), last),
                None => (m, last),
            }
        }
    }
}

/// The keys and values of `key=value,key=value` control data.
pub open spec fn controls(control: Seq<char>) -> Map<Seq<char>, Seq<char>> {
    control_state(split_at_each(control, ',')).0
}

/// The key that was set last is set.
proof fn lemma_last_key(tokens: Seq<Seq<char>>)
    ensures
        control_state(tokens).1 matches Some(key) ==> control_state(tokens).0.contains_key(key),
    decreases tokens.len(),
{
    if tokens.len() > 0 {
        lemma_last_key(tokens.drop_last());
    }
}

/// Parse the `key=value,key=value` control data. Values may themselves contain
/// commas (e.g. `s=w,h`), which are rejoined into the previous key.
pub fn parse_control(control: &str) -> (r: TextMap)
    ensures
        r@ == controls(control@),
{
    let mut out = TextMap::new();
    let mut last_key: Option<String> = None;
    let tokens = split_text(control, ',');
    let ghost all = texts(tokens@);
    let mut i: usize = 0;
    assert(all.take(0) =~= Seq::empty());
    while i < tokens.len()
        invariant
            i <= tokens@.len(),
            all == texts(tokens@),
            out@ == control_state(all.take(i as int)).0,
            opt_text(last_key) == control_state(all.take(i as int)).1,
        decreases tokens@.len() - i,
    {
        proof {
            assert(all.take(i + 1).drop_last() =~= all.take(i as int));
            assert(all.take(i + 1).last() == tokens@[i as int]@);
            lemma_last_key(all.take(i as int));
        }
        let token = chars_of(tokens[i].as_str());
        let n: usize = token.len();
        let eq = find_char(&token, 0, '=');
        assert(token@.skip(0) =~= token@);
        if eq < n {
            let key = trim(text_of(&token, 0, eq).as_str());
            let value = trim(text_of(&token, eq + 1, n).as_str());
            assert(token@.subrange(0, eq as int) =~= token@.take(eq as int));
            assert(token@.subrange(eq + 1, n as int) =~= token@.skip(eq + 1));
            out.insert(key.as_str(), value.as_str());
            last_key = Some(key);
        } else if let Some(key) = &last_key {
            if let Some(before) = out.get(key.as_str()) {
                let mut value = before;
                value.append(",");
                value.append(tokens[i].as_str());
                out.insert(key.as_str(), value.as_str());
            }
        }
        i += 1;
    }
    assert(all.take(i as int) =~= all);
    out
}

/// Whether a key is set to a value.
pub open spec fn is_set(kv: Map<Seq<char>, Seq<char>>, key: Seq<char>, value: Seq<char>) -> bool {
    kv.contains_key(key) && kv[key] == value
}

/// The number that a key is set to, if it is one that is at most `max`.
pub open spec fn unsigned_of(kv: Map<Seq<char>, Seq<char>>, key: Seq<char>, max: nat) -> Option<
    nat,
> {
    if kv.contains_key(key) {
        unsigned_value(kv[key], max)
    } else {
        None
    }
}

/// The depth that `z` is set to, or zero.
pub open spec fn depth_of(kv: Map<Seq<char>, Seq<char>>) -> i32 {
    if kv.contains_key("z"@) {
        match signed_value(kv["z"@]) {
            Some(n) => n as i32,
            None => 0,
        }
    } else {
        0
    }
}

/// The floating-point numeral that a key is set to.
pub open spec fn float_of(kv: Map<Seq<char>, Seq<char>>, key: Seq<char>) -> Option<Seq<char>> {
    if kv.contains_key(key) && is_float_numeral(kv[key]) {
        Some(kv[key])
    } else {
        None
    }
}

/// The image number that `i` is set to, or zero.
pub open spec fn image_id_of(kv: Map<Seq<char>, Seq<char>>) -> u64 {
    match unsigned_of(kv, "i"@, u64::MAX as nat) {
        Some(n) => n as u64,
        None => 0,
    }
}

/// The size in pixels: `s=w,h`, or `s=w` and `v=h`.
pub open spec fn size_of(kv: Map<Seq<char>, Seq<char>>) -> Option<(u32, u32)> {
    if !kv.contains_key("s"@) {
        None
    } else {
        let parts = split_at_each(kv["s"@], ',');
        let h = if parts.len() > 1 {
            unsigned_value(parts[1], u32::MAX as nat)
        } else {
            unsigned_of(kv, "v"@, u32::MAX as nat)
        };
        match (unsigned_value(parts[0], u32::MAX as nat), h) {
            (Some(w), Some(h)) => Some((w as u32, h as u32)),
            _ => None,
        }
    }
}

/// What control data says of the image it introduces.
pub open spec fn header_of(kv: Map<Seq<char>, Seq<char>>) -> HeaderView {
    HeaderView {
        image_id: image_id_of(kv),
        format: match unsigned_of(kv, "f"@, u32::MAX as nat) {
            Some(n) => n as u32,
            None => 100,
        },
        zlib: is_set(kv, "o"@, "z"@),
        file: is_set(kv, "t"@, "f"@),
        size: size_of(kv),
        cells_w: float_of(kv, "c"@),
        cells_h: float_of(kv, "r"@),
        px_w: float_of(kv, "w"@),
        px_h: float_of(kv, "h"@),
        z: depth_of(kv),
    }
}

/// Whether a key is set to a value.
fn key_is(kv: &TextMap, key: &str, value: &str) -> (r: bool)
    ensures
        r == is_set(kv@, key@, value@),
{
    match kv.get(key) {
        Some(v) => same(v.as_str(), value),
        None => false,
    }
}

/// The number that a key is set to.
fn num(kv: &TextMap, key: &str, max: u64) -> (r: Option<u64>)
    ensures
        match r {
            Some(n) => unsigned_of(kv@, key@, max as nat) == Some(n as nat),
            None => unsigned_of(kv@, key@, max as nat) is None,
        },
        r matches Some(n) ==> n <= max,
{
    match kv.get(key) {
        Some(v) => parse_unsigned(v.as_str(), max),
        None => None,
    }
}

/// The image number that `i` is set to, or zero.
fn image_id(kv: &TextMap) -> (r: u64)
    ensures
        r == image_id_of(kv@),
{
    match num(kv, "i", u64::MAX) {
        Some(n) => n,
        None => 0,
    }
}

/// The depth that `z` is set to, or zero.
fn depth(kv: &TextMap) -> (r: i32)
    ensures
        r == depth_of(kv@),
{
    match kv.get("z") {
        Some(v) => match parse_signed(v.as_str()) {
            Some(n) => n,
            None => 0,
        },
        None => 0,
    }
}

/// The floating-point numeral that a key is set to.
fn float(kv: &TextMap, key: &str) -> (r: Option<String>)
    ensures
        opt_text(r) == float_of(kv@, key@),
{
    match kv.get(key) {
        Some(v) => if float_numeral(v.as_str()) {
            Some(v)
        } else {
            None
        },
        None => None,
    }
}

/// Extract `(w, h)` from the `s=w,h` key, falling back to `v` for the height.
pub fn parse_size(kv: &TextMap) -> (r: Option<(u32, u32)>)
    ensures
        r == size_of(kv@),
{
    let s = match kv.get("s") {
        Some(s) => s,
        None => return None,
    };
    let parts = split_text(s.as_str(), ',');
    assert(texts(parts@) == split_at_each(s@, ','));
    assert(texts(parts@)[0] == parts@[0]@);
    if parts.len() == 0 {
        return None;
    }
    let w = parse_unsigned(parts[0].as_str(), u32::MAX as u64);
    let h = if parts.len() > 1 {
        assert(texts(parts@)[1] == parts@[1]@);
        parse_unsigned(parts[1].as_str(), u32::MAX as u64)
    } else {
        num(kv, "v", u32::MAX as u64)
    };
    match (w, h) {
        (Some(w), Some(h)) => Some((w as u32, h as u32)),
        _ => None,
    }
}

/// What control data says of the image it introduces.
pub fn parse_header(kv: &TextMap) -> (r: Header)
    ensures
        r@ == header_of(kv@),
{
    let format: u32 = match num(kv, "f", u32::MAX as u64) {
        Some(n) => n as u32,
        None => 100,
    };
    Header {
        image_id: image_id(kv),
        format,
        zlib: key_is(kv, "o", "z"),
        file: key_is(kv, "t", "f"),
        size: parse_size(kv),
        cells_w: float(kv, "c"),
        cells_h: float(kv, "r"),
        px_w: float(kv, "w"),
        px_h: float(kv, "h"),
        z: depth(kv),
    }
}

// ---------------------------------------------------------------------------
// Image data
// ---------------------------------------------------------------------------

/// What the standard base64 alphabet with padding makes of a text, if the text
/// is one of its encodings.
pub uninterp spec fn base64_bytes(text: Seq<u8>) -> Option<Seq<u8>>;

/// `base64::Engine::decode` of the engine `general_purpose::STANDARD`: the bytes
/// that a base64 text stands for, or nothing where the engine reports an error.
#[verifier::external_body]
fn b64_decode(data: &[u8]) -> (r: Option<Vec<u8>>)
    ensures
        opt_bytes(r) == base64_bytes(data@),
{
    base64::engine::general_purpose::STANDARD.decode(data).ok()
}

/// What a zlib stream unpacks to, if the bytes are one.
pub uninterp spec fn inflated_bytes(data: Seq<u8>) -> Option<Seq<u8>>;

/// `miniz_oxide::inflate::decompress_to_vec_zlib`: the bytes that a zlib stream
/// unpacks to, or nothing where the stream is damaged.
#[verifier::external_body]
fn zlib_decompress(data: &[u8]) -> (r: Option<Vec<u8>>)
    ensures
        opt_bytes(r) == inflated_bytes(data@),
{
    miniz_oxide::inflate::decompress_to_vec_zlib(data).ok()
}

/// Width, height and RGBA bytes of an encoded image, if the bytes are one.
pub uninterp spec fn decoded_image(bytes: Seq<u8>) -> Option<(u32, u32, Seq<u8>)>;

/// `image::load_from_memory`, turned into RGBA by `DynamicImage::to_rgba8`: the
/// image that a PNG, JPEG, GIF or other encoded file shows, four bytes a pixel,
/// or nothing where the format is not known or the data is damaged.
#[verifier::external_body]
fn load_image(bytes: &[u8]) -> (r: Option<(u32, u32, Vec<u8>)>)
    ensures
        match r {
            Some((w, h, rgba)) => decoded_image(bytes@) == Some((w, h, rgba@)),
            None => decoded_image(bytes@) is None,
        },
        r matches Some((w, h, rgba)) ==> rgba@.len() == w * h * 4,
{
    let img = image::load_from_memory(bytes).ok()?.to_rgba8();
    Some((img.width(), img.height(), img.into_raw()))
}

/// The bytes of an optional vector.
pub open spec fn opt_bytes(v: Option<Vec<u8>>) -> Option<Seq<u8>> {
    match v {
        Some(v) => Some(v@),
        None => None,
    }
}

/// Raw pixels: three bytes each for format 24, which come out opaque, and four
/// bytes each otherwise. Too little data is no image; what is too much is left
/// alone.
pub open spec fn raw_pixels(bytes: Seq<u8>, format: u32, size: Option<(u32, u32)>) -> Option<
    PixelsView,
> {
    match size {
        Some((width, height)) => {
            let count = width * height;
            if format == 24 {
                if bytes.len() < count * 3 {
                    None
                } else {
                    Some(PixelsView { width, height, rgba: opaque(bytes, count as nat) })
                }
            } else if bytes.len() < count * 4 {
                None
            } else {
                Some(PixelsView { width, height, rgba: bytes.take(count * 4) })
            }
        },
        None => None,
    }
}

/// The first `count` RGB pixels of some bytes as opaque RGBA pixels.
pub open spec fn opaque(bytes: Seq<u8>, count: nat) -> Seq<u8> {
    Seq::new(
        count * 4,
        |i: int|
            if i % 4 == 3 {
                255u8
            } else {
                bytes[i / 4 * 3 + i % 4]
            },
    )
}

/// The pixels that image data of a format stands for.
pub open spec fn pixels(bytes: Seq<u8>, format: u32, size: Option<(u32, u32)>) -> Option<
    PixelsView,
> {
    if format == 24 || format == 32 {
        raw_pixels(bytes, format, size)
    } else {
        match decoded_image(bytes) {
            Some((width, height, rgba)) => Some(PixelsView { width, height, rgba }),
            None => None,
        }
    }
}

/// A decoded image that is not stored yet.
pub struct Pixels {
    pub width: u32,
    pub height: u32,
    pub rgba: Vec<u8>,
}

impl View for Pixels {
    type V = PixelsView;

    open spec fn view(&self) -> PixelsView {
        PixelsView { width: self.width, height: self.height, rgba: self.rgba@ }
    }
}

/// The pixels of an optional image.
pub open spec fn opt_pixels(p: Option<Pixels>) -> Option<PixelsView> {
    match p {
        Some(p) => Some(p@),
        None => None,
    }
}

/// Whether an image holds four bytes a pixel.
pub open spec fn pixels_fit(p: PixelsView) -> bool {
    p.rgba.len() == p.width * p.height * 4
}

/// The first `count` RGB pixels of some bytes as opaque RGBA pixels.
fn expand_rgb(bytes: &[u8], count: usize) -> (r: Vec<u8>)
    requires
        count * 3 <= bytes@.len(),
    ensures
        r@ == opaque(bytes@, count as nat),
{
    let mut out: Vec<u8> = Vec::new();
    let total: usize = bytes.len();
    let mut i: usize = 0;
    while i < count
        invariant
            i <= count,
            count * 3 <= total,
            total == bytes@.len(),
            out@ == opaque(bytes@, i as nat),
        decreases count - i,
    {
        let at: usize = i * 3;
        out.push(bytes[at]);
        out.push(bytes[at + 1]);
        out.push(bytes[at + 2]);
        out.push(255);
        i += 1;
        assert(out@ =~= opaque(bytes@, i as nat));
    }
    out
}

/// Decode raw RGB or RGBA pixels.
pub fn decode_raw(bytes: &[u8], format: u32, size: Option<(u32, u32)>) -> (r: Option<Pixels>)
    ensures
        opt_pixels(r) == raw_pixels(bytes@, format, size),
        r matches Some(p) ==> pixels_fit(p@) && size == Some((p.width, p.height)),
        r matches Some(p) ==> format != 24 ==> forall|i: int|
            0 <= i < p.rgba@.len() ==> #[trigger] p.rgba@[i] == bytes@[i],
        r matches Some(p) ==> format == 24 ==> forall|i: int|
            0 <= i < p.rgba@.len() ==> #[trigger] p.rgba@[i] == (if i % 4 == 3 {
                255u8
            } else {
                bytes@[i - i / 4]
            }),
{
    let (width, height) = match size {
        Some(size) => size,
        None => return None,
    };
    proof {
        assert(0 <= width * height <= 0xffff_ffff * 0xffff_ffff) by (nonlinear_arith)
            requires
                width <= 0xffff_ffff,
                height <= 0xffff_ffff,
        ;
    }
    let count: u64 = width as u64 * height as u64;
    let bpp: u128 = if format == 24 {
        3
    } else {
        4
    };
    if (bytes.len() as u128) < count as u128 * bpp {
        return None;
    }
    let rgba = if format == 24 {
        expand_rgb(bytes, count as usize)
    } else {
        let n: usize = count as usize * 4;
        let mut v: Vec<u8> = Vec::new();
        let mut i: usize = 0;
        while i < n
            invariant
                i <= n <= bytes@.len(),
                v@ == bytes@.take(i as int),
            decreases n - i,
        {
            v.push(bytes[i]);
            assert(bytes@.take(i as int).push(bytes@[i as int]) =~= bytes@.take(i + 1));
            i += 1;
        }
        v
    };
    Some(Pixels { width, height, rgba })
}

/// Decode image data of a format: raw pixels for 24 and 32, an encoded image
/// otherwise.
pub fn decode_image(bytes: &[u8], format: u32, size: Option<(u32, u32)>) -> (r: Option<Pixels>)
    ensures
        opt_pixels(r) == pixels(bytes@, format, size),
        r matches Some(p) ==> pixels_fit(p@),
{
    if format == 24 || format == 32 {
        return decode_raw(bytes, format, size);
    }
    match load_image(bytes) {
        Some((width, height, rgba)) => Some(Pixels { width, height, rgba }),
        None => None,
    }
}

// ---------------------------------------------------------------------------
// Steps
// ---------------------------------------------------------------------------

/// Store a decoded image, and ask for its cell box if it is to be shown.
pub open spec fn image_step(
    st: StoreView,
    header: HeaderView,
    image: Option<PixelsView>,
    cursor: (usize, isize),
    display: bool,
) -> (StoreView, StepView) {
    match image {
        None => (st, StepView::Done(KittyAction::Nothing)),
        Some(pixels) => {
            let stored = ImageView {
                pixels,
                cells_w: header.cells_w,
                cells_h: header.cells_h,
                gen: st.next_gen,
            };
            let after = StoreView {
                images: st.images.insert(header.image_id, stored),
                next_gen: (st.next_gen + 1) as u64,
                ..st
            };
            if display {
                (
                    after,
                    StepView::Measure(
                        MeasureJobView {
                            placement: PlacementView {
                                image_id: header.image_id,
                                gen: st.next_gen,
                                col: cursor.0,
                                row: cursor.1,
                                cells_w: header.cells_w,
                                cells_h: header.cells_h,
                                px_w: header.px_w,
                                px_h: header.px_h,
                                z: header.z,
                            },
                            x: None,
                            y: None,
                            width: pixels.width,
                            height: pixels.height,
                            inline: true,
                        },
                    ),
                )
            } else {
                (after, StepView::Done(KittyAction::Changed))
            }
        },
    }
}

/// Go on with the bytes of an image, where there are any.
pub open spec fn bytes_step(
    st: StoreView,
    header: HeaderView,
    bytes: Option<Seq<u8>>,
    cursor: (usize, isize),
    display: bool,
) -> (StoreView, StepView) {
    match bytes {
        None => (st, StepView::Done(KittyAction::Nothing)),
        Some(bytes) => image_step(
            st,
            header,
            pixels(bytes, header.format, header.size),
            cursor,
            display,
        ),
    }
}

/// Go on with the decoded payload of a transmission: the path of a file, or an
/// image that may be compressed.
pub open spec fn payload_step(
    st: StoreView,
    header: HeaderView,
    payload: Option<Seq<u8>>,
    cursor: (usize, isize),
    display: bool,
) -> (StoreView, StepView) {
    match payload {
        None => (st, StepView::Done(KittyAction::Nothing)),
        Some(bytes) => if header.file {
            if valid_utf8(bytes) {
                (
                    st,
                    StepView::Read(
                        FileJobView { header, path: decode_utf8(bytes), cursor, display },
                    ),
                )
            } else {
                (st, StepView::Done(KittyAction::Nothing))
            }
        } else if header.zlib {
            bytes_step(st, header, inflated_bytes(bytes), cursor, display)
        } else {
            bytes_step(st, header, Some(bytes), cursor, display)
        },
    }
}

/// Take in one chunk of a transmission. The header of the first chunk counts;
/// the last one says whether the image is to be shown.
pub open spec fn transmit_step(
    st: StoreView,
    kv: Map<Seq<char>, Seq<char>>,
    data: Seq<u8>,
    cursor: (usize, isize),
) -> (StoreView, StepView) {
    let pending = match st.pending {
        Some(pending) => PendingView { data: pending.data + data, ..pending },
        None => PendingView { header: header_of(kv), data },
    };
    if is_set(kv, "m"@, "1"@) {
        (StoreView { pending: Some(pending), ..st }, StepView::Done(KittyAction::Nothing))
    } else {
        payload_step(
            StoreView { pending: None, ..st },
            pending.header,
            base64_bytes(pending.data),
            cursor,
            is_set(kv, "a"@, "T"@),
        )
    }
}

/// The placement that control data asks for. It goes to the cursor unless a
/// position is given; a missing cell size is that of the transmission.
pub open spec fn placement_job(
    kv: Map<Seq<char>, Seq<char>>,
    image: ImageView,
    cursor: (usize, isize),
) -> MeasureJobView {
    let at_cursor = is_set(kv, "C"@, "1"@) || !kv.contains_key("X"@) && !kv.contains_key("Y"@);
    MeasureJobView {
        placement: PlacementView {
            image_id: image_id_of(kv),
            gen: image.gen,
            col: cursor.0,
            row: cursor.1,
            cells_w: match float_of(kv, "c"@) {
                Some(c) => Some(c),
                None => image.cells_w,
            },
            cells_h: match float_of(kv, "r"@) {
                Some(r) => Some(r),
                None => image.cells_h,
            },
            px_w: float_of(kv, "w"@),
            px_h: float_of(kv, "h"@),
            z: depth_of(kv),
        },
        x: if at_cursor {
            None
        } else {
            float_of(kv, "X"@)
        },
        y: if at_cursor {
            None
        } else {
            float_of(kv, "Y"@)
        },
        width: image.pixels.width,
        height: image.pixels.height,
        inline: false,
    }
}

/// The placements that do not show an image.
pub open spec fn without_image(placements: Seq<PlacementView>, id: u64) -> Seq<PlacementView> {
    placements.filter(|p: PlacementView| p.image_id != id)
}

/// Delete an image and its placements, or every placement.
pub open spec fn delete_step(st: StoreView, kv: Map<Seq<char>, Seq<char>>) -> StoreView {
    match unsigned_of(kv, "i"@, u64::MAX as nat) {
        Some(id) => StoreView {
            images: st.images.remove(id as u64),
            placements: without_image(st.placements, id as u64),
            ..st
        },
        None => StoreView { placements: seq![], ..st },
    }
}

/// The action that control data asks for; transmitting is the default.
pub open spec fn action_of(kv: Map<Seq<char>, Seq<char>>) -> Seq<char> {
    if kv.contains_key("a"@) {
        kv["a"@]
    } else {
        "t"@
    }
}

/// Carry out a command given by its control data and its payload.
pub open spec fn command_step(
    st: StoreView,
    kv: Map<Seq<char>, Seq<char>>,
    data: Seq<u8>,
    cursor: (usize, isize),
) -> (StoreView, StepView) {
    let action = action_of(kv);
    if action == "t"@ || action == "T"@ {
        transmit_step(st, kv, data, cursor)
    } else if action == "q"@ {
        (st, StepView::Done(KittyAction::Respond))
    } else if action == "p"@ {
        if st.images.contains_key(image_id_of(kv)) {
            (st, StepView::Measure(placement_job(kv, st.images[image_id_of(kv)], cursor)))
        } else {
            (st, StepView::Done(KittyAction::Nothing))
        }
    } else if action == "d"@ {
        (delete_step(st, kv), StepView::Done(KittyAction::Changed))
    } else {
        (st, StepView::Done(KittyAction::Nothing))
    }
}

/// A payload without the letter that marks graphics commands.
pub open spec fn unmarked(payload: Seq<u8>) -> Seq<u8> {
    if payload.len() > 0 && payload[0] == 71 {
        payload.skip(1)
    } else {
        payload
    }
}

/// The index of the first semicolon, or the length.
pub open spec fn control_len(bytes: Seq<u8>) -> nat
    decreases bytes.len(),
{
    if bytes.len() == 0 || bytes[0] == 59 {
        0
    } else {
        1 + control_len(bytes.drop_first())
    }
}

/// Split a payload at the first semicolon into control data and payload data.
pub open spec fn split_payload(payload: Seq<u8>) -> (Seq<u8>, Seq<u8>) {
    let bytes = unmarked(payload);
    let n = control_len(bytes) as int;
    if n < bytes.len() {
        (bytes.take(n), bytes.skip(n + 1))
    } else {
        (bytes, seq![])
    }
}

/// Process one payload.
pub open spec fn handle_step(st: StoreView, payload: Seq<u8>, cursor: (usize, isize)) -> (
    StoreView,
    StepView,
) {
    let (control, data) = split_payload(payload);
    command_step(st, controls(readable_text(control)), data, cursor)
}

/// Put a measured placement on the screen.
pub open spec fn place_step(
    st: StoreView,
    job: MeasureJobView,
    x: usize,
    y: isize,
    cols: usize,
    rows: usize,
) -> (StoreView, KittyAction) {
    let col = if job.x is Some {
        x
    } else {
        job.placement.col
    };
    let row = if job.y is Some {
        y
    } else {
        job.placement.row
    };
    (
        StoreView {
            placements: st.placements.push(PlacementView { col, row, ..job.placement }),
            ..st
        },
        if job.inline {
            KittyAction::Place { col, row, cols, rows }
        } else {
            KittyAction::MarkCells { col, row, cols, rows }
        },
    )
}

/// Split a payload at the first semicolon into control data and payload data,
/// both without the letter that marks graphics commands.
pub fn split_command(payload: &[u8]) -> (r: (Vec<u8>, Vec<u8>))
    ensures
        (r.0@, r.1@) == split_payload(payload@),
{
    let total: usize = payload.len();
    let start: usize = if total > 0 && payload[0] == 71 {
        1
    } else {
        0
    };
    let ghost bytes = unmarked(payload@);
    assert(bytes =~= payload@.skip(start as int));
    let mut control: Vec<u8> = Vec::new();
    let mut i: usize = start;
    assert(bytes.skip(0) =~= bytes);
    while i < total && payload[i] != 59
        invariant
            start <= i <= total,
            total == payload@.len(),
            bytes == payload@.skip(start as int),
            control@ == bytes.take(i - start),
            control_len(bytes) == (i - start) + control_len(bytes.skip(i - start)),
        decreases total - i,
    {
        control.push(payload[i]);
        assert(bytes.skip(i - start)[0] == payload@[i as int]);
        assert(bytes.skip(i - start).drop_first() =~= bytes.skip(i + 1 - start));
        assert(bytes.take(i + 1 - start) =~= bytes.take(i - start).push(payload@[i as int]));
        i += 1;
    }
    let mut data: Vec<u8> = Vec::new();
    if i == total {
        assert(control@ =~= bytes);
        return (control, data);
    }
    assert(bytes.skip(i - start)[0] == payload@[i as int]);
    assert(control_len(bytes) == i - start);
    let ghost cut = i - start;
    i += 1;
    let first: usize = i;
    assert(bytes.skip(cut + 1) =~= payload@.skip(first as int));
    while i < total
        invariant
            first <= i <= total,
            total == payload@.len(),
            data@ == payload@.skip(first as int).take(i - first),
        decreases total - i,
    {
        data.push(payload[i]);
        assert(payload@.skip(first as int).take(i + 1 - first) =~= payload@.skip(
            first as int,
        ).take(i - first).push(payload@[i as int]));
        i += 1;
    }
    assert(payload@.skip(first as int).take(i - first) =~= payload@.skip(first as int));
    (control, data)
}

/// A copy of an optional text.
fn copy_text(s: &Option<String>) -> (r: Option<String>)
    ensures
        opt_text(r) == opt_text(*s),
{
    match s {
        Some(s) => Some(owned(s.as_str())),
        None => None,
    }
}

impl FileJob {
    /// The path of the file to read.
    pub fn path(&self) -> (r: &str)
        ensures
            r@ == self@.path,
    {
        self.path.as_str()
    }
}

impl KittyStore {
    /// An empty store.
    pub fn new() -> (r: KittyStore)
        ensures
            r@ == (StoreView {
                images: Map::empty(),
                placements: Seq::empty(),
                pending: None,
                next_gen: 0,
            }),
    {
        let r = KittyStore {
            images: HashMap::new(),
            placements: Vec::new(),
            pending: None,
            gen_counter: 0,
        };
        assert(r@.images =~= Map::empty());
        assert(r@.placements =~= Seq::empty());
        r
    }

    /// Whether another image can be stored: images are numbered, and the
    /// numbers are not used up.
    pub fn has_room(&self) -> (r: bool)
        ensures
            r == (self@.next_gen < u64::MAX),
    {
        self.gen_counter < u64::MAX
    }

    /// Process one payload (what stands between `ESC _` and `ESC \`).
    ///
    /// `cursor` is the grid cell `(column, line)` where the image should be
    /// anchored for placements at the cursor.
    pub fn handle(&mut self, payload: &[u8], cursor: (usize, isize)) -> (r: KittyStep)
        requires
            old(self)@.next_gen < u64::MAX,
        ensures
            (final(self)@, r@) == handle_step(old(self)@, payload@, cursor),
            store_ok(old(self)@) ==> store_ok(final(self)@) && step_ok(final(self)@, r@),
    {
        let (control, data) = split_command(payload);
        let control = utf8_lossy(control.as_slice());
        let kv = parse_control(control.as_str());
        self.command(&kv, data, cursor)
    }

    /// Carry out a command given by its control data and its payload.
    pub fn command(&mut self, kv: &TextMap, data: Vec<u8>, cursor: (usize, isize)) -> (r: KittyStep)
        requires
            old(self)@.next_gen < u64::MAX,
        ensures
            (final(self)@, r@) == command_step(old(self)@, kv@, data@, cursor),
            store_ok(old(self)@) ==> store_ok(final(self)@) && step_ok(final(self)@, r@),
    {
        let action = match kv.get("a") {
            Some(action) => action,
            None => owned("t"),
        };
        let action = action.as_str();
        if same(action, "t") || same(action, "T") {
            self.transmit(kv, data, cursor)
        } else if same(action, "q") {
            KittyStep::Done(KittyAction::Respond)
        } else if same(action, "p") {
            self.build_placement(kv, cursor)
        } else if same(action, "d") {
            self.delete(kv);
            KittyStep::Done(KittyAction::Changed)
        } else {
            KittyStep::Done(KittyAction::Nothing)
        }
    }

    /// Take in one chunk of a transmission.
    fn transmit(&mut self, kv: &TextMap, data: Vec<u8>, cursor: (usize, isize)) -> (r: KittyStep)
        requires
            old(self)@.next_gen < u64::MAX,
        ensures
            (final(self)@, r@) == transmit_step(old(self)@, kv@, data@, cursor),
            store_ok(old(self)@) ==> store_ok(final(self)@) && step_ok(final(self)@, r@),
    {
        let mut data = data;
        let pending = match self.pending.take() {
            Some(mut pending) => {
                pending.data.append(&mut data);
                pending
            },
            None => Pending { header: parse_header(kv), data },
        };
        if key_is(kv, "m", "1") {
            self.pending = Some(pending);
            return KittyStep::Done(KittyAction::Nothing);
        }
        let payload = b64_decode(pending.data.as_slice());
        let display = key_is(kv, "a", "T");
        self.finish_transmit(pending.header, payload, cursor, display)
    }

    /// Go on with the decoded payload of a transmission.
    pub fn finish_transmit(
        &mut self,
        header: Header,
        payload: Option<Vec<u8>>,
        cursor: (usize, isize),
        display: bool,
    ) -> (r: KittyStep)
        requires
            old(self)@.next_gen < u64::MAX,
        ensures
            (final(self)@, r@) == payload_step(
                old(self)@,
                header@,
                opt_bytes(payload),
                cursor,
                display,
            ),
            store_ok(old(self)@) ==> store_ok(final(self)@) && step_ok(final(self)@, r@),
    {
        let payload = match payload {
            Some(payload) => payload,
            None => return KittyStep::Done(KittyAction::Nothing),
        };
        if header.file {
            let ghost bytes = payload@;
            return match String::from_utf8(payload) {
                Ok(path) => {
                    proof {
                        encode_utf8_decode_utf8(path@);
                    }
                    KittyStep::Read(FileJob { header, path, cursor, display })
                },
                Err(_) => KittyStep::Done(KittyAction::Nothing),
            };
        }
        let bytes = if header.zlib {
            zlib_decompress(payload.as_slice())
        } else {
            Some(payload)
        };
        self.finish_bytes(header, bytes, cursor, display)
    }

    /// Go on with the bytes of an image, where there are any.
    pub fn finish_bytes(
        &mut self,
        header: Header,
        bytes: Option<Vec<u8>>,
        cursor: (usize, isize),
        display: bool,
    ) -> (r: KittyStep)
        requires
            old(self)@.next_gen < u64::MAX,
        ensures
            (final(self)@, r@) == bytes_step(
                old(self)@,
                header@,
                opt_bytes(bytes),
                cursor,
                display,
            ),
            store_ok(old(self)@) ==> store_ok(final(self)@) && step_ok(final(self)@, r@),
    {
        let bytes = match bytes {
            Some(bytes) => bytes,
            None => return KittyStep::Done(KittyAction::Nothing),
        };
        let image = decode_image(bytes.as_slice(), header.format, header.size);
        self.insert_and_maybe_display(header, image, cursor, display)
    }

    /// Store a decoded image, and ask for its cell box if it is to be shown.
    pub fn insert_and_maybe_display(
        &mut self,
        header: Header,
        image: Option<Pixels>,
        cursor: (usize, isize),
        display: bool,
    ) -> (r: KittyStep)
        requires
            old(self)@.next_gen < u64::MAX,
        ensures
            (final(self)@, r@) == image_step(
                old(self)@,
                header@,
                opt_pixels(image),
                cursor,
                display,
            ),
            store_ok(old(self)@) && (image matches Some(p) ==> pixels_fit(p@)) ==> store_ok(
                final(self)@,
            ) && step_ok(final(self)@, r@),
    {
        let image = match image {
            Some(image) => image,
            None => return KittyStep::Done(KittyAction::Nothing),
        };
        let ghost before = self@.images;
        let gen = self.gen_counter;
        self.gen_counter = gen + 1;
        let stored = KittyImage {
            width: image.width,
            height: image.height,
            rgba: image.rgba,
            cells_w: copy_text(&header.cells_w),
            cells_h: copy_text(&header.cells_h),
            gen,
        };
        let (width, height) = (image.width, image.height);
        let ghost view = stored@;
        self.images.insert(header.image_id, stored);
        assert(self@.images =~= before.insert(header.image_id, view));
        if !display {
            return KittyStep::Done(KittyAction::Changed);
        }
        KittyStep::Measure(
            MeasureJob {
                placement: Placement {
                    image_id: header.image_id,
                    gen,
                    col: cursor.0,
                    row: cursor.1,
                    cells_w: header.cells_w,
                    cells_h: header.cells_h,
                    px_w: header.px_w,
                    px_h: header.px_h,
                    z: header.z,
                },
                x: None,
                y: None,
                width,
                height,
                inline: true,
            },
        )
    }

    /// Go on with a transmission whose file has been read; `bytes` is `None`
    /// where it could not be.
    pub fn read_file(&mut self, job: FileJob, bytes: Option<Vec<u8>>) -> (r: KittyStep)
        requires
            old(self)@.next_gen < u64::MAX,
        ensures
            (final(self)@, r@) == bytes_step(
                old(self)@,
                job@.header,
                opt_bytes(bytes),
                job@.cursor,
                job@.display,
            ),
            store_ok(old(self)@) ==> store_ok(final(self)@) && step_ok(final(self)@, r@),
    {
        self.finish_bytes(job.header, bytes, job.cursor, job.display)
    }

    /// The placement that control data asks for, if its image is stored.
    fn build_placement(&self, kv: &TextMap, cursor: (usize, isize)) -> (r: KittyStep)
        ensures
            r@ == (if self@.images.contains_key(image_id_of(kv@)) {
                StepView::Measure(placement_job(kv@, self@.images[image_id_of(kv@)], cursor))
            } else {
                StepView::Done(KittyAction::Nothing)
            }),
    {
        let id = image_id(kv);
        let image = match self.images.get(&id) {
            Some(image) => image,
            None => return KittyStep::Done(KittyAction::Nothing),
        };
        let has_x = kv.get("X").is_some();
        let has_y = kv.get("Y").is_some();
        let at_cursor = key_is(kv, "C", "1") || !has_x && !has_y;
        let cells_w = match float(kv, "c") {
            Some(c) => Some(c),
            None => copy_text(&image.cells_w),
        };
        let cells_h = match float(kv, "r") {
            Some(r) => Some(r),
            None => copy_text(&image.cells_h),
        };
        KittyStep::Measure(
            MeasureJob {
                placement: Placement {
                    image_id: id,
                    gen: image.gen,
                    col: cursor.0,
                    row: cursor.1,
                    cells_w,
                    cells_h,
                    px_w: float(kv, "w"),
                    px_h: float(kv, "h"),
                    z: depth(kv),
                },
                x: if at_cursor {
                    None
                } else {
                    float(kv, "X")
                },
                y: if at_cursor {
                    None
                } else {
                    float(kv, "Y")
                },
                width: image.width,
                height: image.height,
                inline: false,
            },
        )
    }

    /// Put a measured placement on the screen. `x` and `y` are the whole parts
    /// of the position that was asked for; they count only where it was.
    pub fn place(&mut self, job: MeasureJob, x: usize, y: isize, cols: usize, rows: usize) -> (r:
        KittyAction)
        ensures
            (final(self)@, r) == place_step(old(self)@, job@, x, y, cols, rows),
            store_ok(old(self)@) && job@.placement.gen < old(self)@.next_gen ==> store_ok(
                final(self)@,
            ),
    {
        let ghost before = self@.placements;
        let mut placement = job.placement;
        if job.x.is_some() {
            placement.col = x;
        }
        if job.y.is_some() {
            placement.row = y;
        }
        let (col, row) = (placement.col, placement.row);
        let ghost view = placement@;
        self.placements.push(placement);
        assert(self@.placements =~= before.push(view));
        if job.inline {
            KittyAction::Place { col, row, cols, rows }
        } else {
            KittyAction::MarkCells { col, row, cols, rows }
        }
    }

    /// Delete an image and its placements, or every placement.
    fn delete(&mut self, kv: &TextMap)
        ensures
            final(self)@ == delete_step(old(self)@, kv@),
            store_ok(old(self)@) ==> store_ok(final(self)@),
    {
        match num(kv, "i", u64::MAX) {
            Some(id) => {
                let ghost before = self@;
                self.images.remove(&id);
                assert(self@.images =~= before.images.remove(id));
                self.drop_placements(id);
            },
            None => {
                self.placements.clear();
                assert(self@.placements =~= Seq::empty());
            },
        }
        proof {
            if store_ok(old(self)@) {
                law_delete_keeps_store_ok(old(self)@, kv@);
            }
        }
    }

    /// Drop the placements of an image.
    fn drop_placements(&mut self, id: u64)
        ensures
            final(self)@ == (StoreView {
                placements: without_image(old(self)@.placements, id),
                ..old(self)@
            }),
    {
        let ghost all = self@.placements;
        let ghost start = self@;
        let ghost keep = |p: PlacementView| p.image_id != id;
        let mut i: usize = 0;
        let ghost mut seen: int = 0;
        proof {
            reveal(Seq::filter);
            assert(all.take(0).filter(keep) + all.skip(0) =~= all);
        }
        while i < self.placements.len()
            invariant
                0 <= seen <= all.len(),
                i <= self.placements@.len(),
                keep == (|p: PlacementView| p.image_id != id),
                i == all.take(seen).filter(keep).len(),
                self@.placements == all.take(seen).filter(keep) + all.skip(seen),
                self@ == (StoreView { placements: self@.placements, ..start }),
            decreases self.placements@.len() - i,
        {
            let ghost kept = all.take(seen).filter(keep);
            let ghost before = self@.placements;
            proof {
                reveal(Seq::filter);
                assert(seen < all.len());
                assert(all.take(seen + 1).drop_last() =~= all.take(seen));
                assert(all.take(seen + 1).last() == all[seen]);
                assert(before[i as int] == all.skip(seen)[0]);
                assert(self.placements@[i as int]@ == before[i as int]);
            }
            if self.placements[i].image_id == id {
                self.placements.remove(i);
                assert(self@.placements =~= before.remove(i as int));
                assert(before.remove(i as int) =~= kept + all.skip(seen + 1));
            } else {
                i += 1;
                assert(self@.placements =~= kept.push(all[seen]) + all.skip(seen + 1));
            }
            proof {
                seen = seen + 1;
            }
        }
        proof {
            assert(all.take(seen) =~= all);
            assert(self@.placements =~= all.filter(keep));
        }
    }

    /// Drop all images and placements (e.g. when a pane is closed).
    pub fn clear(&mut self)
        ensures
            final(self)@ == (StoreView {
                images: Map::empty(),
                placements: Seq::empty(),
                pending: None,
                ..old(self)@
            }),
            store_ok(final(self)@),
    {
        self.images.clear();
        self.placements.clear();
        self.pending = None;
        assert(self@.images =~= Map::empty());
        assert(self@.placements =~= Seq::empty());
    }
}

// ---------------------------------------------------------------------------
// Dropping stale placements
// ---------------------------------------------------------------------------

/// The characters on screen, line by line.
pub struct Screen {
    pub columns: usize,
    pub lines: usize,
    pub cells: Vec<char>,
}

impl Screen {
    /// Whether the screen has a character for every cell.
    pub open spec fn ok(self) -> bool {
        self.cells@.len() == self.columns * self.lines
    }

    /// The character in a cell.
    pub open spec fn at(self, row: int, col: int) -> char {
        self.cells@[row * self.columns + col]
    }
}

/// The first line of a placement that can be on screen.
pub open spec fn top_line(p: PlacementView) -> int {
    if p.row < 0 {
        0
    } else {
        p.row as int
    }
}

/// Whether a cell on screen belongs to the box of a placement.
pub open spec fn covers(
    p: PlacementView,
    size: (usize, usize),
    screen: Screen,
    row: int,
    col: int,
) -> bool {
    top_line(p) <= row < top_line(p) + size.1 && row < screen.lines && p.col <= col < p.col + size.0
        && col < screen.columns
}

/// Whether every cell on screen of the box of a placement still holds the
/// marker.
pub open spec fn intact(p: PlacementView, size: (usize, usize), screen: Screen) -> bool {
    forall|row: int, col: int|
        covers(p, size, screen, row, col) ==> #[trigger] screen.at(row, col) == KITTY_MARKER
}

/// The placements that stay: those whose image is stored and whose cells are
/// intact, in their order.
pub open spec fn kept(
    placements: Seq<PlacementView>,
    sizes: Seq<(usize, usize)>,
    images: Map<u64, ImageView>,
    screen: Screen,
) -> Seq<PlacementView>
    decreases placements.len(),
{
    if placements.len() == 0 {
        seq![]
    } else {
        let n = placements.len() - 1;
        let before = kept(placements.drop_last(), sizes, images, screen);
        let p = placements[n];
        if images.contains_key(p.image_id) && intact(p, sizes[n], screen) {
            before.push(p)
        } else {
            before
        }
    }
}

/// Cells are numbered line by line.
proof fn lemma_cell(screen: Screen, row: int, col: int)
    requires
        screen.ok(),
        0 <= row < screen.lines,
        0 <= col < screen.columns,
    ensures
        0 <= row * screen.columns + col < screen.cells@.len(),
        0 <= row * screen.columns,
{
    assert(0 <= row * screen.columns && row * screen.columns + screen.columns <= screen.columns
        * screen.lines) by (nonlinear_arith)
        requires
            0 <= row < screen.lines,
            0 <= screen.columns,
    ;
}

/// The end of a stretch, cut off at a limit.
pub open spec fn clip(start: int, len: int, limit: int) -> int {
    if start + len <= limit {
        start + len
    } else {
        limit
    }
}

/// The end of a stretch, cut off at a limit.
fn clipped_end(start: usize, len: usize, limit: usize) -> (r: usize)
    ensures
        r == clip(start as int, len as int, limit as int),
{
    if start <= limit && len <= limit - start {
        start + len
    } else {
        limit
    }
}

/// Whether every cell on screen of the box of a placement still holds the
/// marker.
fn is_intact(p: &Placement, size: (usize, usize), screen: &Screen) -> (r: bool)
    requires
        screen.ok(),
    ensures
        r == intact(p@, size, *screen),
{
    let row0: usize = if p.row < 0 {
        0
    } else {
        p.row as usize
    };
    let total: usize = screen.cells.len();
    let col_end = clipped_end(p.col, size.0, screen.columns);
    let row_end = clipped_end(row0, size.1, screen.lines);
    let mut row: usize = row0;
    while row < row_end
        invariant
            screen.ok(),
            total == screen.cells@.len(),
            row0 <= row,
            row0 == top_line(p@),
            col_end <= screen.columns,
            row_end <= screen.lines,
            col_end == clip(p.col as int, size.0 as int, screen.columns as int),
            row_end == clip(row0 as int, size.1 as int, screen.lines as int),
            forall|r: int, c: int|
                row0 <= r < row && p.col <= c < col_end ==> #[trigger] screen.at(r, c)
                    == KITTY_MARKER,
        decreases row_end - row,
    {
        let mut col: usize = p.col;
        while col < col_end
            invariant
                screen.ok(),
                total == screen.cells@.len(),
                row0 <= row < row_end,
                row0 == top_line(p@),
                p.col <= col,
                col_end <= screen.columns,
                row_end <= screen.lines,
                col_end == clip(p.col as int, size.0 as int, screen.columns as int),
                row_end == clip(row0 as int, size.1 as int, screen.lines as int),
                forall|c: int|
                    p.col <= c < col ==> #[trigger] screen.at(row as int, c) == KITTY_MARKER,
            decreases col_end - col,
        {
            proof {
                lemma_cell(*screen, row as int, col as int);
            }
            let at: usize = row * screen.columns + col;
            if screen.cells[at] != KITTY_MARKER {
                assert(screen.at(row as int, col as int) != KITTY_MARKER);
                assert(covers(p@, size, *screen, row as int, col as int));
                return false;
            }
            assert(screen.at(row as int, col as int) == KITTY_MARKER);
            col += 1;
        }
        row += 1;
    }
    assert(intact(p@, size, *screen)) by {
        assert forall|r: int, c: int| covers(p@, size, *screen, r, c) implies #[trigger] screen.at(
            r,
            c,
        ) == KITTY_MARKER by {
            assert(row0 <= r < row_end);
            assert(p.col <= c < col_end);
        }
    }
    true
}

impl KittyStore {
    /// Drop the placements whose covered cells were overwritten since they were
    /// placed (by text, a screen clear or scrolling), and those whose image is
    /// gone. `sizes` gives the columns and rows of each placement's box; only
    /// the part of a box that is on screen counts. Returns whether anything was
    /// dropped.
    pub fn reconcile(&mut self, sizes: &Vec<(usize, usize)>, screen: &Screen) -> (r: bool)
        requires
            sizes@.len() == old(self)@.placements.len(),
            screen.ok(),
        ensures
            final(self)@ == (StoreView {
                placements: kept(old(self)@.placements, sizes@, old(self)@.images, *screen),
                ..old(self)@
            }),
            r == (final(self)@.placements.len() != old(self)@.placements.len()),
            store_ok(old(self)@) ==> store_ok(final(self)@),
    {
        let ghost all = self@.placements;
        let ghost start = self@;
        let before: usize = self.placements.len();
        let mut i: usize = 0;
        let mut seen: usize = 0;
        assert(kept(all.take(0), sizes@, start.images, *screen) + all.skip(0) =~= all);
        while seen < before
            invariant
                i <= seen <= before,
                before == all.len(),
                sizes@.len() == all.len(),
                screen.ok(),
                i == kept(all.take(seen as int), sizes@, start.images, *screen).len(),
                self@.placements == kept(all.take(seen as int), sizes@, start.images, *screen)
                    + all.skip(seen as int),
                self@ == (StoreView { placements: self@.placements, ..start }),
            decreases before - seen,
        {
            let ghost stay = kept(all.take(seen as int), sizes@, start.images, *screen);
            let ghost now = self@.placements;
            proof {
                assert(all.take(seen + 1).drop_last() =~= all.take(seen as int));
                assert(all.take(seen + 1)[seen as int] == all[seen as int]);
                assert(now.len() == self.placements@.len());
                assert(now == stay + all.skip(seen as int));
                assert(now.len() == i + (before - seen));
                assert(now[i as int] == all.skip(seen as int)[0]);
                assert(self.placements@[i as int]@ == now[i as int]);
            }
            let id = self.placements[i].image_id;
            let keep = self.images.contains_key(&id) && is_intact(
                &self.placements[i],
                sizes[seen],
                screen,
            );
            if keep {
                i += 1;
                assert(now =~= stay.push(all[seen as int]) + all.skip(seen + 1));
            } else {
                self.placements.remove(i);
                assert(self@.placements =~= now.remove(i as int));
                assert(now.remove(i as int) =~= stay + all.skip(seen + 1));
            }
            seen += 1;
        }
        proof {
            assert(all.take(seen as int) =~= all);
            assert(self@.placements =~= kept(all, sizes@, start.images, *screen));
            lemma_kept(all, sizes@, start.images, *screen);
            assert(forall|k: int|
                0 <= k < self@.placements.len() ==> all.contains(#[trigger] self@.placements[k]));
        }
        self.placements.len() != before
    }
}

/// Only placements that were there stay, and each that stays is intact.
proof fn lemma_kept(
    placements: Seq<PlacementView>,
    sizes: Seq<(usize, usize)>,
    images: Map<u64, ImageView>,
    screen: Screen,
)
    ensures
        forall|p: PlacementView| #[trigger]
            kept(placements, sizes, images, screen).contains(p) ==> placements.contains(p)
                && images.contains_key(p.image_id),
        forall|i: int|
            0 <= i < kept(placements, sizes, images, screen).len() ==> placements.contains(
                #[trigger] kept(placements, sizes, images, screen)[i],
            ),
    decreases placements.len(),
{
    if placements.len() > 0 {
        let front = placements.drop_last();
        let n = placements.len() - 1;
        lemma_kept(front, sizes, images, screen);
        let all = kept(placements, sizes, images, screen);
        let before = kept(front, sizes, images, screen);
        assert forall|p: PlacementView| #[trigger] all.contains(p) implies placements.contains(p)
            && images.contains_key(p.image_id) by {
            let i = choose|i: int| 0 <= i < all.len() && all[i] == p;
            if i < before.len() {
                assert(before.contains(before[i]));
                let k = choose|k: int| 0 <= k < front.len() && front[k] == p;
                assert(placements[k] == p);
            } else {
                assert(placements[n] == p);
            }
        }
        assert forall|i: int| 0 <= i < all.len() implies placements.contains(#[trigger] all[i]) by {
            assert(all.contains(all[i]));
        }
    }
}

/// A placement dies the moment a covered cell is overwritten.
pub proof fn law_overwritten_placement_is_stale(
    p: PlacementView,
    size: (usize, usize),
    screen: Screen,
    row: int,
    col: int,
)
    requires
        covers(p, size, screen, row, col),
        screen.at(row, col) != KITTY_MARKER,
    ensures
        !intact(p, size, screen),
{
}

/// While every covered cell holds the marker, reconciling drops nothing.
pub proof fn law_intact_placements_stay(
    placements: Seq<PlacementView>,
    sizes: Seq<(usize, usize)>,
    images: Map<u64, ImageView>,
    screen: Screen,
)
    requires
        sizes.len() == placements.len(),
        forall|i: int|
            0 <= i < placements.len() ==> images.contains_key((#[trigger] placements[i]).image_id)
                && intact(placements[i], sizes[i], screen),
    ensures
        kept(placements, sizes, images, screen) == placements,
    decreases placements.len(),
{
    lemma_intact_stay(placements, sizes, images, screen);
}

/// The induction behind [`law_intact_placements_stay`], which may know more
/// sizes than placements.
proof fn lemma_intact_stay(
    placements: Seq<PlacementView>,
    sizes: Seq<(usize, usize)>,
    images: Map<u64, ImageView>,
    screen: Screen,
)
    requires
        sizes.len() >= placements.len(),
        forall|i: int|
            0 <= i < placements.len() ==> images.contains_key((#[trigger] placements[i]).image_id)
                && intact(placements[i], sizes[i], screen),
    ensures
        kept(placements, sizes, images, screen) == placements,
    decreases placements.len(),
{
    if placements.len() > 0 {
        let front = placements.drop_last();
        assert forall|i: int| 0 <= i < front.len() implies images.contains_key(
            (#[trigger] front[i]).image_id,
        ) && intact(front[i], sizes[i], screen) by {
            assert(front[i] == placements[i]);
        }
        lemma_intact_stay(front, sizes, images, screen);
        assert(placements[placements.len() - 1] == placements.last());
        assert(front.push(placements.last()) =~= placements);
    }
}

// ---------------------------------------------------------------------------
// Laws
// ---------------------------------------------------------------------------

/// Every stored image holds four bytes a pixel and has a generation below the
/// next one, no two images share a generation, and every placement carries a
/// generation that has been given out.
pub open spec fn store_ok(st: StoreView) -> bool {
    &&& forall|id: u64| #[trigger]
        st.images.contains_key(id) ==> pixels_fit(st.images[id].pixels) && st.images[id].gen
            < st.next_gen
    &&& forall|a: u64, b: u64| #[trigger]
        st.images.contains_key(a) && #[trigger] st.images.contains_key(b) && a != b
            ==> st.images[a].gen != st.images[b].gen
    &&& forall|i: int|
        0 <= i < st.placements.len() ==> (#[trigger] st.placements[i]).gen < st.next_gen
}

/// A measure job carries a generation that has been given out.
pub open spec fn step_ok(st: StoreView, step: StepView) -> bool {
    step matches StepView::Measure(job) ==> job.placement.gen < st.next_gen
}

/// An empty store is in order.
pub proof fn law_new_store_is_ok()
    ensures
        store_ok(
            StoreView {
                images: Map::empty(),
                placements: Seq::empty(),
                pending: None,
                next_gen: 0,
            },
        ),
{
}

/// Storing a decoded image keeps a store in order, and a measure job that comes
/// of it carries a generation that has been given out.
pub proof fn law_image_keeps_store_ok(
    st: StoreView,
    header: HeaderView,
    image: Option<PixelsView>,
    cursor: (usize, isize),
    display: bool,
)
    requires
        store_ok(st),
        st.next_gen < u64::MAX,
        image matches Some(p) ==> pixels_fit(p),
    ensures
        ({
            let (after, step) = image_step(st, header, image, cursor, display);
            store_ok(after) && step_ok(after, step)
        }),
{
}

/// Deleting keeps a store in order.
pub proof fn law_delete_keeps_store_ok(st: StoreView, kv: Map<Seq<char>, Seq<char>>)
    requires
        store_ok(st),
    ensures
        store_ok(delete_step(st, kv)),
{
    if let Some(id) = unsigned_of(kv, "i"@, u64::MAX as nat) {
        let keep = |p: PlacementView| p.image_id != id as u64;
        let after = delete_step(st, kv);
        assert forall|i: int| 0 <= i < after.placements.len() implies (
        #[trigger] after.placements[i]).gen < after.next_gen by {
            st.placements.lemma_filter_contains_rev(keep, after.placements[i]);
            assert(st.placements.contains(after.placements[i]));
        }
    }
}

/// Putting a measured placement on the screen keeps a store in order.
pub proof fn law_place_keeps_store_ok(
    st: StoreView,
    job: MeasureJobView,
    x: usize,
    y: isize,
    cols: usize,
    rows: usize,
)
    requires
        store_ok(st),
        job.placement.gen < st.next_gen,
    ensures
        store_ok(place_step(st, job, x, y, cols, rows).0),
{
}

/// Storing an image under a number that was taken gives it another generation
/// than the image that was there, so a texture made of the old one is told
/// apart.
pub proof fn law_replacing_changes_generation(
    st: StoreView,
    header: HeaderView,
    image: PixelsView,
    cursor: (usize, isize),
    display: bool,
)
    requires
        store_ok(st),
        st.next_gen < u64::MAX,
        st.images.contains_key(header.image_id),
    ensures
        ({
            let after = image_step(st, header, Some(image), cursor, display).0;
            after.images.contains_key(header.image_id) && after.images[header.image_id].gen
                != st.images[header.image_id].gen
        }),
{
}

/// A capability query leaves the store alone and is answered.
pub proof fn law_query_changes_nothing(
    st: StoreView,
    kv: Map<Seq<char>, Seq<char>>,
    data: Seq<u8>,
    cursor: (usize, isize),
)
    requires
        action_of(kv) == "q"@,
    ensures
        command_step(st, kv, data, cursor) == (st, StepView::Done(KittyAction::Respond)),
{
    reveal_strlit("q");
    reveal_strlit("t");
    reveal_strlit("T");
    assert("q"@[0] == 'q' && "t"@[0] == 't' && "T"@[0] == 'T');
}

/// Transmitting without display never places anything, whatever the data.
pub proof fn law_transmit_does_not_place(
    st: StoreView,
    kv: Map<Seq<char>, Seq<char>>,
    data: Seq<u8>,
    cursor: (usize, isize),
)
    requires
        action_of(kv) == "t"@,
    ensures
        ({
            let (after, step) = command_step(st, kv, data, cursor);
            after.placements == st.placements && !(step is Measure)
        }),
{
    reveal_strlit("t");
    reveal_strlit("T");
    assert("t"@[0] == 't' && "T"@[0] == 'T');
}

/// Whether control data belongs to a transmission.
pub open spec fn transmits(kv: Map<Seq<char>, Seq<char>>) -> bool {
    action_of(kv) == "t"@ || action_of(kv) == "T"@
}

/// The store after some commands, given by their control data and their payload.
pub open spec fn after_commands(
    st: StoreView,
    chunks: Seq<(Map<Seq<char>, Seq<char>>, Seq<u8>)>,
    cursor: (usize, isize),
) -> StoreView
    decreases chunks.len(),
{
    if chunks.len() == 0 {
        st
    } else {
        command_step(
            after_commands(st, chunks.drop_last(), cursor),
            chunks.last().0,
            chunks.last().1,
            cursor,
        ).0
    }
}

/// The data of some chunks, one behind the other.
pub open spec fn joined_data(chunks: Seq<(Map<Seq<char>, Seq<char>>, Seq<u8>)>) -> Seq<u8>
    decreases chunks.len(),
{
    if chunks.len() == 0 {
        seq![]
    } else {
        joined_data(chunks.drop_last()) + chunks.last().1
    }
}

/// Chunks that are not the last change nothing but what is pending: the header
/// of the first, and the data of all.
proof fn lemma_chunks_pend(
    st: StoreView,
    chunks: Seq<(Map<Seq<char>, Seq<char>>, Seq<u8>)>,
    cursor: (usize, isize),
)
    requires
        st.pending is None,
        chunks.len() > 0,
        forall|i: int|
            0 <= i < chunks.len() ==> transmits((#[trigger] chunks[i]).0) && is_set(
                chunks[i].0,
                "m"@,
                "1"@,
            ),
    ensures
        after_commands(st, chunks, cursor) == (StoreView {
            pending: Some(
                PendingView { header: header_of(chunks[0].0), data: joined_data(chunks) },
            ),
            ..st
        }),
    decreases chunks.len(),
{
    let front = chunks.drop_last();
    assert(chunks.last() == chunks[chunks.len() - 1]);
    assert forall|i: int| 0 <= i < front.len() implies transmits((#[trigger] front[i]).0) && is_set(
        front[i].0,
        "m"@,
        "1"@,
    ) by {
        assert(front[i] == chunks[i]);
    }
    if front.len() > 0 {
        lemma_chunks_pend(st, front, cursor);
        assert(front[0] == chunks[0]);
    } else {
        assert(joined_data(front) =~= Seq::empty());
        assert(after_commands(st, front, cursor) == st);
        assert(joined_data(chunks) =~= chunks[0].1);
    }
}

/// A transmission in any number of chunks ends as one in a single piece does:
/// the header is that of the first chunk, the data of the chunks is joined, and
/// until the last chunk no image and no placement changes.
pub proof fn law_chunks_reassemble(
    st: StoreView,
    chunks: Seq<(Map<Seq<char>, Seq<char>>, Seq<u8>)>,
    last: Map<Seq<char>, Seq<char>>,
    data: Seq<u8>,
    whole: Map<Seq<char>, Seq<char>>,
    cursor: (usize, isize),
)
    requires
        st.pending is None,
        chunks.len() > 0,
        forall|i: int|
            0 <= i < chunks.len() ==> transmits((#[trigger] chunks[i]).0) && is_set(
                chunks[i].0,
                "m"@,
                "1"@,
            ),
        transmits(last),
        !is_set(last, "m"@, "1"@),
        transmits(whole),
        !is_set(whole, "m"@, "1"@),
        header_of(whole) == header_of(chunks[0].0),
        is_set(last, "a"@, "T"@) == is_set(whole, "a"@, "T"@),
    ensures
        ({
            let between = after_commands(st, chunks, cursor);
            &&& between.images == st.images
            &&& between.placements == st.placements
            &&& command_step(between, last, data, cursor) == command_step(
                st,
                whole,
                joined_data(chunks) + data,
                cursor,
            )
        }),
{
    lemma_chunks_pend(st, chunks, cursor);
    let between = after_commands(st, chunks, cursor);
    assert(StoreView { pending: None, ..between } == StoreView { pending: None, ..st });
}

/// A payload with some control data and some data.
pub open spec fn payload_of(control: Seq<char>, data: Seq<u8>) -> Seq<u8> {
    encode_utf8(control) + seq![59u8] + data
}

/// Control data without the letter that marks graphics commands.
pub open spec fn unmarked_text(control: Seq<char>) -> Seq<char> {
    if control.len() > 0 && control[0] == 'G' {
        control.drop_first()
    } else {
        control
    }
}

/// The first semicolon stands behind bytes that hold none.
proof fn lemma_control_len(bytes: Seq<u8>, data: Seq<u8>)
    requires
        !bytes.contains(59u8),
    ensures
        control_len(bytes + seq![59u8] + data) == bytes.len(),
    decreases bytes.len(),
{
    let all = bytes + seq![59u8] + data;
    if bytes.len() > 0 {
        assert(all[0] == bytes[0]);
        assert(bytes.contains(bytes[0]));
        let rest = bytes.drop_first();
        assert(!rest.contains(59u8)) by {
            if rest.contains(59u8) {
                let i = choose|i: int| 0 <= i < rest.len() && rest[i] == 59u8;
                assert(bytes[i + 1] == 59u8);
            }
        }
        assert(all.drop_first() =~= rest + seq![59u8] + data);
        lemma_control_len(rest, data);
    } else {
        assert(all[0] == 59u8);
    }
}

/// Without its mark, the bytes of control data are those of the data without its
/// mark.
proof fn lemma_unmarked(control: Seq<char>, data: Seq<u8>)
    ensures
        unmarked(payload_of(control, data)) == encode_utf8(unmarked_text(control)) + seq![59u8]
            + data,
{
    let all = payload_of(control, data);
    let bytes = encode_utf8(control);
    if control.len() == 0 {
        assert(all[0] == 59u8);
    } else {
        let first = control.take(1);
        let rest = control.drop_first();
        assert(first + rest =~= control);
        lemma_encode_sum(first, rest);
        assert(first.drop_first() =~= Seq::<char>::empty());
        assert(encode_utf8(first.drop_first()) =~= Seq::<u8>::empty());
        assert(encode_utf8(first) =~= encode_scalar(first[0] as u32));
        char_is_scalar(first[0]);
        if first[0] == 'G' {
            assert(leading_byte_width_1(0x47u32) == 71u8) by (bit_vector);
            assert(encode_utf8(first) =~= seq![71u8]);
            assert(all[0] == 71u8);
            assert(all.skip(1) =~= encode_utf8(rest) + seq![59u8] + data);
        } else {
            assert(!first.contains('G'));
            lemma_ascii_byte(first, 'G');
            assert(encode_utf8(first).len() > 0);
            assert(encode_utf8(first).contains(encode_utf8(first)[0]));
            assert(all[0] == encode_utf8(first)[0]);
        }
    }
}

/// A payload whose control data holds no semicolon is the command that its two
/// parts give.
pub proof fn law_payload_is_command(
    st: StoreView,
    control: Seq<char>,
    data: Seq<u8>,
    cursor: (usize, isize),
)
    requires
        !control.contains(';'),
    ensures
        handle_step(st, payload_of(control, data), cursor) == command_step(
            st,
            controls(unmarked_text(control)),
            data,
            cursor,
        ),
{
    let text = unmarked_text(control);
    let bytes = encode_utf8(text);
    lemma_unmarked(control, data);
    assert(!text.contains(';')) by {
        if text.contains(';') {
            let i = choose|i: int| 0 <= i < text.len() && text[i] == ';';
            assert(control[i + control.len() - text.len()] == ';');
        }
    }
    lemma_ascii_byte(text, ';');
    lemma_control_len(bytes, data);
    let all = bytes + seq![59u8] + data;
    assert(all.take(bytes.len() as int) =~= bytes);
    assert(all.skip(bytes.len() as int + 1) =~= data);
    lemma_readable_encoded(text);
}

/// Control data with one more setting behind it has that setting besides.
proof fn lemma_controls_more(control: Seq<char>, digit: char)
    requires
        digit == '0' || digit == '1',
    ensures
        controls(control + seq![',', 'm', '=', digit]) == controls(control).insert(
            seq!['m'],
            seq![digit],
        ),
        controls(seq!['m', '=', digit]) == Map::<Seq<char>, Seq<char>>::empty().insert(
            seq!['m'],
            seq![digit],
        ),
{
    let token = seq!['m', '=', digit];
    assert(!token.contains(','));
    lemma_split_last(control, ',', token);
    assert(control + seq![','] + token =~= control + seq![',', 'm', '=', digit]);
    lemma_first_index_bound(token, ',');
    let before = split_at_each(control, ',');
    let tokens = before.push(token);
    assert(tokens.drop_last() =~= before);
    assert(first_index(token, '=') == 1) by {
        assert(token.drop_first()[0] == '=');
        assert(first_index(token.drop_first(), '=') == 0);
    }
    assert(token.take(1) =~= seq!['m']);
    assert(token.skip(2) =~= seq![digit]);
    assert(trimmed(seq!['m']) == seq!['m']);
    assert(trimmed(seq![digit]) == seq![digit]);
    assert(controls(control + seq![',', 'm', '=', digit]) == control_state(tokens).0);
    assert(split_at_each(token, ',') == seq![token]);
    let alone = seq![token];
    assert(alone.drop_last() =~= Seq::<Seq<char>>::empty());
    assert(control_state(alone.drop_last()).0 == Map::<Seq<char>, Seq<char>>::empty());
    assert(control_state(alone).0 == Map::<Seq<char>, Seq<char>>::empty().insert(
        seq!['m'],
        seq![digit],
    ));
}

/// Whether more chunks follow says nothing of the image.
proof fn lemma_header_without_more(kv: Map<Seq<char>, Seq<char>>, value: Seq<char>)
    ensures
        header_of(kv.insert("m"@, value)) == header_of(kv),
        action_of(kv.insert("m"@, value)) == action_of(kv),
        is_set(kv.insert("m"@, value), "a"@, "T"@) == is_set(kv, "a"@, "T"@),
{
    reveal_strlit("m");
    reveal_strlit("a");
    reveal_strlit("i");
    reveal_strlit("f");
    reveal_strlit("o");
    reveal_strlit("t");
    reveal_strlit("s");
    reveal_strlit("v");
    reveal_strlit("c");
    reveal_strlit("r");
    reveal_strlit("w");
    reveal_strlit("h");
    reveal_strlit("z");
    assert("m"@[0] == 'm');
    assert("a"@[0] == 'a' && "i"@[0] == 'i' && "f"@[0] == 'f' && "o"@[0] == 'o');
    assert("t"@[0] == 't' && "s"@[0] == 's' && "v"@[0] == 'v' && "c"@[0] == 'c');
    assert("r"@[0] == 'r' && "w"@[0] == 'w' && "h"@[0] == 'h' && "z"@[0] == 'z');
}

/// The letter that marks graphics commands, or nothing.
pub open spec fn mark_text(marked: bool) -> Seq<char> {
    if marked {
        "G"@
    } else {
        seq![]
    }
}

/// What the control data of a cut transmission sets.
proof fn lemma_cut_controls(header: Seq<char>, marked: bool)
    requires
        !header.contains(';'),
    ensures
        !(header + ",m=1"@).contains(';'),
        !(header + ",m=0"@).contains(';'),
        !(mark_text(marked) + "m=0"@).contains(';'),
        controls(unmarked_text(header + ",m=1"@)) == controls(unmarked_text(header)).insert(
            "m"@,
            "1"@,
        ),
        controls(unmarked_text(header + ",m=0"@)) == controls(unmarked_text(header)).insert(
            "m"@,
            "0"@,
        ),
        controls(unmarked_text(mark_text(marked) + "m=0"@)) == Map::<
            Seq<char>,
            Seq<char>,
        >::empty().insert("m"@, "0"@),
{
    reveal_strlit(",m=1");
    reveal_strlit(",m=0");
    reveal_strlit("m=0");
    reveal_strlit("m");
    reveal_strlit("1");
    reveal_strlit("0");
    reveal_strlit("G");
    assert(",m=1"@ =~= seq![',', 'm', '=', '1']);
    assert(",m=0"@ =~= seq![',', 'm', '=', '0']);
    assert("m=0"@ =~= seq!['m', '=', '0']);
    assert("m"@ =~= seq!['m']);
    assert("1"@ =~= seq!['1']);
    assert("0"@ =~= seq!['0']);
    assert("G"@ =~= seq!['G']);
    let text = unmarked_text(header);
    assert(unmarked_text(header + ",m=1"@) =~= text + ",m=1"@);
    assert(unmarked_text(header + ",m=0"@) =~= text + ",m=0"@);
    assert(unmarked_text(mark_text(marked) + "m=0"@) =~= "m=0"@);
    lemma_controls_more(text, '1');
    lemma_controls_more(text, '0');
}

/// A transmission that is cut in two gives what it gives in one piece. The first
/// payload has the header with `m=1` behind it and changes no image and no
/// placement; the second has `m=0`, with or without the letter that marks
/// graphics commands. A single payload with all the data and `m=0` behind the
/// header leaves the same store and asks for the same.
pub proof fn law_cut_transmission_reassembles(
    st: StoreView,
    header: Seq<char>,
    x: Seq<u8>,
    y: Seq<u8>,
    marked: bool,
    cursor: (usize, isize),
)
    requires
        st.pending is None,
        !header.contains(';'),
        action_of(controls(unmarked_text(header))) == "t"@,
    ensures
        ({
            let first = handle_step(st, payload_of(header + ",m=1"@, x), cursor);
            let second = handle_step(first.0, payload_of(mark_text(marked) + "m=0"@, y), cursor);
            let single = handle_step(st, payload_of(header + ",m=0"@, x + y), cursor);
            &&& first.1 == StepView::Done(KittyAction::Nothing)
            &&& first.0.images == st.images
            &&& first.0.placements == st.placements
            &&& second == single
        }),
{
    let kv = controls(unmarked_text(header));
    let more = kv.insert("m"@, "1"@);
    let whole = kv.insert("m"@, "0"@);
    let last = Map::<Seq<char>, Seq<char>>::empty().insert("m"@, "0"@);
    let first = handle_step(st, payload_of(header + ",m=1"@, x), cursor);
    lemma_cut_controls(header, marked);
    lemma_header_without_more(kv, "1"@);
    lemma_header_without_more(kv, "0"@);
    law_payload_is_command(st, header + ",m=1"@, x, cursor);
    law_payload_is_command(first.0, mark_text(marked) + "m=0"@, y, cursor);
    law_payload_is_command(st, header + ",m=0"@, x + y, cursor);
    let chunks = seq![(more, x)];
    assert(chunks.drop_last() =~= Seq::empty());
    assert(after_commands(st, chunks.drop_last(), cursor) == st);
    assert(joined_data(chunks.drop_last()) =~= Seq::<u8>::empty());
    assert(joined_data(chunks) =~= x);
    assert(after_commands(st, chunks, cursor) == first.0);
    reveal_strlit("1");
    reveal_strlit("0");
    reveal_strlit("a");
    reveal_strlit("m");
    reveal_strlit("t");
    reveal_strlit("T");
    assert("1"@[0] == '1' && "0"@[0] == '0');
    assert("a"@[0] == 'a' && "m"@[0] == 'm');
    assert("t"@[0] == 't' && "T"@[0] == 'T');
    law_chunks_reassemble(st, chunks, last, y, whole, cursor);
}

/// After an image has been deleted, neither it nor a placement of it is left,
/// and every other image and placement is.
pub proof fn law_delete_removes_image(st: StoreView, kv: Map<Seq<char>, Seq<char>>, id: u64)
    requires
        unsigned_of(kv, "i"@, u64::MAX as nat) == Some(id as nat),
    ensures
        ({
            let after = delete_step(st, kv);
            &&& !after.images.contains_key(id)
            &&& forall|other: u64|
                other != id ==> (#[trigger] after.images.contains_key(other)
                    == st.images.contains_key(other))
            &&& forall|p: PlacementView| #[trigger]
                after.placements.contains(p) <==> st.placements.contains(p) && p.image_id != id
        }),
{
    let keep = |p: PlacementView| p.image_id != id;
    let after = delete_step(st, kv);
    assert(after.placements == st.placements.filter(keep));
    assert forall|p: PlacementView| #[trigger]
        after.placements.contains(p) <==> st.placements.contains(p) && p.image_id != id by {
        if after.placements.contains(p) {
            st.placements.lemma_filter_contains_rev(keep, p);
            let i = choose|i: int| 0 <= i < after.placements.len() && after.placements[i] == p;
            st.placements.lemma_filter_pred(keep, i);
        }
        if st.placements.contains(p) && p.image_id != id {
            let i = choose|i: int| 0 <= i < st.placements.len() && st.placements[i] == p;
            st.placements.lemma_filter_contains(keep, i);
        }
    }
}

// ---------------------------------------------------------------------------
// What transmissions store
// ---------------------------------------------------------------------------

/// The image data that a payload holds: the payload itself, or what it inflates
/// to where it is compressed.
pub open spec fn holds_image(kv: Map<Seq<char>, Seq<char>>, payload: Seq<u8>, bytes: Seq<u8>) -> bool {
    if is_set(kv, "o"@, "z"@) {
        inflated_bytes(payload) == Some(bytes)
    } else {
        payload == bytes
    }
}

/// Whether a command transmits image data whole: no chunk of it came before, none
/// follows, and it is no file name.
pub open spec fn sends_data(
    st: StoreView,
    kv: Map<Seq<char>, Seq<char>>,
    data: Seq<u8>,
    bytes: Seq<u8>,
) -> bool {
    &&& st.pending is None
    &&& st.next_gen < u64::MAX
    &&& transmits(kv)
    &&& !is_set(kv, "m"@, "1"@)
    &&& !is_set(kv, "t"@, "f"@)
    &&& base64_bytes(data) matches Some(payload) && holds_image(kv, payload, bytes)
}

/// A pixel lies within an image.
proof fn lemma_pixel_index(x: int, y: int, w: int, h: int)
    requires
        0 <= x < w,
        0 <= y < h,
    ensures
        0 <= y * w + x < w * h,
{
    assert(0 <= y * w && y * w + w <= w * h) by (nonlinear_arith)
        requires
            0 <= y < h,
            0 <= w,
    ;
}

/// A raw image of four bytes a pixel is stored as it was sent: the pixel in a
/// column and a row has the four bytes that were sent for it, in their order.
pub proof fn law_rgba_image_is_stored(
    st: StoreView,
    kv: Map<Seq<char>, Seq<char>>,
    data: Seq<u8>,
    bytes: Seq<u8>,
    w: u32,
    h: u32,
    cursor: (usize, isize),
    x: int,
    y: int,
    c: int,
)
    requires
        sends_data(st, kv, data, bytes),
        unsigned_of(kv, "f"@, u32::MAX as nat) == Some(32nat),
        size_of(kv) == Some((w, h)),
        bytes.len() >= w * h * 4,
        0 <= x < w,
        0 <= y < h,
        0 <= c < 4,
    ensures
        ({
            let after = command_step(st, kv, data, cursor).0;
            let image = after.images[image_id_of(kv)];
            &&& after.images.contains_key(image_id_of(kv))
            &&& image.pixels.width == w && image.pixels.height == h
            &&& image.pixels.rgba.len() == w * h * 4
            &&& image.pixels.rgba[(y * w + x) * 4 + c] == bytes[(y * w + x) * 4 + c]
        }),
{
    lemma_pixel_index(x, y, w as int, h as int);
}

/// A raw image of three bytes a pixel is stored with each pixel opaque: the first
/// three bytes are those that were sent for it, the fourth is 255.
pub proof fn law_rgb_image_is_stored_opaque(
    st: StoreView,
    kv: Map<Seq<char>, Seq<char>>,
    data: Seq<u8>,
    bytes: Seq<u8>,
    w: u32,
    h: u32,
    cursor: (usize, isize),
    x: int,
    y: int,
    c: int,
)
    requires
        sends_data(st, kv, data, bytes),
        unsigned_of(kv, "f"@, u32::MAX as nat) == Some(24nat),
        size_of(kv) == Some((w, h)),
        bytes.len() >= w * h * 3,
        0 <= x < w,
        0 <= y < h,
        0 <= c < 3,
    ensures
        ({
            let after = command_step(st, kv, data, cursor).0;
            let image = after.images[image_id_of(kv)];
            &&& after.images.contains_key(image_id_of(kv))
            &&& image.pixels.width == w && image.pixels.height == h
            &&& image.pixels.rgba.len() == w * h * 4
            &&& image.pixels.rgba[(y * w + x) * 4 + c] == bytes[(y * w + x) * 3 + c]
            &&& image.pixels.rgba[(y * w + x) * 4 + 3] == 255
        }),
{
    lemma_pixel_index(x, y, w as int, h as int);
    let i = (y * w + x) * 4 + c;
    assert(i / 4 == y * w + x && i % 4 == c);
    assert(((y * w + x) * 4 + 3) % 4 == 3);
}

/// Raw data that is too short for its size, or has none, stores nothing.
pub proof fn law_short_raw_data_is_no_image(
    st: StoreView,
    kv: Map<Seq<char>, Seq<char>>,
    data: Seq<u8>,
    bytes: Seq<u8>,
    cursor: (usize, isize),
)
    requires
        sends_data(st, kv, data, bytes),
        unsigned_of(kv, "f"@, u32::MAX as nat) matches Some(f) && (f == 24 || f == 32) && (
        size_of(kv) matches Some(size) ==> bytes.len() < size.0 * size.1 * (if f == 24 {
            3int
        } else {
            4
        })),
    ensures
        command_step(st, kv, data, cursor) == (st, StepView::Done(KittyAction::Nothing)),
{
}

/// An image in a file format, which is what a transmission holds unless it says
/// otherwise, is stored as it decodes; data that does not decode stores nothing.
pub proof fn law_encoded_image_is_stored(
    st: StoreView,
    kv: Map<Seq<char>, Seq<char>>,
    data: Seq<u8>,
    bytes: Seq<u8>,
    cursor: (usize, isize),
)
    requires
        sends_data(st, kv, data, bytes),
        unsigned_of(kv, "f"@, u32::MAX as nat) matches Some(f) ==> f != 24 && f != 32,
    ensures
        ({
            let (after, step) = command_step(st, kv, data, cursor);
            match decoded_image(bytes) {
                Some((width, height, rgba)) => {
                    let image = after.images[image_id_of(kv)];
                    &&& after.images.contains_key(image_id_of(kv))
                    &&& image.pixels.width == width && image.pixels.height == height
                    &&& image.pixels.rgba == rgba
                },
                None => (after, step) == (st, StepView::Done(KittyAction::Nothing)),
            }
        }),
{
}

/// Storing an image touches no other image and no placement. It takes the next
/// generation, keeps the cell size that was sent with it, and is announced as a
/// change; where it is to be shown it is placed at the cursor instead, with the
/// sizes and the depth that were sent.
pub proof fn law_stored_image_is_placed_or_announced(
    st: StoreView,
    kv: Map<Seq<char>, Seq<char>>,
    data: Seq<u8>,
    bytes: Seq<u8>,
    cursor: (usize, isize),
    other: u64,
)
    requires
        sends_data(st, kv, data, bytes),
        other != image_id_of(kv),
    ensures
        ({
            let (after, step) = command_step(st, kv, data, cursor);
            let id = image_id_of(kv);
            let image = after.images[id];
            &&& after.placements == st.placements
            &&& after.pending is None
            &&& after.images.contains_key(other) == st.images.contains_key(other)
            &&& st.images.contains_key(other) ==> after.images[other] == st.images[other]
            &&& step != StepView::Done(KittyAction::Nothing) ==> {
                &&& after.images.contains_key(id)
                &&& image.gen == st.next_gen
                &&& after.next_gen == st.next_gen + 1
                &&& image.cells_w == float_of(kv, "c"@)
                &&& image.cells_h == float_of(kv, "r"@)
                &&& kv.contains_key("a"@) && kv["a"@] == "T"@ ==> (step matches StepView::Measure(
                    job,
                ) && {
                    let p = job.placement;
                    &&& p.image_id == id && p.gen == st.next_gen
                    &&& p.col == cursor.0 && p.row == cursor.1
                    &&& p.cells_w == float_of(kv, "c"@) && p.cells_h == float_of(kv, "r"@)
                    &&& p.px_w == float_of(kv, "w"@) && p.px_h == float_of(kv, "h"@)
                    &&& p.z == depth_of(kv)
                    &&& job.x is None && job.y is None && job.inline
                    &&& job.width == image.pixels.width && job.height == image.pixels.height
                })
                &&& !(kv.contains_key("a"@) && kv["a"@] == "T"@) ==> step == StepView::Done(
                    KittyAction::Changed,
                )
            }
        }),
{
    reveal_strlit("t");
    reveal_strlit("T");
}

/// A file is shown as its bytes sent along would be: the transmission of its name
/// asks for the file, changes nothing, and goes on with the bytes as it does with
/// data.
pub proof fn law_file_is_stored_like_data(
    st: StoreView,
    kv: Map<Seq<char>, Seq<char>>,
    data: Seq<u8>,
    path: Seq<char>,
    bytes: Seq<u8>,
    cursor: (usize, isize),
)
    requires
        st.pending is None,
        transmits(kv),
        !is_set(kv, "m"@, "1"@),
        is_set(kv, "t"@, "f"@),
        base64_bytes(data) == Some(encode_utf8(path)),
    ensures
        ({
            let (after, step) = command_step(st, kv, data, cursor);
            &&& after == st
            &&& step matches StepView::Read(job) && {
                &&& job.path == path
                &&& bytes_step(st, job.header, None, job.cursor, job.display) == (
                    st,
                    StepView::Done(KittyAction::Nothing),
                )
                &&& forall|sent: Seq<u8>|
                    base64_bytes(sent) == Some(bytes) ==> bytes_step(
                        st,
                        job.header,
                        Some(bytes),
                        job.cursor,
                        job.display,
                    ) == #[trigger] command_step(
                        st,
                        kv.remove("t"@).remove("o"@),
                        sent,
                        cursor,
                    )
            }
        }),
{
    encode_utf8_valid_utf8(path);
    encode_utf8_decode_utf8(path);
    let plain = kv.remove("t"@).remove("o"@);
    lemma_header_without_source(kv);
    reveal_strlit("t");
    reveal_strlit("o");
    reveal_strlit("a");
    reveal_strlit("m");
    assert("t"@[0] == 't' && "o"@[0] == 'o' && "a"@[0] == 'a' && "m"@[0] == 'm');
    assert(action_of(plain) == action_of(kv));
    assert(is_set(plain, "a"@, "T"@) == is_set(kv, "a"@, "T"@));
    assert(!is_set(plain, "m"@, "1"@));
    let header = header_of(kv);
    let other = header_of(plain);
    assert(StoreView { pending: None, ..st } == st);
    assert forall|sent: Seq<u8>| base64_bytes(sent) == Some(bytes) implies bytes_step(
        st,
        header,
        Some(bytes),
        cursor,
        is_set(kv, "a"@, "T"@),
    ) == #[trigger] command_step(st, plain, sent, cursor) by {
        assert(command_step(st, plain, sent, cursor) == transmit_step(st, plain, sent, cursor));
    }
}

/// Where image data comes from, and whether it is compressed, says nothing else
/// of the image.
proof fn lemma_header_without_source(kv: Map<Seq<char>, Seq<char>>)
    ensures
        header_of(kv.remove("t"@).remove("o"@)) == (HeaderView {
            zlib: false,
            file: false,
            ..header_of(kv)
        }),
{
    reveal_strlit("t");
    reveal_strlit("o");
    reveal_strlit("i");
    reveal_strlit("f");
    reveal_strlit("s");
    reveal_strlit("v");
    reveal_strlit("c");
    reveal_strlit("r");
    reveal_strlit("w");
    reveal_strlit("h");
    reveal_strlit("z");
    assert("t"@[0] == 't' && "o"@[0] == 'o');
    assert("i"@[0] == 'i' && "f"@[0] == 'f' && "s"@[0] == 's' && "v"@[0] == 'v');
    assert("c"@[0] == 'c' && "r"@[0] == 'r' && "w"@[0] == 'w' && "h"@[0] == 'h');
    assert("z"@[0] == 'z');
}

/// Data that is not base64 stores nothing, and neither does compressed data that
/// does not inflate.
pub proof fn law_broken_data_is_no_image(
    st: StoreView,
    kv: Map<Seq<char>, Seq<char>>,
    data: Seq<u8>,
    cursor: (usize, isize),
)
    requires
        st.pending is None,
        transmits(kv),
        !is_set(kv, "m"@, "1"@),
        base64_bytes(data) matches Some(payload) ==> !is_set(kv, "t"@, "f"@) && is_set(
            kv,
            "o"@,
            "z"@,
        ) && inflated_bytes(payload) is None,
    ensures
        command_step(st, kv, data, cursor) == (st, StepView::Done(KittyAction::Nothing)),
{
    assert(StoreView { pending: None, ..st } == st);
}

/// A size is given by two numerals with a comma between them, or by one and the
/// height apart.
pub proof fn law_size_is_width_and_height(kv: Map<Seq<char>, Seq<char>>, w: u32, h: u32)
    ensures
        size_of(kv.insert("s"@, decimal(w as nat) + seq![','] + decimal(h as nat))) == Some((w, h)),
        size_of(kv.insert("s"@, decimal(w as nat)).insert("v"@, decimal(h as nat))) == Some((w, h)),
        size_of(kv.remove("s"@)) is None,
{
    let a = decimal(w as nat);
    let b = decimal(h as nat);
    lemma_decimal_digits(w as nat);
    lemma_decimal_digits(h as nat);
    law_numeral_reads_back(w as nat, u32::MAX as nat);
    law_numeral_reads_back(h as nat, u32::MAX as nat);
    assert(!a.contains(','));
    assert(!b.contains(','));
    lemma_split_last(a, ',', b);
    lemma_first_index_bound(a, ',');
    assert(split_at_each(a, ',') == seq![a]);
    assert(seq![a].push(b) =~= seq![a, b]);
    reveal_strlit("s");
    reveal_strlit("v");
    assert("s"@[0] == 's' && "v"@[0] == 'v');
}

/// What the keys of control data say: `i` numbers the image, `f` is its format,
/// `c` and `r` are its cells, `w` and `h` its pixels, `z` its depth; numerals are
/// read as what they stand for, and what is missing falls back.
pub proof fn law_control_keys(kv: Map<Seq<char>, Seq<char>>, n: u32)
    ensures
        ({
            let text = decimal(n as nat);
            &&& header_of(kv.insert("i"@, text)).image_id == n
            &&& header_of(kv.remove("i"@)).image_id == 0
            &&& header_of(kv.insert("f"@, text)).format == n
            &&& header_of(kv.remove("f"@)).format == 100
            &&& header_of(kv.insert("c"@, text)).cells_w == Some(text)
            &&& header_of(kv.remove("c"@)).cells_w is None
            &&& header_of(kv.insert("r"@, text)).cells_h == Some(text)
            &&& header_of(kv.remove("r"@)).cells_h is None
            &&& header_of(kv.insert("w"@, text)).px_w == Some(text)
            &&& header_of(kv.remove("w"@)).px_w is None
            &&& header_of(kv.insert("h"@, text)).px_h == Some(text)
            &&& header_of(kv.remove("h"@)).px_h is None
            &&& n <= i32::MAX ==> header_of(kv.insert("z"@, text)).z == n
            &&& n <= i32::MAX ==> header_of(kv.insert("z"@, seq!['-'] + text)).z == -n
            &&& header_of(kv.remove("z"@)).z == 0
            &&& header_of(kv.insert("o"@, "z"@)).zlib && !header_of(kv.remove("o"@)).zlib
            &&& header_of(kv.insert("t"@, "f"@)).file && !header_of(kv.remove("t"@)).file
        }),
{
    law_numeral_reads_back(n as nat, u32::MAX as nat);
    law_numeral_reads_back(n as nat, u64::MAX as nat);
    law_floating_point_numerals(n as nat, 0);
}

/// Control data with a setting behind it sets that key, and leaves the rest as it
/// was; white space around the key and the value does not count. A piece without
/// an equals sign belongs to the value before it.
pub proof fn law_control_data_adds_up(
    control: Seq<char>,
    key: Seq<char>,
    value: Seq<char>,
    more: Seq<char>,
)
    requires
        !key.contains(',') && !key.contains('='),
        !value.contains(','),
        !more.contains(',') && !more.contains('='),
    ensures
        controls(control + seq![','] + (key + seq!['='] + value)) == controls(control).insert(
            trimmed(key),
            trimmed(value),
        ),
        controls(key + seq!['='] + value) == Map::<Seq<char>, Seq<char>>::empty().insert(
            trimmed(key),
            trimmed(value),
        ),
        controls(control + seq![','] + (key + seq!['='] + value) + seq![','] + more) == controls(
            control,
        ).insert(trimmed(key), trimmed(value) + seq![','] + more),
{
    let token = key + seq!['='] + value;
    let all = control + seq![','] + token;
    assert(!token.contains(',')) by {
        if token.contains(',') {
            let i = choose|i: int| 0 <= i < token.len() && token[i] == ',';
            if i < key.len() {
                assert(key[i] == ',');
            } else if i > key.len() {
                assert(value[i - key.len() - 1] == ',');
            }
        }
    }
    lemma_split_last(control, ',', token);
    lemma_split_last(all, ',', more);
    lemma_key_ends_at_equals(key, value);
    let before = split_at_each(control, ',');
    let tokens = before.push(token);
    assert(tokens.drop_last() =~= before);
    assert(token.take(key.len() as int) =~= key);
    assert(token.skip(key.len() as int + 1) =~= value);
    lemma_first_index_bound(token, ',');
    assert(split_at_each(token, ',') == seq![token]) by {
        if first_index(token, ',') < token.len() {
            assert(token.contains(token[first_index(token, ',') as int]));
        }
    }
    let alone = seq![token];
    assert(alone.drop_last() =~= Seq::<Seq<char>>::empty());
    assert(control_state(alone.drop_last()).0 == Map::<Seq<char>, Seq<char>>::empty());
    let longer = tokens.push(more);
    assert(longer.drop_last() =~= tokens);
    lemma_first_index_bound(more, '=');
    assert(first_index(more, '=') == more.len()) by {
        if first_index(more, '=') < more.len() {
            assert(more.contains(more[first_index(more, '=') as int]));
        }
    }
    reveal_strlit(",");
    assert(","@ =~= seq![',']);
    let first = controls(control).insert(trimmed(key), trimmed(value));
    assert(control_state(tokens) == (first, Some(trimmed(key))));
    assert(first.insert(trimmed(key), trimmed(value) + seq![','] + more) =~= controls(
        control,
    ).insert(trimmed(key), trimmed(value) + seq![','] + more));
}

/// The first equals sign stands behind a key that has none.
proof fn lemma_key_ends_at_equals(key: Seq<char>, value: Seq<char>)
    requires
        !key.contains('='),
    ensures
        first_index(key + seq!['='] + value, '=') == key.len(),
    decreases key.len(),
{
    let all = key + seq!['='] + value;
    if key.len() > 0 {
        assert(key.contains(key[0]));
        let rest = key.drop_first();
        assert(!rest.contains('=')) by {
            if rest.contains('=') {
                let i = choose|i: int| 0 <= i < rest.len() && rest[i] == '=';
                assert(key[i + 1] == '=');
            }
        }
        assert(all.drop_first() =~= rest + seq!['='] + value);
        lemma_key_ends_at_equals(rest, value);
    } else {
        assert(all[0] == '=');
    }
}

// ---------------------------------------------------------------------------
// What placements show
// ---------------------------------------------------------------------------

/// Placing an image that is stored asks for its box and changes nothing. The
/// placement shows the image as it is now, in the cells that were asked for or
/// else in those it was sent with; an image that is not stored is not placed.
pub proof fn law_placing_shows_the_image(
    st: StoreView,
    kv: Map<Seq<char>, Seq<char>>,
    data: Seq<u8>,
    cursor: (usize, isize),
)
    requires
        action_of(kv) == "p"@,
    ensures
        ({
            let (after, step) = command_step(st, kv, data, cursor);
            let id = image_id_of(kv);
            let image = st.images[id];
            &&& after == st
            &&& !st.images.contains_key(id) ==> step == StepView::Done(KittyAction::Nothing)
            &&& st.images.contains_key(id) ==> (step matches StepView::Measure(job) && {
                let p = job.placement;
                &&& p.image_id == id && p.gen == image.gen
                &&& p.col == cursor.0 && p.row == cursor.1
                &&& float_of(kv, "c"@) is Some ==> p.cells_w == float_of(kv, "c"@)
                &&& float_of(kv, "c"@) is None ==> p.cells_w == image.cells_w
                &&& float_of(kv, "r"@) is Some ==> p.cells_h == float_of(kv, "r"@)
                &&& float_of(kv, "r"@) is None ==> p.cells_h == image.cells_h
                &&& p.px_w == float_of(kv, "w"@) && p.px_h == float_of(kv, "h"@)
                &&& p.z == depth_of(kv)
                &&& job.width == image.pixels.width && job.height == image.pixels.height
                &&& !job.inline
                &&& is_set(kv, "C"@, "1"@) ==> job.x is None && job.y is None
                &&& !is_set(kv, "C"@, "1"@) && kv.contains_key("X"@) ==> job.x == float_of(
                    kv,
                    "X"@,
                ) && job.y == float_of(kv, "Y"@)
                &&& !is_set(kv, "C"@, "1"@) && kv.contains_key("Y"@) ==> job.x == float_of(
                    kv,
                    "X"@,
                ) && job.y == float_of(kv, "Y"@)
                &&& !kv.contains_key("X"@) && !kv.contains_key("Y"@) ==> job.x is None
                    && job.y is None
            })
        }),
{
    reveal_strlit("p");
    reveal_strlit("q");
    reveal_strlit("t");
    reveal_strlit("T");
    assert("p"@[0] == 'p' && "q"@[0] == 'q' && "t"@[0] == 't' && "T"@[0] == 'T');
    if float_of(kv, "X"@) is None && !kv.contains_key("X"@) {
        assert(float_of(kv, "X"@) is None);
    }
}

/// A measured placement is added behind the others, at the position that was
/// asked for or else at the cursor, and its cells are to be taken: by moving the
/// cursor where the image flows with the text, without that otherwise.
pub proof fn law_placement_is_added(
    st: StoreView,
    job: MeasureJobView,
    x: usize,
    y: isize,
    cols: usize,
    rows: usize,
)
    ensures
        ({
            let (after, action) = place_step(st, job, x, y, cols, rows);
            let p = after.placements.last();
            &&& after.images == st.images && after.pending == st.pending && after.next_gen
                == st.next_gen
            &&& after.placements.len() == st.placements.len() + 1
            &&& after.placements.drop_last() == st.placements
            &&& job.x is Some ==> p.col == x
            &&& job.x is None ==> p.col == job.placement.col
            &&& job.y is Some ==> p.row == y
            &&& job.y is None ==> p.row == job.placement.row
            &&& p.image_id == job.placement.image_id && p.gen == job.placement.gen
            &&& p.cells_w == job.placement.cells_w && p.cells_h == job.placement.cells_h
            &&& p.px_w == job.placement.px_w && p.px_h == job.placement.px_h
            &&& p.z == job.placement.z
            &&& job.inline ==> action == (KittyAction::Place { col: p.col, row: p.row, cols, rows })
            &&& !job.inline ==> action == (KittyAction::MarkCells {
                col: p.col,
                row: p.row,
                cols,
                rows,
            })
        }),
{
    let after = place_step(st, job, x, y, cols, rows).0;
    assert(after.placements.drop_last() =~= st.placements);
}

/// Deleting without a number takes every placement away and keeps the images;
/// with one, it is a change too. Nothing else of the store is touched.
pub proof fn law_delete_without_number_keeps_images(
    st: StoreView,
    kv: Map<Seq<char>, Seq<char>>,
    data: Seq<u8>,
    cursor: (usize, isize),
)
    requires
        action_of(kv) == "d"@,
    ensures
        ({
            let (after, step) = command_step(st, kv, data, cursor);
            &&& step == StepView::Done(KittyAction::Changed)
            &&& after.pending == st.pending && after.next_gen == st.next_gen
            &&& unsigned_of(kv, "i"@, u64::MAX as nat) is None ==> after.images == st.images
                && after.placements.len() == 0
            &&& unsigned_of(kv, "i"@, u64::MAX as nat) matches Some(id)
                ==> !after.images.contains_key(id as u64)
        }),
{
    reveal_strlit("d");
    reveal_strlit("p");
    reveal_strlit("q");
    reveal_strlit("t");
    reveal_strlit("T");
    assert("d"@[0] == 'd' && "p"@[0] == 'p' && "q"@[0] == 'q' && "t"@[0] == 't' && "T"@[0] == 'T');
}

/// An action that the terminal does not know is left alone.
pub proof fn law_unknown_action_does_nothing(
    st: StoreView,
    kv: Map<Seq<char>, Seq<char>>,
    data: Seq<u8>,
    cursor: (usize, isize),
)
    requires
        kv.contains_key("a"@),
        kv["a"@] != "t"@ && kv["a"@] != "T"@ && kv["a"@] != "q"@ && kv["a"@] != "p"@ && kv["a"@]
            != "d"@,
    ensures
        command_step(st, kv, data, cursor) == (st, StepView::Done(KittyAction::Nothing)),
{
}

/// A placement covers the cells of its box, counted from its own cell, as far as
/// they are on screen; the part above the screen is not counted.
pub proof fn law_box_starts_at_its_cell(
    p: PlacementView,
    size: (usize, usize),
    screen: Screen,
    dx: int,
    dy: int,
)
    requires
        0 <= dx,
        0 <= dy,
    ensures
        p.row >= 0 ==> (covers(p, size, screen, p.row + dy, p.col + dx) <==> dx < size.0 && dy
            < size.1 && p.col + dx < screen.columns && p.row + dy < screen.lines),
        p.row < 0 ==> (covers(p, size, screen, dy, p.col + dx) <==> dx < size.0 && dy < size.1
            && p.col + dx < screen.columns && dy < screen.lines),
        dx > 0 ==> !covers(p, size, screen, p.row as int, p.col - dx),
        p.row >= 0 && dy > 0 ==> !covers(p, size, screen, p.row - dy, p.col as int),
{
}

/// A cell of the screen is found by its line and column.
pub proof fn law_screen_cells_are_lines(screen: Screen, row: int, col: int)
    requires
        screen.ok(),
        0 <= row < screen.lines,
        0 <= col < screen.columns,
    ensures
        0 <= row * screen.columns + col < screen.cells@.len(),
        screen.at(row, col) == screen.cells@[row * screen.columns + col],
        screen.at(0, col) == screen.cells@[col],
{
    lemma_cell(screen, row, col);
}

/// Whether a placement stays when the screen is looked at.
pub open spec fn stays(
    p: PlacementView,
    size: (usize, usize),
    images: Map<u64, ImageView>,
    screen: Screen,
) -> bool {
    images.contains_key(p.image_id) && forall|row: int, col: int|
        covers(p, size, screen, row, col) ==> #[trigger] screen.at(row, col) == '\u{e000}'
}

/// Reconciling keeps a placement exactly where its image is stored and every cell
/// of its box on screen still holds the marker, and keeps the order.
pub proof fn law_reconcile_keeps_what_stays(
    placements: Seq<PlacementView>,
    sizes: Seq<(usize, usize)>,
    images: Map<u64, ImageView>,
    screen: Screen,
    last: PlacementView,
    size: (usize, usize),
)
    requires
        sizes.len() == placements.len(),
    ensures
        kept(seq![], sizes, images, screen).len() == 0,
        kept(placements.push(last), sizes.push(size), images, screen) == (if stays(
            last,
            size,
            images,
            screen,
        ) {
            kept(placements, sizes, images, screen).push(last)
        } else {
            kept(placements, sizes, images, screen)
        }),
{
    assert(placements.push(last).drop_last() =~= placements);
    lemma_kept_more_sizes(placements, sizes, size, images, screen);
}

/// Sizes beyond the placements do not count.
proof fn lemma_kept_more_sizes(
    placements: Seq<PlacementView>,
    sizes: Seq<(usize, usize)>,
    size: (usize, usize),
    images: Map<u64, ImageView>,
    screen: Screen,
)
    requires
        placements.len() <= sizes.len(),
    ensures
        kept(placements, sizes.push(size), images, screen) == kept(
            placements,
            sizes,
            images,
            screen,
        ),
    decreases placements.len(),
{
    if placements.len() > 0 {
        lemma_kept_more_sizes(placements.drop_last(), sizes, size, images, screen);
    }
}

/// A transmission that stores no image leaves the store alone and has nothing to
/// be done for it, and one that stores an image has.
pub proof fn law_only_stored_images_are_announced(
    st: StoreView,
    kv: Map<Seq<char>, Seq<char>>,
    data: Seq<u8>,
    bytes: Seq<u8>,
    cursor: (usize, isize),
)
    requires
        sends_data(st, kv, data, bytes),
    ensures
        ({
            let (after, step) = command_step(st, kv, data, cursor);
            &&& step == StepView::Done(KittyAction::Nothing) <==> after.next_gen == st.next_gen
            &&& step == StepView::Done(KittyAction::Nothing) ==> after == st
            &&& step == StepView::Done(KittyAction::Nothing) || step == StepView::Done(
                KittyAction::Changed,
            ) || step is Measure
        }),
{
    assert(StoreView { pending: None, ..st } == st);
}

/// Deleting an image keeps the other images as they are and the placements of
/// them in their order.
pub proof fn law_delete_keeps_the_rest(
    st: StoreView,
    kv: Map<Seq<char>, Seq<char>>,
    id: u64,
    other: u64,
)
    requires
        unsigned_of(kv, "i"@, u64::MAX as nat) == Some(id as nat),
        other != id,
        st.images.contains_key(other),
    ensures
        ({
            let after = delete_step(st, kv);
            &&& after.images.contains_key(other) && after.images[other] == st.images[other]
            &&& after.placements == st.placements.filter(|p: PlacementView| p.image_id != id)
            &&& after.pending == st.pending && after.next_gen == st.next_gen
        }),
{
}

/// Images, placements and what is to be done are seen as they are.
pub proof fn law_images_seen_as_they_are(
    image: KittyImage,
    placement: Placement,
    pixels: Pixels,
    step: KittyStep,
)
    ensures
        image@.pixels.width == image.width && image@.pixels.height == image.height,
        image@.pixels.rgba == image.rgba@,
        image@.cells_w == opt_text(image.cells_w) && image@.cells_h == opt_text(image.cells_h),
        image@.gen == image.gen,
        pixels@.width == pixels.width && pixels@.height == pixels.height && pixels@.rgba
            == pixels.rgba@,
        placement@.image_id == placement.image_id && placement@.gen == placement.gen,
        placement@.col == placement.col && placement@.row == placement.row,
        placement@.cells_w == opt_text(placement.cells_w),
        placement@.cells_h == opt_text(placement.cells_h),
        placement@.px_w == opt_text(placement.px_w) && placement@.px_h == opt_text(placement.px_h),
        placement@.z == placement.z,
        step matches KittyStep::Done(action) ==> step@ == StepView::Done(action),
        step matches KittyStep::Read(job) ==> step@ == StepView::Read(job@),
        step matches KittyStep::Measure(job) ==> step@ == StepView::Measure(job@),
        step matches KittyStep::Measure(job) ==> job@.placement == job.placement@ && job@.x
            == opt_text(job.x) && job@.y == opt_text(job.y) && job@.width == job.width
            && job@.height == job.height && job@.inline == job.inline,
{
}

/// A header is seen as it is.
pub proof fn law_header_seen_as_it_is(header: Header)
    ensures
        header@.image_id == header.image_id && header@.format == header.format,
        header@.zlib == header.zlib && header@.file == header.file,
        header@.size == header.size,
        header@.cells_w == opt_text(header.cells_w) && header@.cells_h == opt_text(header.cells_h),
        header@.px_w == opt_text(header.px_w) && header@.px_h == opt_text(header.px_h),
        header@.z == header.z,
{
}

/// A store is seen as its images, by their numbers, and its placements, in their
/// order.
proof fn law_store_seen_as_it_is(store: KittyStore, id: u64, i: int)
    ensures
        store@.images.contains_key(id) == store.images@.contains_key(id),
        store.images@.contains_key(id) ==> store@.images[id] == store.images@[id]@,
        store@.placements.len() == store.placements@.len(),
        0 <= i < store.placements@.len() ==> store@.placements[i] == store.placements@[i]@,
{
}

} // verus!
