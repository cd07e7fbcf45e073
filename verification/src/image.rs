//! Image headers: the metadata a file's first bytes give away, without decoding.
//!
//! Width, height, channel count, alpha and MIME type all sit within the first
//! few dozen bytes of the supported formats. A header that cannot be read is
//! not an error: [`parse`] answers `None` and the caller keeps what it knows.
use vstd::prelude::*;

use crate::text::{append_chars, chars_of, dec, decimal, eq_chars};

verus! {

// ---------------------------------------------------------------------------
// The metadata
// ---------------------------------------------------------------------------

/// The metadata of one image.
#[derive(Debug, Clone, PartialEq, Eq)]
pub struct ImageMeta {
    pub mime_type: String,
    pub width: u32,
    pub height: u32,
    /// Grayscale 1, grayscale with alpha 2, RGB 3, RGBA 4.
    pub channels: u8,
    pub has_alpha: bool,
}

/// The mathematical content of an [`ImageMeta`].
pub struct MetaView {
    pub mime_type: Seq<char>,
    pub width: int,
    pub height: int,
    pub channels: int,
    pub has_alpha: bool,
}

impl View for ImageMeta {
    type V = MetaView;

    open spec fn view(&self) -> MetaView {
        MetaView {
            mime_type: self.mime_type@,
            width: self.width as int,
            height: self.height as int,
            channels: self.channels as int,
            has_alpha: self.has_alpha,
        }
    }
}

pub open spec fn meta(mime_type: Seq<char>, width: int, height: int, channels: int, has_alpha: bool) -> MetaView {
    MetaView { mime_type, width, height, channels, has_alpha }
}

/// The colour mode named by the channel count (and the alpha flag where the count
/// alone does not tell).
pub open spec fn spec_color_mode(channels: int, has_alpha: bool) -> Seq<char> {
    if channels == 1 {
        "grayscale"@
    } else if channels == 2 {
        "grayscale+alpha"@
    } else if channels == 3 {
        "RGB"@
    } else if has_alpha {
        "RGBA"@
    } else {
        "RGB"@
    }
}

/// `{width}x{height} {mode}`.
pub open spec fn spec_describe(m: MetaView) -> Seq<char> {
    dec(m.width as nat) + "x"@ + dec(m.height as nat) + " "@ + spec_color_mode(m.channels, m.has_alpha)
}

impl ImageMeta {
    /// The colour mode, as the tool output names it.
    pub fn color_mode(&self) -> (s: &'static str)
        ensures
            s@ == spec_color_mode(self.channels as int, self.has_alpha),
    {
        if self.channels == 1 {
            "grayscale"
        } else if self.channels == 2 {
            "grayscale+alpha"
        } else if self.channels == 3 {
            "RGB"
        } else if self.has_alpha {
            "RGBA"
        } else {
            "RGB"
        }
    }

    /// A compact description such as `256x256 RGBA`.
    pub fn describe(&self) -> (s: String)
        ensures
            s@ == spec_describe(self@),
    {
        let mut v = decimal(self.width as u128);
        v.push('x');
        let h = decimal(self.height as u128);
        append_chars(&mut v, h.as_slice());
        v.push(' ');
        let mode = chars_of(self.color_mode());
        append_chars(&mut v, mode.as_slice());
        proof {
            reveal_strlit("x");
            reveal_strlit(" ");
        }
        assert(v@ =~= spec_describe(self@));
        crate::text::string_of(v.as_slice())
    }
}

/// The MIME type of an image format's name.
pub open spec fn spec_mime_for_format(format: Seq<char>) -> Seq<char> {
    if format == "png"@ {
        "image/png"@
    } else if format == "jpeg"@ {
        "image/jpeg"@
    } else if format == "gif"@ {
        "image/gif"@
    } else if format == "webp"@ {
        "image/webp"@
    } else if format == "bmp"@ {
        "image/bmp"@
    } else if format == "tiff"@ {
        "image/tiff"@
    } else {
        "application/octet-stream"@
    }
}

fn is_named(format: &[char], name: &str) -> (b: bool)
    ensures
        b == (format@ == name@),
{
    let n = chars_of(name);
    eq_chars(format, n.as_slice())
}

/// Maps an image format's name to its MIME type.
pub fn mime_for_format(format: &str) -> (m: &'static str)
    ensures
        m@ == spec_mime_for_format(format@),
{
    let f = chars_of(format);
    let f = f.as_slice();
    if is_named(f, "png") {
        "image/png"
    } else if is_named(f, "jpeg") {
        "image/jpeg"
    } else if is_named(f, "gif") {
        "image/gif"
    } else if is_named(f, "webp") {
        "image/webp"
    } else if is_named(f, "bmp") {
        "image/bmp"
    } else if is_named(f, "tiff") {
        "image/tiff"
    } else {
        "application/octet-stream"
    }
}

// ---------------------------------------------------------------------------
// Reading integers out of the header
// ---------------------------------------------------------------------------

pub open spec fn has_prefix(b: Seq<u8>, p: Seq<u8>) -> bool {
    p.len() <= b.len() && b.take(p.len() as int) == p
}

/// The byte at `at`, if there is one.
pub open spec fn byte_at(b: Seq<u8>, at: int) -> Option<int> {
    if 0 <= at < b.len() {
        Some(b[at] as int)
    } else {
        None
    }
}

pub open spec fn be16(b: Seq<u8>, at: int) -> Option<int> {
    if 0 <= at && at + 2 <= b.len() {
        Some(b[at] * 256 + b[at + 1])
    } else {
        None
    }
}

pub open spec fn le16(b: Seq<u8>, at: int) -> Option<int> {
    if 0 <= at && at + 2 <= b.len() {
        Some(b[at] + b[at + 1] * 256)
    } else {
        None
    }
}

pub open spec fn be32(b: Seq<u8>, at: int) -> Option<int> {
    if 0 <= at && at + 4 <= b.len() {
        Some(b[at] * 16777216 + b[at + 1] * 65536 + b[at + 2] * 256 + b[at + 3])
    } else {
        None
    }
}

pub open spec fn le32(b: Seq<u8>, at: int) -> Option<int> {
    if 0 <= at && at + 4 <= b.len() {
        Some(b[at] + b[at + 1] * 256 + b[at + 2] * 65536 + b[at + 3] * 16777216)
    } else {
        None
    }
}

fn prefix_exec(b: &[u8], p: &[u8]) -> (r: bool)
    ensures
        r == has_prefix(b@, p@),
{
    if p.len() > b.len() {
        return false;
    }
    let mut i: usize = 0;
    while i < p.len()
        invariant
            p@.len() <= b@.len(),
            i <= p@.len(),
            forall|k: int| 0 <= k < i ==> b@[k] == p@[k],
        decreases p@.len() - i,
    {
        if b[i] != p[i] {
            assert(b@.take(p@.len() as int)[i as int] != p@[i as int]);
            return false;
        }
        i = i + 1;
    }
    assert(b@.take(p@.len() as int) =~= p@);
    true
}

/// Is `[at, at + n)` inside the bytes?
fn fits(b: &[u8], at: u64, n: u64) -> (r: bool)
    requires
        n <= 4,
    ensures
        r == (at + n <= b@.len()),
{
    let len = b.len() as u64;
    len >= n && at <= len - n
}

fn byte_exec(b: &[u8], at: u64) -> (r: Option<u8>)
    ensures
        match r {
            Some(v) => byte_at(b@, at as int) == Some(v as int),
            None => byte_at(b@, at as int) is None,
        },
{
    if fits(b, at, 1) {
        Some(b[at as usize])
    } else {
        None
    }
}

fn be16_exec(b: &[u8], at: u64) -> (r: Option<u16>)
    ensures
        match r {
            Some(v) => be16(b@, at as int) == Some(v as int),
            None => be16(b@, at as int) is None,
        },
{
    if fits(b, at, 2) {
        let i = at as usize;
        Some(b[i] as u16 * 256 + b[i + 1] as u16)
    } else {
        None
    }
}

fn le16_exec(b: &[u8], at: u64) -> (r: Option<u16>)
    ensures
        match r {
            Some(v) => le16(b@, at as int) == Some(v as int),
            None => le16(b@, at as int) is None,
        },
{
    if fits(b, at, 2) {
        let i = at as usize;
        Some(b[i] as u16 + b[i + 1] as u16 * 256)
    } else {
        None
    }
}

fn be32_exec(b: &[u8], at: u64) -> (r: Option<u32>)
    ensures
        match r {
            Some(v) => be32(b@, at as int) == Some(v as int),
            None => be32(b@, at as int) is None,
        },
{
    if fits(b, at, 4) {
        let i = at as usize;
        Some(b[i] as u32 * 16777216 + b[i + 1] as u32 * 65536 + b[i + 2] as u32 * 256 + b[i + 3] as u32)
    } else {
        None
    }
}

fn le32_exec(b: &[u8], at: u64) -> (r: Option<u32>)
    ensures
        match r {
            Some(v) => le32(b@, at as int) == Some(v as int),
            None => le32(b@, at as int) is None,
        },
{
    if fits(b, at, 4) {
        let i = at as usize;
        Some(b[i] as u32 + b[i + 1] as u32 * 256 + b[i + 2] as u32 * 65536 + b[i + 3] as u32 * 16777216)
    } else {
        None
    }
}

// ---------------------------------------------------------------------------
// The formats: what the header says
// ---------------------------------------------------------------------------

pub open spec fn png_signature() -> Seq<u8> {
    seq![0x89u8, 0x50u8, 0x4Eu8, 0x47u8, 0x0Du8, 0x0Au8, 0x1Au8, 0x0Au8]
}

pub open spec fn gif87() -> Seq<u8> {
    seq![0x47u8, 0x49u8, 0x46u8, 0x38u8, 0x37u8, 0x61u8]
}

pub open spec fn gif89() -> Seq<u8> {
    seq![0x47u8, 0x49u8, 0x46u8, 0x38u8, 0x39u8, 0x61u8]
}

pub open spec fn tiff_le() -> Seq<u8> {
    seq![0x49u8, 0x49u8, 0x2Au8, 0x00u8]
}

pub open spec fn tiff_be() -> Seq<u8> {
    seq![0x4Du8, 0x4Du8, 0x00u8, 0x2Au8]
}

/// Channels and alpha of a PNG colour type (palette images count one channel).
pub open spec fn png_channels(color_type: int) -> Option<(int, bool)> {
    if color_type == 0 {
        Some((1, false))
    } else if color_type == 2 {
        Some((3, false))
    } else if color_type == 3 {
        Some((1, false))
    } else if color_type == 4 {
        Some((2, true))
    } else if color_type == 6 {
        Some((4, true))
    } else {
        None
    }
}

/// PNG: the IHDR chunk follows the signature, its length and its type.
pub open spec fn spec_parse_png(b: Seq<u8>) -> Option<MetaView> {
    match (be32(b, 16), be32(b, 20), byte_at(b, 25)) {
        (Some(w), Some(h), Some(t)) => match png_channels(t) {
            Some((c, a)) => Some(meta("image/png"@, w, h, c, a)),
            None => None,
        },
        _ => None,
    }
}

/// GIF: little-endian width and height in the screen descriptor; only `GIF89a`
/// can carry transparency.
pub open spec fn spec_parse_gif(b: Seq<u8>) -> Option<MetaView> {
    match (le16(b, 6), le16(b, 8)) {
        (Some(w), Some(h)) => Some(meta("image/gif"@, w, h, 1, has_prefix(b, gif89()))),
        _ => None,
    }
}

/// The magnitude of a 32-bit two's-complement value.
pub open spec fn abs_i32(v: int) -> int {
    if v >= 0x8000_0000 {
        0x1_0000_0000 - v
    } else {
        v
    }
}

pub open spec fn bmp_channels(depth: int) -> Option<int> {
    if depth == 32 {
        Some(4)
    } else if depth == 24 || depth == 16 {
        Some(3)
    } else if depth == 8 || depth == 4 || depth == 1 {
        Some(1)
    } else {
        None
    }
}

/// BMP: signed width and height (a negative height stores rows top-down) and the
/// bit depth.
pub open spec fn spec_parse_bmp(b: Seq<u8>) -> Option<MetaView> {
    match (le32(b, 18), le32(b, 22), le16(b, 28)) {
        (Some(w), Some(h), Some(d)) => match bmp_channels(d) {
            Some(c) => Some(meta("image/bmp"@, abs_i32(w), abs_i32(h), c, d == 32)),
            None => None,
        },
        _ => None,
    }
}

pub open spec fn rd16(b: Seq<u8>, little: bool, at: int) -> Option<int> {
    if little {
        le16(b, at)
    } else {
        be16(b, at)
    }
}

pub open spec fn rd32(b: Seq<u8>, little: bool, at: int) -> Option<int> {
    if little {
        le32(b, at)
    } else {
        be32(b, at)
    }
}

/// Walk the IFD entries `i..count` for the width (tag 256) and height (tag 257),
/// stopping once both are known; `None` when an entry cannot be read.
pub open spec fn tiff_scan(
    b: Seq<u8>,
    little: bool,
    ifd: int,
    count: int,
    i: int,
    w: Option<int>,
    h: Option<int>,
) -> Option<(Option<int>, Option<int>)>
    decreases count - i,
{
    if i >= count {
        Some((w, h))
    } else {
        let entry = ifd + 2 + i * 12;
        match (rd16(b, little, entry), rd32(b, little, entry + 8)) {
            (Some(tag), Some(v)) => {
                let w2 = if tag == 256 {
                    Some(v)
                } else {
                    w
                };
                let h2 = if tag == 257 {
                    Some(v)
                } else {
                    h
                };
                if w2 is Some && h2 is Some {
                    Some((w2, h2))
                } else {
                    tiff_scan(b, little, ifd, count, i + 1, w2, h2)
                }
            },
            _ => None,
        }
    }
}

pub open spec fn tiff_channels(v: int) -> int {
    if 1 <= v <= 4 {
        v
    } else {
        3
    }
}

/// TIFF: the first IFD's entries hold width and height; the value after the
/// entries is read as the channel count.
pub open spec fn spec_parse_tiff(b: Seq<u8>) -> Option<MetaView> {
    let little = has_prefix(b, seq![0x49u8, 0x49u8]);
    match rd32(b, little, 4) {
        None => None,
        Some(ifd) => match rd16(b, little, ifd) {
            None => None,
            Some(count) => match tiff_scan(b, little, ifd, count, 0, None, None) {
                None => None,
                Some((w, h)) => match rd16(b, little, ifd + 2 + count * 12) {
                    None => None,
                    Some(c) => match (w, h) {
                        (Some(w), Some(h)) => Some(
                            meta("image/tiff"@, w, h, tiff_channels(c), tiff_channels(c) == 2 || tiff_channels(c) == 4),
                        ),
                        _ => None,
                    },
                },
            },
        },
    }
}

/// Markers without a length: RSTn, SOI, EOI, TEM and fill bytes.
pub open spec fn standalone_marker(m: int) -> bool {
    (0xD0 <= m <= 0xD9) || m == 0x01 || m == 0xFF
}

/// SOF0..SOF15, without DHT, JPG and DAC.
pub open spec fn is_sof(m: int) -> bool {
    0xC0 <= m <= 0xCF && m != 0xC4 && m != 0xC8 && m != 0xCC
}

/// JPEG: scan the segments from `i` for a start-of-frame.
pub open spec fn jpeg_scan(b: Seq<u8>, i: int) -> Option<MetaView>
    decreases (if i < b.len() {
        b.len() - i
    } else {
        0
    }),
{
    if i < 0 || i + 3 >= b.len() {
        None
    } else if b[i] != 0xFF {
        jpeg_scan(b, i + 1)
    } else if standalone_marker(b[i + 1] as int) {
        jpeg_scan(b, i + 2)
    } else {
        let seg_len = b[i + 2] * 256 + b[i + 3];
        if seg_len < 2 {
            None
        } else if is_sof(b[i + 1] as int) {
            match (be16(b, i + 5), be16(b, i + 7), byte_at(b, i + 9)) {
                (Some(h), Some(w), Some(c)) => Some(meta("image/jpeg"@, w, h, c, false)),
                _ => None,
            }
        } else {
            jpeg_scan(b, i + 2 + seg_len)
        }
    }
}

/// The scan from `j` reads nothing before `j`: two byte strings of one
/// length that agree from `j` on scan alike from there.
proof fn lemma_jpeg_scan_reads_from(b: Seq<u8>, c: Seq<u8>, j: int)
    requires
        b.len() == c.len(),
        forall|k: int| j <= k < b.len() ==> b[k] == c[k],
    ensures
        jpeg_scan(b, j) == jpeg_scan(c, j),
    decreases (if j < b.len() {
        b.len() - j
    } else {
        0
    }),
{
    if !(j < 0 || j + 3 >= b.len()) {
        if b[j] != 0xFF {
            lemma_jpeg_scan_reads_from(b, c, j + 1);
        } else if standalone_marker(b[j + 1] as int) {
            lemma_jpeg_scan_reads_from(b, c, j + 2);
        } else {
            let seg_len = b[j + 2] * 256 + b[j + 3];
            if seg_len >= 2 && !is_sof(b[j + 1] as int) {
                lemma_jpeg_scan_reads_from(b, c, j + 2 + seg_len);
            }
        }
    }
}

/// A JPEG segment other than a start-of-frame, with a valid length, is
/// skipped whole: at a marker `FF m` (not standalone, not SOFn) with length
/// `L >= 2`, replacing any bytes of its payload `[i + 4, i + 2 + L)` changes
/// nothing the scan finds from there.
pub proof fn lemma_jpeg_segment_payload_ignored(b: Seq<u8>, c: Seq<u8>, i: int)
    requires
        0 <= i,
        i + 3 < b.len(),
        b.len() == c.len(),
        b[i] == 0xFF,
        !standalone_marker(b[i + 1] as int),
        !is_sof(b[i + 1] as int),
        b[i + 2] * 256 + b[i + 3] >= 2,
        forall|k: int|
            0 <= k < b.len() && !(i + 4 <= k < i + 2 + b[i + 2] * 256 + b[i + 3]) ==> b[k] == c[k],
    ensures
        jpeg_scan(b, i) == jpeg_scan(c, i),
{
    let seg_len = b[i + 2] * 256 + b[i + 3];
    assert(c[i] == b[i] && c[i + 1] == b[i + 1] && c[i + 2] == b[i + 2] && c[i + 3] == b[i + 3]);
    lemma_jpeg_scan_reads_from(b, c, i + 2 + seg_len);
}

/// The same for a whole JPEG file whose first segment (right after the
/// `FF D8` start) is not a start-of-frame: its payload never changes what
/// [`parse`] gives, so a thumbnail's frame header inside it is never taken
/// for the image's.
pub proof fn lemma_jpeg_first_segment_payload_ignored(b: Seq<u8>, c: Seq<u8>)
    requires
        b.len() == c.len(),
        b.len() > 5,
        b[0] == 0xFF,
        b[1] == 0xD8,
        b[2] == 0xFF,
        !standalone_marker(b[3] as int),
        !is_sof(b[3] as int),
        b[4] * 256 + b[5] >= 2,
        forall|k: int| 0 <= k < b.len() && !(6 <= k < 4 + b[4] * 256 + b[5]) ==> b[k] == c[k],
    ensures
        spec_parse(b) == spec_parse(c),
{
    assert(c[0] == b[0] && c[1] == b[1]);
    assert(png_signature()[0] == 0x89u8);
    if png_signature().len() <= b.len() {
        assert(b.take(png_signature().len() as int)[0] == b[0]);
        assert(c.take(png_signature().len() as int)[0] == c[0]);
    }
    assert(!has_prefix(b, png_signature()) && !has_prefix(c, png_signature()));
    assert(has_prefix(b, seq![0xFFu8, 0xD8u8])) by {
        assert(b.take(2) =~= seq![0xFFu8, 0xD8u8]);
    }
    assert(has_prefix(c, seq![0xFFu8, 0xD8u8])) by {
        assert(c.take(2) =~= seq![0xFFu8, 0xD8u8]);
    }
    lemma_jpeg_segment_payload_ignored(b, c, 2);
}

/// A JPEG whose first segment is a start-of-frame gets its size and channel
/// count from that frame header: height at bytes 7-8, width at 9-10
/// (big-endian), components at byte 11, counting from the file's start.
pub proof fn lemma_jpeg_frame_header_dimensions(b: Seq<u8>)
    requires
        b.len() >= 12,
        b[0] == 0xFF,
        b[1] == 0xD8,
        b[2] == 0xFF,
        is_sof(b[3] as int),
        b[4] * 256 + b[5] >= 2,
    ensures
        spec_parse(b) == Some(meta("image/jpeg"@, b[9] * 256 + b[10], b[7] * 256 + b[8], b[11] as int, false)),
{
    assert(png_signature()[0] == 0x89u8);
    if png_signature().len() <= b.len() {
        assert(b.take(png_signature().len() as int)[0] == b[0]);
    }
    assert(has_prefix(b, seq![0xFFu8, 0xD8u8])) by {
        assert(b.take(2) =~= seq![0xFFu8, 0xD8u8]);
    }
}

pub open spec fn chunk_is(b: Seq<u8>, name: Seq<u8>) -> bool {
    b.len() >= 16 && b.subrange(12, 16) == name
}

/// A 24-bit little-endian value plus one.
pub open spec fn le24_plus_one(b: Seq<u8>, at: int) -> int {
    1 + b[at] + b[at + 1] * 256 + b[at + 2] * 65536
}

/// WebP: the extended (VP8X), lossy (VP8) and lossless (VP8L) layouts.
pub open spec fn spec_parse_webp(b: Seq<u8>) -> Option<MetaView> {
    if b.len() < 16 {
        None
    } else if chunk_is(b, seq![0x56u8, 0x50u8, 0x38u8, 0x58u8]) {
        if b.len() < 30 {
            None
        } else {
            Some(meta("image/webp"@, le24_plus_one(b, 24), le24_plus_one(b, 27), 4, (b[20] / 16) % 2 == 1))
        }
    } else if chunk_is(b, seq![0x56u8, 0x50u8, 0x38u8, 0x20u8]) {
        match (le16(b, 26), le16(b, 28)) {
            (Some(w), Some(h)) => Some(meta("image/webp"@, w % 16384, h % 16384, 3, false)),
            _ => None,
        }
    } else if chunk_is(b, seq![0x56u8, 0x50u8, 0x38u8, 0x4Cu8]) {
        if b.len() <= 20 || b[20] != 0x2F {
            None
        } else {
            match le32(b, 21) {
                Some(p) => Some(meta("image/webp"@, p % 16384 + 1, (p / 16384) % 16384 + 1, 4, true)),
                None => None,
            }
        }
    } else {
        None
    }
}

pub open spec fn is_webp(b: Seq<u8>) -> bool {
    b.len() >= 12 && b.subrange(0, 4) == seq![0x52u8, 0x49u8, 0x46u8, 0x46u8] && b.subrange(8, 12)
        == seq![0x57u8, 0x45u8, 0x42u8, 0x50u8]
}

/// What [`parse`] returns: the format is told by the signature.
pub open spec fn spec_parse(b: Seq<u8>) -> Option<MetaView> {
    if has_prefix(b, png_signature()) {
        spec_parse_png(b)
    } else if has_prefix(b, seq![0xFFu8, 0xD8u8]) {
        jpeg_scan(b, 2)
    } else if has_prefix(b, gif87()) || has_prefix(b, gif89()) {
        spec_parse_gif(b)
    } else if is_webp(b) {
        spec_parse_webp(b)
    } else if has_prefix(b, seq![0x42u8, 0x4Du8]) {
        spec_parse_bmp(b)
    } else if has_prefix(b, tiff_le()) || has_prefix(b, tiff_be()) {
        spec_parse_tiff(b)
    } else {
        None
    }
}

pub open spec fn opt_meta_view(o: Option<ImageMeta>) -> Option<MetaView> {
    match o {
        Some(m) => Some(m@),
        None => None,
    }
}

// ---------------------------------------------------------------------------
// The formats: reading the header
// ---------------------------------------------------------------------------

fn parse_png(b: &[u8]) -> (r: Option<ImageMeta>)
    ensures
        opt_meta_view(r) == spec_parse_png(b@),
{
    let width = match be32_exec(b, 16) {
        Some(v) => v,
        None => {
            return None;
        },
    };
    let height = match be32_exec(b, 20) {
        Some(v) => v,
        None => {
            return None;
        },
    };
    let color_type = match byte_exec(b, 25) {
        Some(v) => v,
        None => {
            return None;
        },
    };
    let (channels, has_alpha): (u8, bool) = if color_type == 0 {
        (1, false)
    } else if color_type == 2 {
        (3, false)
    } else if color_type == 3 {
        (1, false)
    } else if color_type == 4 {
        (2, true)
    } else if color_type == 6 {
        (4, true)
    } else {
        return None;
    };
    Some(ImageMeta { mime_type: String::from_str("image/png"), width, height, channels, has_alpha })
}

fn parse_gif(b: &[u8]) -> (r: Option<ImageMeta>)
    ensures
        opt_meta_view(r) == spec_parse_gif(b@),
{
    let width = match le16_exec(b, 6) {
        Some(v) => v as u32,
        None => {
            return None;
        },
    };
    let height = match le16_exec(b, 8) {
        Some(v) => v as u32,
        None => {
            return None;
        },
    };
    let sig = [0x47u8, 0x49u8, 0x46u8, 0x38u8, 0x39u8, 0x61u8];
    assert(sig@ =~= gif89());
    let has_alpha = prefix_exec(b, &sig);
    Some(ImageMeta { mime_type: String::from_str("image/gif"), width, height, channels: 1, has_alpha })
}

fn abs_i32_exec(v: u32) -> (r: u32)
    ensures
        r as int == abs_i32(v as int),
{
    if v >= 0x8000_0000 {
        (u32::MAX - v) + 1
    } else {
        v
    }
}

fn parse_bmp(b: &[u8]) -> (r: Option<ImageMeta>)
    ensures
        opt_meta_view(r) == spec_parse_bmp(b@),
{
    let width = match le32_exec(b, 18) {
        Some(v) => v,
        None => {
            return None;
        },
    };
    let height = match le32_exec(b, 22) {
        Some(v) => v,
        None => {
            return None;
        },
    };
    let depth = match le16_exec(b, 28) {
        Some(v) => v,
        None => {
            return None;
        },
    };
    let channels: u8 = if depth == 32 {
        4
    } else if depth == 24 || depth == 16 {
        3
    } else if depth == 8 || depth == 4 || depth == 1 {
        1
    } else {
        return None;
    };
    Some(
        ImageMeta {
            mime_type: String::from_str("image/bmp"),
            width: abs_i32_exec(width),
            height: abs_i32_exec(height),
            channels,
            has_alpha: depth == 32,
        },
    )
}

fn rd16_exec(b: &[u8], little: bool, at: u64) -> (r: Option<u16>)
    ensures
        match r {
            Some(v) => rd16(b@, little, at as int) == Some(v as int),
            None => rd16(b@, little, at as int) is None,
        },
{
    if little {
        le16_exec(b, at)
    } else {
        be16_exec(b, at)
    }
}

fn rd32_exec(b: &[u8], little: bool, at: u64) -> (r: Option<u32>)
    ensures
        match r {
            Some(v) => rd32(b@, little, at as int) == Some(v as int),
            None => rd32(b@, little, at as int) is None,
        },
{
    if little {
        le32_exec(b, at)
    } else {
        be32_exec(b, at)
    }
}

pub open spec fn opt_int(o: Option<u32>) -> Option<int> {
    match o {
        Some(v) => Some(v as int),
        None => None,
    }
}

fn parse_tiff(b: &[u8]) -> (r: Option<ImageMeta>)
    ensures
        opt_meta_view(r) == spec_parse_tiff(b@),
{
    let ii = [0x49u8, 0x49u8];
    assert(ii@ =~= seq![0x49u8, 0x49u8]);
    let little = prefix_exec(b, &ii);
    let ifd = match rd32_exec(b, little, 4) {
        Some(v) => v as u64,
        None => {
            return None;
        },
    };
    let count = match rd16_exec(b, little, ifd) {
        Some(v) => v as u64,
        None => {
            return None;
        },
    };
    let ghost goal = tiff_scan(b@, little, ifd as int, count as int, 0, None, None);
    let mut width: Option<u32> = None;
    let mut height: Option<u32> = None;
    let mut i: u64 = 0;
    while i < count
        invariant_except_break
            goal == tiff_scan(b@, little, ifd as int, count as int, i as int, opt_int(width), opt_int(height)),
        invariant
            i <= count,
            count < 65536,
            ifd < 0x1_0000_0000,
            goal is None ==> spec_parse_tiff(b@) is None,
        ensures
            goal == Some((opt_int(width), opt_int(height))),
        decreases count - i,
    {
        let entry = ifd + 2 + i * 12;
        let tag = match rd16_exec(b, little, entry) {
            Some(v) => v,
            None => {
                return None;
            },
        };
        let value = match rd32_exec(b, little, entry + 8) {
            Some(v) => v,
            None => {
                return None;
            },
        };
        if tag == 0x0100 {
            width = Some(value);
        }
        if tag == 0x0101 {
            height = Some(value);
        }
        if width.is_some() && height.is_some() {
            break;
        }
        i = i + 1;
    }
    let c = match rd16_exec(b, little, ifd + 2 + count * 12) {
        Some(v) => v,
        None => {
            return None;
        },
    };
    let channels: u8 = if 1 <= c && c <= 4 {
        c as u8
    } else {
        3
    };
    match (width, height) {
        (Some(w), Some(h)) => Some(
            ImageMeta {
                mime_type: String::from_str("image/tiff"),
                width: w,
                height: h,
                channels,
                has_alpha: channels == 2 || channels == 4,
            },
        ),
        _ => None,
    }
}

fn parse_jpeg(b: &[u8]) -> (r: Option<ImageMeta>)
    ensures
        opt_meta_view(r) == jpeg_scan(b@, 2),
{
    let len = b.len();
    let mut i: usize = 2;
    while i < len && len - i > 3
        invariant
            len == b@.len(),
            i >= 2,
            jpeg_scan(b@, 2) == jpeg_scan(b@, i as int),
        decreases len - i,
    {
        if b[i] != 0xFF {
            i = i + 1;
        } else {
            let marker = b[i + 1];
            if (0xD0 <= marker && marker <= 0xD9) || marker == 0x01 || marker == 0xFF {
                i = i + 2;
            } else {
                let seg_len = b[i + 2] as usize * 256 + b[i + 3] as usize;
                if seg_len < 2 {
                    return None;
                }
                if 0xC0 <= marker && marker <= 0xCF && marker != 0xC4 && marker != 0xC8 && marker != 0xCC {
                    if len - i < 10 {
                        return None;
                    }
                    let height = b[i + 5] as u32 * 256 + b[i + 6] as u32;
                    let width = b[i + 7] as u32 * 256 + b[i + 8] as u32;
                    let channels = b[i + 9];
                    return Some(
                        ImageMeta {
                            mime_type: String::from_str("image/jpeg"),
                            width,
                            height,
                            channels,
                            has_alpha: false,
                        },
                    );
                }
                if seg_len > len - i - 2 {
                    assert(jpeg_scan(b@, i + 2 + seg_len) is None);
                    return None;
                }
                i = i + 2 + seg_len;
            }
        }
    }
    None
}

fn parse_webp(b: &[u8]) -> (r: Option<ImageMeta>)
    ensures
        opt_meta_view(r) == spec_parse_webp(b@),
{
    let len = b.len();
    if len < 16 {
        return None;
    }
    let chunk = &b[12..16];
    assert(chunk@ == b@.subrange(12, 16));
    let vp8x = [0x56u8, 0x50u8, 0x38u8, 0x58u8];
    let vp8 = [0x56u8, 0x50u8, 0x38u8, 0x20u8];
    let vp8l = [0x56u8, 0x50u8, 0x38u8, 0x4Cu8];
    assert(vp8x@ =~= seq![0x56u8, 0x50u8, 0x38u8, 0x58u8]);
    assert(vp8@ =~= seq![0x56u8, 0x50u8, 0x38u8, 0x20u8]);
    assert(vp8l@ =~= seq![0x56u8, 0x50u8, 0x38u8, 0x4Cu8]);
    if prefix_exec(chunk, &vp8x) {
        assert(chunk@.take(4) =~= chunk@);
        if len < 30 {
            return None;
        }
        let flags = b[20];
        let width = 1 + b[24] as u32 + b[25] as u32 * 256 + b[26] as u32 * 65536;
        let height = 1 + b[27] as u32 + b[28] as u32 * 256 + b[29] as u32 * 65536;
        return Some(
            ImageMeta {
                mime_type: String::from_str("image/webp"),
                width,
                height,
                channels: 4,
                has_alpha: (flags / 16) % 2 == 1,
            },
        );
    }
    assert(chunk@.take(4) =~= chunk@);
    if prefix_exec(chunk, &vp8) {
        let w = match le16_exec(b, 26) {
            Some(v) => v as u32 % 16384,
            None => {
                return None;
            },
        };
        let h = match le16_exec(b, 28) {
            Some(v) => v as u32 % 16384,
            None => {
                return None;
            },
        };
        return Some(
            ImageMeta { mime_type: String::from_str("image/webp"), width: w, height: h, channels: 3, has_alpha: false },
        );
    }
    if prefix_exec(chunk, &vp8l) {
        if len <= 20 || b[20] != 0x2F {
            return None;
        }
        let packed = match le32_exec(b, 21) {
            Some(v) => v,
            None => {
                return None;
            },
        };
        return Some(
            ImageMeta {
                mime_type: String::from_str("image/webp"),
                width: packed % 16384 + 1,
                height: (packed / 16384) % 16384 + 1,
                channels: 4,
                has_alpha: true,
            },
        );
    }
    None
}

/// Reads an image's metadata from its header; `None` when the format is not
/// supported or the header is cut short or damaged.
pub fn parse(bytes: &[u8]) -> (r: Option<ImageMeta>)
    ensures
        opt_meta_view(r) == spec_parse(bytes@),
{
    let png = [0x89u8, 0x50u8, 0x4Eu8, 0x47u8, 0x0Du8, 0x0Au8, 0x1Au8, 0x0Au8];
    let soi = [0xFFu8, 0xD8u8];
    let g87 = [0x47u8, 0x49u8, 0x46u8, 0x38u8, 0x37u8, 0x61u8];
    let g89 = [0x47u8, 0x49u8, 0x46u8, 0x38u8, 0x39u8, 0x61u8];
    let bm = [0x42u8, 0x4Du8];
    let tl = [0x49u8, 0x49u8, 0x2Au8, 0x00u8];
    let tb = [0x4Du8, 0x4Du8, 0x00u8, 0x2Au8];
    let riff = [0x52u8, 0x49u8, 0x46u8, 0x46u8];
    let webp = [0x57u8, 0x45u8, 0x42u8, 0x50u8];
    assert(png@ =~= png_signature());
    assert(soi@ =~= seq![0xFFu8, 0xD8u8]);
    assert(g87@ =~= gif87());
    assert(g89@ =~= gif89());
    assert(bm@ =~= seq![0x42u8, 0x4Du8]);
    assert(tl@ =~= tiff_le());
    assert(tb@ =~= tiff_be());
    assert(riff@ =~= seq![0x52u8, 0x49u8, 0x46u8, 0x46u8]);
    assert(webp@ =~= seq![0x57u8, 0x45u8, 0x42u8, 0x50u8]);
    let is_w = bytes.len() >= 12 && prefix_exec(bytes, &riff) && prefix_exec(&bytes[8..12], &webp);
    assert(is_w == is_webp(bytes@)) by {
        if bytes@.len() >= 12 {
            assert(bytes@.take(4) =~= bytes@.subrange(0, 4));
            assert(bytes@.subrange(8, 12).take(4) =~= bytes@.subrange(8, 12));
        }
    }
    if prefix_exec(bytes, &png) {
        parse_png(bytes)
    } else if prefix_exec(bytes, &soi) {
        parse_jpeg(bytes)
    } else if prefix_exec(bytes, &g87) || prefix_exec(bytes, &g89) {
        parse_gif(bytes)
    } else if is_w {
        parse_webp(bytes)
    } else if prefix_exec(bytes, &bm) {
        parse_bmp(bytes)
    } else if prefix_exec(bytes, &tl) || prefix_exec(bytes, &tb) {
        parse_tiff(bytes)
    } else {
        None
    }
}

} // verus!
