//! Notification pictures: which raw images are accepted, the size they are
//! shown at, and their pixels repacked as tight RGBA rows.
use std::sync::Arc;
use vstd::prelude::*;

use super::state::Thumbnail;

verus! {

/// The most bytes a picture may take, raw or as a file.
pub const MAX_IMAGE_BYTES: usize = 16777216;

/// The longest side a picture may have.
pub const MAX_IMAGE_DIMENSION: i32 = 4096;

/// The most pixels a picture may have.
pub const MAX_IMAGE_AREA: usize = 16777216;

/// The box pictures are scaled down into.
pub const THUMBNAIL_SIZE: i32 = 128;

/// Whether a picture of this size is accepted at all.
pub open spec fn spec_valid_dimensions(width: int, height: int) -> bool {
    &&& 0 < width <= MAX_IMAGE_DIMENSION
    &&& 0 < height <= MAX_IMAGE_DIMENSION
    &&& width * height <= MAX_IMAGE_AREA
}

/// The size of an accepted picture, as `usize`s.
pub fn valid_dimensions(width: i32, height: i32) -> (r: Option<(usize, usize)>)
    ensures
        match r {
            Some((w, h)) => spec_valid_dimensions(width as int, height as int) && w == width
                && h == height,
            None => !spec_valid_dimensions(width as int, height as int),
        },
{
    if width <= 0 || height <= 0 || width > MAX_IMAGE_DIMENSION || height > MAX_IMAGE_DIMENSION {
        return None;
    }
    let w = width as usize;
    let h = height as usize;
    assert(w * h <= 4096 * 4096) by (nonlinear_arith)
        requires
            0 < w <= 4096,
            0 < h <= 4096,
    ;
    if w * h <= MAX_IMAGE_AREA {
        Some((w, h))
    } else {
        None
    }
}

/// The size a picture is shown at: as it is when it fits the thumbnail box,
/// else scaled down to fit with its aspect ratio, no side below one pixel.
pub open spec fn spec_target_dimensions(width: int, height: int) -> (int, int) {
    if width <= THUMBNAIL_SIZE && height <= THUMBNAIL_SIZE {
        (width, height)
    } else if width >= height {
        let h = height * THUMBNAIL_SIZE / width;
        (THUMBNAIL_SIZE as int, if h < 1 {
            1
        } else {
            h
        })
    } else {
        let w = width * THUMBNAIL_SIZE / height;
        (if w < 1 {
            1
        } else {
            w
        }, THUMBNAIL_SIZE as int)
    }
}

pub fn target_dimensions(width: i32, height: i32) -> (r: (i32, i32))
    requires
        spec_valid_dimensions(width as int, height as int),
    ensures
        (r.0 as int, r.1 as int) == spec_target_dimensions(width as int, height as int),
        0 < r.0 <= width,
        0 < r.1 <= height,
{
    if width <= THUMBNAIL_SIZE && height <= THUMBNAIL_SIZE {
        return (width, height);
    }
    if width >= height {
        assert(height * 128 <= 4096 * 128) by (nonlinear_arith)
            requires
                0 < height <= 4096,
        ;
        assert(height * 128 / (width as int) <= height) by (nonlinear_arith)
            requires
                0 < height <= width,
                width > 128,
        ;
        let h = height * THUMBNAIL_SIZE / width;
        (THUMBNAIL_SIZE, if h < 1 {
            1
        } else {
            h
        })
    } else {
        assert(width * 128 <= 4096 * 128) by (nonlinear_arith)
            requires
                0 < width <= 4096,
        ;
        assert(width * 128 / (height as int) <= width) by (nonlinear_arith)
            requires
                0 < width < height,
                height > 128,
        ;
        let w = width * THUMBNAIL_SIZE / height;
        (if w < 1 {
            1
        } else {
            w
        }, THUMBNAIL_SIZE)
    }
}

/// The bytes moved into shared storage (`Arc::from` on a `Vec`).
#[verifier::external_body]
fn shared_bytes(bytes: Vec<u8>) -> (r: Arc<[u8]>)
    ensures
        r@ == bytes@,
{
    Arc::from(bytes)
}

/// Byte `c` of pixel (`x`, `y`) of a tight RGBA copy of an image with
/// `channels` bytes per pixel and rows `stride` bytes apart: the colour
/// bytes as they are, and full opacity where the source has no alpha.
pub open spec fn rgba_byte(
    source: Seq<u8>,
    stride: int,
    channels: int,
    y: int,
    x: int,
    c: int,
) -> u8 {
    if c < 3 || channels == 4 {
        source[y * stride + x * channels + c]
    } else {
        255
    }
}

/// `bytes` hold the tight RGBA copy of `source`: rows of `4 * width` bytes.
pub open spec fn is_tight_rgba(
    bytes: Seq<u8>,
    source: Seq<u8>,
    width: int,
    height: int,
    stride: int,
    channels: int,
) -> bool {
    &&& bytes.len() == 4 * width * height
    &&& forall|y: int, x: int, c: int|
        0 <= y < height && 0 <= x < width && 0 <= c < 4 ==> #[trigger] bytes[4 * (y * width + x)
            + c] == rgba_byte(source, stride, channels, y, x, c)
}

/// Whether pixels in this layout can be read: eight bits per sample, three
/// or four channels with alpha exactly when four, rows long enough for the
/// width, and enough bytes for every row (the last one need not be padded).
pub open spec fn readable(
    width: int,
    height: int,
    bits: int,
    channels: int,
    has_alpha: bool,
    stride: int,
    len: int,
) -> bool {
    &&& spec_valid_dimensions(width, height)
    &&& bits == 8
    &&& (channels == 3 || channels == 4)
    &&& has_alpha == (channels == 4)
    &&& stride >= width * channels
    &&& len >= stride * (height - 1) + width * channels
}

proof fn lemma_pixel_in_bounds(w: int, h: int, y: int, x: int, c: int, s: int, ch: int, len: int)
    requires
        0 <= y < h,
        0 <= x < w,
        0 <= c < ch,
        s >= w * ch,
        len >= s * (h - 1) + w * ch,
    ensures
        0 <= y * s + x * ch + c < len,
        y * s <= s * (h - 1),
        x * ch + c < w * ch,
{
    assert(y * s <= s * (h - 1)) by (nonlinear_arith)
        requires
            0 <= y <= h - 1,
            s >= 0,
    ;
    assert(x * ch + c < w * ch) by (nonlinear_arith)
        requires
            0 <= x < w,
            0 <= c < ch,
    ;
    assert(y * s >= 0) by (nonlinear_arith)
        requires
            y >= 0,
            s >= 0,
    ;
    assert(x * ch >= 0) by (nonlinear_arith)
        requires
            x >= 0,
            ch >= 0,
    ;
}

proof fn lemma_pixel_order(w: int, y: int, x: int, y2: int, x2: int)
    requires
        0 <= x < w,
        0 <= x2 < w,
        y2 < y || (y2 == y && x2 < x),
        0 <= y2,
    ensures
        y2 * w + x2 < y * w + x,
{
    if y2 < y {
        assert(y2 * w + w <= y * w) by (nonlinear_arith)
            requires
                y2 < y,
                w >= 0,
        ;
    }
}

/// The pixels of an image as tight RGBA rows (four bytes per pixel, no row
/// padding), or none when its layout cannot be read.
pub fn tight_rgba(
    width: i32,
    height: i32,
    bits: i32,
    channels: i32,
    has_alpha: bool,
    rowstride: i32,
    source: &[u8],
) -> (r: Option<Thumbnail>)
    ensures
        match r {
            Some(t) => readable(
                width as int,
                height as int,
                bits as int,
                channels as int,
                has_alpha,
                rowstride as int,
                source@.len() as int,
            ) && t.width == width && t.height == height && t.rowstride == 4 * width
                && is_tight_rgba(
                t.bytes@,
                source@,
                width as int,
                height as int,
                rowstride as int,
                channels as int,
            ),
            None => !readable(
                width as int,
                height as int,
                bits as int,
                channels as int,
                has_alpha,
                rowstride as int,
                source@.len() as int,
            ),
        },
{
    let (w, h) = match valid_dimensions(width, height) {
        Some(d) => d,
        None => return None,
    };
    if bits != 8 || !(channels == 3 || channels == 4) || has_alpha != (channels == 4) {
        return None;
    }
    if rowstride < 0 {
        assert(!readable(
            width as int,
            height as int,
            bits as int,
            channels as int,
            has_alpha,
            rowstride as int,
            source@.len() as int,
        )) by {
            assert(width * channels >= 0) by (nonlinear_arith)
                requires
                    width > 0,
                    channels > 0,
            ;
        }
        return None;
    }
    let ch = channels as usize;
    let stride = rowstride as usize;
    let row = w * ch;
    assert(w * ch <= 4096 * 4) by (nonlinear_arith)
        requires
            0 < w <= 4096,
            0 < ch <= 4,
    ;
    if stride < row {
        return None;
    }
    let s64 = stride as u64;
    let h64 = (h - 1) as u64;
    assert(s64 * h64 <= 2147483647 * 4096) by (nonlinear_arith)
        requires
            0 <= s64 <= 2147483647,
            0 <= h64 < 4096,
    ;
    let needed: u64 = s64 * h64 + row as u64;
    if (source.len() as u64) < needed {
        return None;
    }
    let ghost gw = w as int;
    let ghost gh = h as int;
    let ghost gs = stride as int;
    let ghost gc = ch as int;
    let slen = source.len();
    let ghost len = source@.len() as int;
    assert(w * h * 4 <= 4096 * 4096 * 4) by (nonlinear_arith)
        requires
            0 < w <= 4096,
            0 < h <= 4096,
    ;
    let mut bytes: Vec<u8> = Vec::new();
    let mut y: usize = 0;
    let mut row_start: usize = 0;
    while y < h
        invariant
            y < h ==> row_start == y * gs,
            gw == w,
            gh == h,
            gs == stride,
            gc == ch,
            len == source@.len(),
            slen == len,
            0 < w <= 4096,
            0 < h <= 4096,
            ch == 3 || ch == 4,
            stride >= w * ch,
            len >= gs * (gh - 1) + gw * gc,
            y <= h,
            bytes@.len() == 4 * (y * w),
            forall|y2: int, x2: int, c: int|
                0 <= y2 < y && 0 <= x2 < gw && 0 <= c < 4 ==> #[trigger] bytes@[4 * (y2 * gw
                    + x2) + c] == rgba_byte(source@, gs, gc, y2, x2, c),
        decreases h - y,
    {
        let mut x: usize = 0;
        while x < w
            invariant
                row_start == y * gs,
                gw == w,
                gh == h,
                gs == stride,
                gc == ch,
                len == source@.len(),
                slen == len,
                0 < w <= 4096,
                0 < h <= 4096,
                ch == 3 || ch == 4,
                stride >= w * ch,
                len >= gs * (gh - 1) + gw * gc,
                y < h,
                x <= w,
                bytes@.len() == 4 * (y * w + x),
                forall|y2: int, x2: int, c: int|
                    0 <= y2 && 0 <= x2 < gw && 0 <= c < 4 && (y2 < y || (y2 == y && x2 < x))
                        ==> #[trigger] bytes@[4 * (y2 * gw + x2) + c] == rgba_byte(
                        source@,
                        gs,
                        gc,
                        y2,
                        x2,
                        c,
                    ),
            decreases w - x,
        {
            proof {
                lemma_pixel_in_bounds(gw, gh, y as int, x as int, gc - 1, gs, gc, len);
                assert(y * w + x < 4096 * 4096) by (nonlinear_arith)
                    requires
                        y < h <= 4096,
                        x < w <= 4096,
                ;
            }
            assert(y * stride + x * ch + (ch - 1) < source@.len());
            assert(x * ch <= 4096 * 4) by (nonlinear_arith)
                requires
                    x < w <= 4096,
                    ch <= 4,
            ;
            let base = row_start + x * ch;
            let ghost before = bytes@;
            let ghost k = 4 * (y * w + x) as int;
            bytes.push(source[base]);
            bytes.push(source[base + 1]);
            bytes.push(source[base + 2]);
            if ch == 4 {
                bytes.push(source[base + 3]);
            } else {
                bytes.push(255);
            }
            assert forall|y2: int, x2: int, c: int|
                0 <= y2 && 0 <= x2 < gw && 0 <= c < 4 && (y2 < y || (y2 == y && x2 < x + 1))
                    implies #[trigger] bytes@[4 * (y2 * gw + x2) + c] == rgba_byte(
                    source@,
                    gs,
                    gc,
                    y2,
                    x2,
                    c,
                ) by {
                if y2 == y && x2 == x {
                    assert(4 * (y2 * gw + x2) + c == k + c);
                } else {
                    lemma_pixel_order(gw, y as int, x as int, y2, x2);
                    assert(4 * (y2 * gw + x2) + c < k);
                    assert(bytes@[4 * (y2 * gw + x2) + c] == before[4 * (y2 * gw + x2) + c]);
                }
            }
            x += 1;
        }
        assert((y + 1) * w == y * w + w) by (nonlinear_arith);
        if y + 1 < h {
            assert((y + 1) * gs == y * gs + gs) by (nonlinear_arith);
            assert((y + 1) * gs <= gs * (gh - 1)) by (nonlinear_arith)
                requires
                    y + 1 <= gh - 1,
                    gs >= 0,
            ;
            row_start = row_start + stride;
        }
        y += 1;
    }
    assert(bytes@.len() == 4 * gw * gh) by (nonlinear_arith)
        requires
            bytes@.len() == 4 * (gh * gw),
    ;
    proof {
        lemma_pixel_in_bounds(gw, gh, 0, 0, 0, gs, gc, len);
    }
    let rowstride = w * 4;
    Some(Thumbnail { width, height, rowstride, bytes: shared_bytes(bytes) })
}

/// What to do with a raw picture that was accepted.
pub enum RawImage {
    /// It is shown at its own size: these are its pixels.
    Ready(Thumbnail),
    /// It must first be scaled down to the target size; the source layout
    /// and bytes are handed back for that.
    Scale {
        width: i32,
        height: i32,
        rowstride: i32,
        has_alpha: bool,
        bytes: Vec<u8>,
        target_width: i32,
        target_height: i32,
    },
}

/// Whether a raw picture from a notification hint is accepted: a valid
/// size, at most `MAX_IMAGE_BYTES`, eight bits per sample, three channels or
/// four with alpha, rows long enough for the width, and every full row there.
pub open spec fn raw_accepted(
    width: int,
    height: int,
    rowstride: int,
    has_alpha: bool,
    bits: int,
    channels: int,
    len: int,
) -> bool {
    &&& spec_valid_dimensions(width, height)
    &&& channels >= 0
    &&& rowstride >= 0
    &&& len <= MAX_IMAGE_BYTES
    &&& bits == 8
    &&& channels == (if has_alpha {
        4int
    } else {
        3int
    })
    &&& rowstride >= width * channels
    &&& rowstride * height <= len
}

/// A raw picture as a notification hint carries it: accepted or not, and
/// if so whether it is shown as it is or scaled first.
pub fn from_raw(
    width: i32,
    height: i32,
    rowstride: i32,
    has_alpha: bool,
    bits: i32,
    channels: i32,
    bytes: Vec<u8>,
) -> (r: Option<RawImage>)
    ensures
        raw_accepted(
            width as int,
            height as int,
            rowstride as int,
            has_alpha,
            bits as int,
            channels as int,
            bytes@.len() as int,
        ) <==> r is Some,
        match r {
            Some(RawImage::Ready(t)) => spec_target_dimensions(width as int, height as int) == (
                width as int,
                height as int,
            ) && t.width == width && t.height == height && t.rowstride == 4 * width
                && is_tight_rgba(
                t.bytes@,
                bytes@,
                width as int,
                height as int,
                rowstride as int,
                channels as int,
            ),
            Some(
                RawImage::Scale {
                    width: w,
                    height: h,
                    rowstride: s,
                    has_alpha: a,
                    bytes: b,
                    target_width,
                    target_height,
                },
            ) => spec_target_dimensions(width as int, height as int) == (
                target_width as int,
                target_height as int,
            ) && (target_width, target_height) != (width, height) && w == width && h == height
                && s == rowstride && a == has_alpha && b@ == bytes@,
            None => true,
        },
{
    let (w, h) = match valid_dimensions(width, height) {
        Some(d) => d,
        None => return None,
    };
    if channels < 0 || rowstride < 0 {
        return None;
    }
    let expected: i32 = if has_alpha {
        4
    } else {
        3
    };
    if bytes.len() > MAX_IMAGE_BYTES || bits != 8 || channels != expected {
        return None;
    }
    let stride = rowstride as usize;
    let ch = channels as usize;
    assert(w * ch <= 4096 * 4) by (nonlinear_arith)
        requires
            0 < w <= 4096,
            0 < ch <= 4,
    ;
    if stride < w * ch {
        return None;
    }
    assert(stride * h <= 2147483647 * 4096) by (nonlinear_arith)
        requires
            0 <= stride <= 2147483647,
            0 < h <= 4096,
    ;
    let required: u64 = (stride as u64) * (h as u64);
    if required > bytes.len() as u64 {
        return None;
    }
    assert(stride * (h - 1) + w * ch <= stride * h) by (nonlinear_arith)
        requires
            stride >= w * ch,
            h >= 1,
    ;
    let (target_width, target_height) = target_dimensions(width, height);
    if target_width == width && target_height == height {
        match tight_rgba(width, height, bits, channels, has_alpha, rowstride, bytes.as_slice()) {
            Some(t) => Some(RawImage::Ready(t)),
            None => None,
        }
    } else {
        Some(
            RawImage::Scale {
                width,
                height,
                rowstride,
                has_alpha,
                bytes,
                target_width,
                target_height,
            },
        )
    }
}

} // verus!
