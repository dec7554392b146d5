//! File-browser previews: the decoded image type, what the cache reports
//! about an entry, and the defensive decoding of an embedded PNG preview
//! into a size-fitted image.
//!
//! The input arrives from whatever package the browser happened to list,
//! so a hostile or simply broken image must produce an answer, never an
//! allocation the machine cannot afford. Row order is top-down.
use vstd::prelude::*;

use std::sync::Arc;

use crate::decimal::{decimal, push_i64};
use crate::png_codec::{frame_view, header_view, png_frame, png_header, png_read_frame, png_read_header};
use crate::resample::{box_downscale, downscaled, lemma_downscaled_len, CropRect};
use crate::text::push_str_chars;

verus! {

broadcast use vstd::string::group_string_axioms;

/// Bumped whenever the decode / scaling changes, so previews cached by an
/// older build are not reused.
pub const CACHE_VERSION: u32 = 1;

/// Preview box (longest edge, in pixels) a default request asks for.
pub const DEFAULT_THUMB_SIZE: u32 = 128;

/// Refuse to decode a preview larger than this many pixels.
pub const MAX_DECODE_PIXELS: u64 = 4194304;

/// A decoded preview: straight-alpha RGBA8, top-down row order.
#[derive(Debug, Clone, PartialEq, Eq)]
pub struct ThumbnailImage {
    pub width: u32,
    pub height: u32,
    pub rgba: Vec<u8>,
}

/// The mathematical content of a [`ThumbnailImage`].
pub struct ThumbnailImageView {
    pub width: u32,
    pub height: u32,
    pub rgba: Seq<u8>,
}

impl View for ThumbnailImage {
    type V = ThumbnailImageView;

    open spec fn view(&self) -> ThumbnailImageView {
        ThumbnailImageView { width: self.width, height: self.height, rgba: self.rgba@ }
    }
}

impl ThumbnailImage {
    /// Decoded size in bytes — what a byte budget counts.
    pub fn byte_len(&self) -> (r: usize)
        ensures
            r == self.rgba@.len(),
    {
        self.rgba.len()
    }
}

/// What the cache knows about one entry right now.
#[derive(Debug, Clone, PartialEq, Eq)]
pub enum ThumbState {
    /// Nothing has been asked for this key.
    NotRequested,
    /// Queued or being read.
    Pending,
    /// A decoded preview, shared.
    Ready(Arc<ThumbnailImage>),
    /// There is legitimately no preview.
    Absent,
    /// The read itself failed; the string is the provider's message.
    Failed(String),
}

impl ThumbState {
    pub fn image(&self) -> (r: Option<&Arc<ThumbnailImage>>)
        ensures
            match self {
                ThumbState::Ready(image) => r == Some(image),
                _ => r is None,
            },
    {
        match self {
            ThumbState::Ready(image) => Some(image),
            _ => None,
        }
    }

    pub fn is_pending(&self) -> (r: bool)
        ensures
            r == (self is Pending),
    {
        match self {
            ThumbState::Pending => true,
            _ => false,
        }
    }
}

// ---------------------------------------------------------------------
// Decoding
// ---------------------------------------------------------------------

/// The eight-byte PNG signature.
pub open spec fn png_magic() -> Seq<u8> {
    seq![0x89u8, 0x50u8, 0x4eu8, 0x47u8, 0x0du8, 0x0au8, 0x1au8, 0x0au8]
}

/// `bytes` starts with the PNG signature.
pub open spec fn is_png(bytes: Seq<u8>) -> bool {
    bytes.len() >= 8 && bytes.take(8) == png_magic()
}

/// A big-endian `u32` from four bytes.
pub open spec fn be_u32(b0: u8, b1: u8, b2: u8, b3: u8) -> int {
    b0 as int * 0x100_0000 + b1 as int * 0x1_0000 + b2 as int * 0x100 + b3 as int
}

/// Width and height from the IHDR chunk right after the signature, when
/// the bytes have that shape.
pub open spec fn ihdr_dimensions(bytes: Seq<u8>) -> Option<(u32, u32)> {
    if bytes.len() < 24 || bytes.subrange(12, 16) != seq![0x49u8, 0x48u8, 0x44u8, 0x52u8] {
        None
    } else {
        Some(
            (
                be_u32(bytes[16], bytes[17], bytes[18], bytes[19]) as u32,
                be_u32(bytes[20], bytes[21], bytes[22], bytes[23]) as u32,
            ),
        )
    }
}

/// Width and height straight out of a PNG's IHDR chunk (bytes 16..24,
/// after the signature, chunk length and `IHDR` tag). `None` when the
/// bytes do not have that shape.
pub fn png_ihdr_dimensions(bytes: &[u8]) -> (r: Option<(u32, u32)>)
    ensures
        r == ihdr_dimensions(bytes@),
{
    if bytes.len() < 24 {
        return None;
    }
    if !(bytes[12] == 0x49 && bytes[13] == 0x48 && bytes[14] == 0x44 && bytes[15] == 0x52) {
        proof {
            if bytes@.subrange(12, 16) == seq![0x49u8, 0x48u8, 0x44u8, 0x52u8] {
                assert(bytes@.subrange(12, 16)[0] == bytes@[12]);
                assert(bytes@.subrange(12, 16)[1] == bytes@[13]);
                assert(bytes@.subrange(12, 16)[2] == bytes@[14]);
                assert(bytes@.subrange(12, 16)[3] == bytes@[15]);
            }
        }
        return None;
    }
    assert(bytes@.subrange(12, 16) =~= seq![0x49u8, 0x48u8, 0x44u8, 0x52u8]);
    let w = (bytes[16] as u32) * 0x100_0000 + (bytes[17] as u32) * 0x1_0000 + (bytes[18] as u32)
        * 0x100 + bytes[19] as u32;
    let h = (bytes[20] as u32) * 0x100_0000 + (bytes[21] as u32) * 0x1_0000 + (bytes[22] as u32)
        * 0x100 + bytes[23] as u32;
    Some((w, h))
}

/// The colour layouts an 8-bit PNG frame can arrive in.
#[derive(Debug, Clone, Copy, PartialEq, Eq, Structural)]
pub enum PngColorType {
    Grayscale,
    Rgb,
    Indexed,
    GrayscaleAlpha,
    Rgba,
}

/// The colour type a PNG colour-type code names.
pub open spec fn color_of_code(code: u8) -> Option<PngColorType> {
    if code == 0 {
        Some(PngColorType::Grayscale)
    } else if code == 2 {
        Some(PngColorType::Rgb)
    } else if code == 3 {
        Some(PngColorType::Indexed)
    } else if code == 4 {
        Some(PngColorType::GrayscaleAlpha)
    } else if code == 6 {
        Some(PngColorType::Rgba)
    } else {
        None
    }
}

impl PngColorType {
    /// The colour type a PNG colour-type code names.
    pub fn from_code(code: u8) -> (r: Option<PngColorType>)
        ensures
            r == color_of_code(code),
    {
        if code == 0 {
            Some(PngColorType::Grayscale)
        } else if code == 2 {
            Some(PngColorType::Rgb)
        } else if code == 3 {
            Some(PngColorType::Indexed)
        } else if code == 4 {
            Some(PngColorType::GrayscaleAlpha)
        } else if code == 6 {
            Some(PngColorType::Rgba)
        } else {
            None
        }
    }
}

/// Whole `k`-byte pixels of `p`, each expanded to RGBA8 (a trailing
/// partial pixel is dropped).
pub open spec fn expanded(p: Seq<u8>, k: int) -> Seq<u8>
    decreases p.len(),
{
    if k <= 0 || p.len() < k {
        Seq::empty()
    } else {
        let px = if k == 3 {
            seq![p[0], p[1], p[2], 255u8]
        } else if k == 2 {
            seq![p[0], p[0], p[0], p[1]]
        } else {
            seq![p[0], p[0], p[0], 255u8]
        };
        px + expanded(p.skip(k), k)
    }
}

/// A frame normalised to straight-alpha RGBA8, or `None` for a colour
/// type that cannot be normalised here.
pub open spec fn rgba8_of(pixels: Seq<u8>, color: PngColorType) -> Option<Seq<u8>> {
    match color {
        PngColorType::Rgba => Some(pixels),
        PngColorType::Rgb => Some(expanded(pixels, 3)),
        PngColorType::GrayscaleAlpha => Some(expanded(pixels, 2)),
        PngColorType::Grayscale => Some(expanded(pixels, 1)),
        PngColorType::Indexed => None,
    }
}

fn expand_to_rgba(pixels: &[u8], k: usize) -> (out: Vec<u8>)
    requires
        1 <= k <= 3,
    ensures
        out@ == expanded(pixels@, k as int),
{
    let mut out: Vec<u8> = Vec::new();
    let mut i: usize = 0;
    let n = pixels.len();
    assert(pixels@.skip(0) =~= pixels@);
    while k <= n - i
        invariant
            1 <= k <= 3,
            n == pixels@.len(),
            i <= n,
            expanded(pixels@, k as int) == out@ + expanded(pixels@.skip(i as int), k as int),
        decreases n - i,
    {
        let ghost rest = pixels@.skip(i as int);
        let ghost before = out@;
        assert(rest.skip(k as int) =~= pixels@.skip(i + k));
        assert(rest[0] == pixels@[i as int]);
        if k == 3 {
            assert(rest[1] == pixels@[i + 1] && rest[2] == pixels@[i + 2]);
            out.push(pixels[i]);
            out.push(pixels[i + 1]);
            out.push(pixels[i + 2]);
            out.push(255);
            assert(out@ =~= before + seq![rest[0], rest[1], rest[2], 255u8]);
        } else if k == 2 {
            assert(rest[1] == pixels@[i + 1]);
            out.push(pixels[i]);
            out.push(pixels[i]);
            out.push(pixels[i]);
            out.push(pixels[i + 1]);
            assert(out@ =~= before + seq![rest[0], rest[0], rest[0], rest[1]]);
        } else {
            out.push(pixels[i]);
            out.push(pixels[i]);
            out.push(pixels[i]);
            out.push(255);
            assert(out@ =~= before + seq![rest[0], rest[0], rest[0], 255u8]);
        }
        i = i + k;
    }
    assert(expanded(pixels@.skip(i as int), k as int) =~= Seq::<u8>::empty());
    assert(out@ + Seq::<u8>::empty() =~= out@);
    out
}

/// Normalise an 8-bit PNG frame to straight-alpha RGBA8. `None` for a
/// colour type the decoder's transformations should have removed
/// (indexed), which the caller reports as unsupported.
pub fn to_rgba8(pixels: &[u8], color: PngColorType) -> (r: Option<Vec<u8>>)
    ensures
        match r {
            Some(v) => rgba8_of(pixels@, color) == Some(v@),
            None => rgba8_of(pixels@, color) is None,
        },
{
    match color {
        PngColorType::Rgba => Some(vstd::slice::slice_to_vec(pixels)),
        PngColorType::Rgb => Some(expand_to_rgba(pixels, 3)),
        PngColorType::GrayscaleAlpha => Some(expand_to_rgba(pixels, 2)),
        PngColorType::Grayscale => Some(expand_to_rgba(pixels, 1)),
        PngColorType::Indexed => None,
    }
}

/// The largest size with the source's aspect whose longest edge is at most
/// `box_px` (each side floored, at least one pixel); an image already
/// inside the box is left alone.
pub open spec fn fit_within_spec(w: u32, h: u32, box_px: u32) -> (u32, u32) {
    let longest = if w >= h { w } else { h };
    if longest <= box_px {
        (w, h)
    } else {
        let sw = w * box_px / (longest as int);
        let sh = h * box_px / (longest as int);
        ((if sw >= 1 { sw } else { 1 }) as u32, (if sh >= 1 { sh } else { 1 }) as u32)
    }
}

/// Largest size with the source's aspect ratio whose longest edge is at
/// most `box_px`. Previews are never upscaled.
pub fn fit_within(w: u32, h: u32, box_px: u32) -> (r: (u32, u32))
    ensures
        r == fit_within_spec(w, h, box_px),
        w > 0 ==> 0 < r.0 <= w,
        h > 0 ==> 0 < r.1 <= h,
{
    let longest = if w >= h {
        w
    } else {
        h
    };
    if longest <= box_px {
        return (w, h);
    }
    proof {
        assert((w as int) * (box_px as int) <= 0xffff_ffff_ffff_ffff) by (nonlinear_arith)
            requires
                w <= 0xffff_ffff,
                box_px <= 0xffff_ffff,
        ;
        assert((h as int) * (box_px as int) <= 0xffff_ffff_ffff_ffff) by (nonlinear_arith)
            requires
                h <= 0xffff_ffff,
                box_px <= 0xffff_ffff,
        ;
        assert((w as int) * (box_px as int) / (longest as int) < w || w == 0) by (nonlinear_arith)
            requires
                box_px < longest,
                longest > 0,
        ;
        assert((h as int) * (box_px as int) / (longest as int) < h || h == 0) by (nonlinear_arith)
            requires
                box_px < longest,
                longest > 0,
        ;
    }
    let sw = w as u64 * box_px as u64 / longest as u64;
    let sh = h as u64 * box_px as u64 / longest as u64;
    let scaled_w = (if sw >= 1 {
        sw
    } else {
        1
    }) as u32;
    let scaled_h = (if sh >= 1 {
        sh
    } else {
        1
    }) as u32;
    (scaled_w, scaled_h)
}

/// What [`downscale_rgba`] returns: the box-filtered RGBA8 image.
pub open spec fn downscale_rgba_spec(src: Seq<u8>, src_w: u32, src_h: u32, dst_w: u32, dst_h: u32) -> Seq<u8> {
    downscaled(src, src_w as int, CropRect { x: 0, y: 0, w: src_w, h: src_h }, dst_w as int, dst_h as int, 4, dst_h as int)
}

/// Box-filter downscale of an RGBA8 buffer, alpha included.
pub fn downscale_rgba(src: &[u8], src_w: u32, src_h: u32, dst_w: u32, dst_h: u32) -> (r: Vec<u8>)
    requires
        (src_w as int) * (src_h as int) * 4 <= src@.len(),
        (dst_w as int) * (dst_h as int) * 4 <= usize::MAX,
    ensures
        r@ == downscale_rgba_spec(src@, src_w, src_h, dst_w, dst_h),
        r@.len() == (dst_w as int) * (dst_h as int) * 4,
{
    let out = box_downscale(src, src_w, src_h, CropRect { x: 0, y: 0, w: src_w, h: src_h }, dst_w, dst_h, 4);
    proof {
        lemma_downscaled_len(src@, src_w as int, CropRect { x: 0, y: 0, w: src_w, h: src_h }, dst_w as int, dst_h as int, 4, dst_h as int);
        assert((dst_h as int) * (dst_w as int) * 4 == (dst_w as int) * (dst_h as int) * 4) by (nonlinear_arith);
    }
    out
}

/// The decoder's allocation limit: four bytes per allowed pixel.
pub open spec fn decode_limit_bytes() -> usize {
    (MAX_DECODE_PIXELS * 4) as usize
}

/// `preview is implausibly large (W×H)`.
pub open spec fn too_large_message(w: u32, h: u32) -> Seq<char> {
    "preview is implausibly large ("@ + decimal(w as int) + seq!['\u{d7}'] + decimal(h as int) + seq![')']
}

/// The view of an image result.
pub open spec fn preview_view(r: Result<Option<ThumbnailImage>, String>) -> Result<Option<ThumbnailImageView>, Seq<char>> {
    match r {
        Ok(Some(i)) => Ok(Some(i@)),
        Ok(None) => Ok(None),
        Err(e) => Err(e@),
    }
}

/// The message for a colour type [`to_rgba8`] cannot normalise.
pub open spec fn unsupported_message(code: u8) -> Seq<char> {
    match color_of_code(code) {
        Some(PngColorType::Indexed) => "unsupported PNG format Indexed"@,
        _ => "unsupported PNG format "@ + decimal(code as int),
    }
}

/// What a decoded frame of `width` × `height` becomes: normalised to
/// RGBA8, checked against its declared size, and fitted into a
/// `size`-pixel box (box-downscaled when it does not already fit).
pub open spec fn preview_from_frame_spec(
    width: u32,
    height: u32,
    pixels: Seq<u8>,
    code: u8,
    size: u32,
) -> Result<Option<ThumbnailImageView>, Seq<char>> {
    let rgba = match color_of_code(code) {
        Some(c) => rgba8_of(pixels, c),
        None => None,
    };
    match rgba {
        None => Err(unsupported_message(code)),
        Some(rgba) => if rgba.len() < (width as int) * (height as int) * 4 {
            Err("preview is shorter than its declared size"@)
        } else {
            let (dst_w, dst_h) = fit_within_spec(width, height, if size >= 1 { size } else { 1 });
            let out = if dst_w == width && dst_h == height {
                rgba
            } else {
                downscale_rgba_spec(rgba, width, height, dst_w, dst_h)
            };
            Ok(Some(ThumbnailImageView { width: dst_w, height: dst_h, rgba: out }))
        },
    }
}

/// What [`decode_preview`] returns once the signature and the IHDR size
/// check have passed.
pub open spec fn decode_checked_spec(bytes: Seq<u8>, size: u32) -> Result<Option<ThumbnailImageView>, Seq<char>> {
    match png_header(bytes, decode_limit_bytes()) {
        Err(e) => Err("preview header: "@ + e),
        Ok((width, height)) => if width == 0 || height == 0 {
            Err("preview has a zero dimension"@)
        } else if (width as int) * (height as int) > MAX_DECODE_PIXELS {
            Err(too_large_message(width, height))
        } else {
            match png_frame(bytes, decode_limit_bytes()) {
                Err((true, e)) => Err("preview header: "@ + e),
                Err((false, e)) => Err("preview body: "@ + e),
                Ok((pixels, code)) => preview_from_frame_spec(width, height, pixels, code, size),
            }
        },
    }
}

/// What [`decode_preview`] returns for `bytes` at `size`.
pub open spec fn decode_preview_spec(bytes: Seq<u8>, size: u32) -> Result<Option<ThumbnailImageView>, Seq<char>> {
    if !is_png(bytes) {
        Ok(None)
    } else {
        match ihdr_dimensions(bytes) {
            Some((w, h)) => if (w as int) * (h as int) > MAX_DECODE_PIXELS {
                Err(too_large_message(w, h))
            } else {
                decode_checked_spec(bytes, size)
            },
            None => decode_checked_spec(bytes, size),
        }
    }
}

proof fn lemma_u32_product(a: u32, b: u32)
    ensures
        (a as int) * (b as int) <= 0xffff_ffff_ffff_ffff,
{
    assert((a as int) * (b as int) <= 0xffff_ffff_ffff_ffff) by (nonlinear_arith)
        requires
            a <= 0xffff_ffff,
            b <= 0xffff_ffff,
    ;
}

fn too_large(w: u32, h: u32) -> (r: String)
    ensures
        r@ == too_large_message(w, h),
{
    let mut out = String::new();
    push_str_chars(&mut out, "preview is implausibly large (");
    push_i64(&mut out, w as i64);
    out.push('\u{d7}');
    push_i64(&mut out, h as i64);
    out.push(')');
    assert(out@ =~= too_large_message(w, h));
    out
}

fn prefixed(prefix: &str, message: &String) -> (r: String)
    ensures
        r@ == prefix@ + message@,
{
    let mut out = String::new();
    push_str_chars(&mut out, prefix);
    push_str_chars(&mut out, message.as_str());
    assert(out@ =~= prefix@ + message@);
    out
}

/// Turn a decoded frame into the preview: normalise it to RGBA8, check it
/// against its declared `width` × `height`, and fit it into a `size`-pixel
/// box. `code` is the PNG colour-type code of the frame.
pub fn preview_from_frame(
    width: u32,
    height: u32,
    pixels: Vec<u8>,
    code: u8,
    size: u32,
) -> (r: Result<Option<ThumbnailImage>, String>)
    requires
        width > 0,
        height > 0,
        (width as int) * (height as int) <= MAX_DECODE_PIXELS,
    ensures
        preview_view(r) == preview_from_frame_spec(width, height, pixels@, code, size),
{
    let rgba = match PngColorType::from_code(code) {
        Some(c) => to_rgba8(pixels.as_slice(), c),
        None => None,
    };
    let rgba = match rgba {
        Some(v) => v,
        None => {
            let mut out = String::new();
            if code == 3 {
                push_str_chars(&mut out, "unsupported PNG format Indexed");
            } else {
                push_str_chars(&mut out, "unsupported PNG format ");
                push_i64(&mut out, code as i64);
            }
            return Err(out);
        },
    };
    if (rgba.len() as u64) < (width as u64) * (height as u64) * 4 {
        return Err(String::from_str("preview is shorter than its declared size"));
    }
    let box_px = if size >= 1 {
        size
    } else {
        1
    };
    let (dst_w, dst_h) = fit_within(width, height, box_px);
    let out = if dst_w == width && dst_h == height {
        rgba
    } else {
        proof {
            assert((dst_w as int) * (dst_h as int) <= (width as int) * (height as int)) by (nonlinear_arith)
                requires
                    dst_w <= width,
                    dst_h <= height,
            ;
        }
        downscale_rgba(rgba.as_slice(), width, height, dst_w, dst_h)
    };
    Ok(Some(ThumbnailImage { width: dst_w, height: dst_h, rgba: out }))
}

/// Decode an embedded preview to RGBA8 and fit it into a `size`-pixel box.
///
/// `Ok(None)` means "not an image we decode" (no PNG signature — a
/// foreign package's JPEG is an absence, not a failure). `Err` is a PNG
/// that could not be read, or one whose declared canvas exceeds
/// [`MAX_DECODE_PIXELS`] — refused from the IHDR before the decoder runs.
pub fn decode_preview(bytes: &[u8], size: u32) -> (r: Result<Option<ThumbnailImage>, String>)
    ensures
        preview_view(r) == decode_preview_spec(bytes@, size),
{
    if bytes.len() < 8 || !(bytes[0] == 0x89 && bytes[1] == 0x50 && bytes[2] == 0x4e && bytes[3] == 0x47
        && bytes[4] == 0x0d && bytes[5] == 0x0a && bytes[6] == 0x1a && bytes[7] == 0x0a) {
        proof {
            if bytes@.len() >= 8 && bytes@.take(8) == png_magic() {
                assert(bytes@.take(8)[0] == bytes@[0] && bytes@.take(8)[1] == bytes@[1]);
                assert(bytes@.take(8)[2] == bytes@[2] && bytes@.take(8)[3] == bytes@[3]);
                assert(bytes@.take(8)[4] == bytes@[4] && bytes@.take(8)[5] == bytes@[5]);
                assert(bytes@.take(8)[6] == bytes@[6] && bytes@.take(8)[7] == bytes@[7]);
            }
        }
        return Ok(None);
    }
    assert(bytes@.take(8) =~= png_magic());
    if let Some((w, h)) = png_ihdr_dimensions(bytes) {
        proof { lemma_u32_product(w, h); }
        if w as u64 * h as u64 > MAX_DECODE_PIXELS {
            return Err(too_large(w, h));
        }
    }
    let limit = (MAX_DECODE_PIXELS * 4) as usize;
    let (width, height) = match png_read_header(bytes, limit) {
        Ok(dims) => dims,
        Err(e) => return Err(prefixed("preview header: ", &e)),
    };
    if width == 0 || height == 0 {
        return Err(String::from_str("preview has a zero dimension"));
    }
    proof { lemma_u32_product(width, height); }
    if width as u64 * height as u64 > MAX_DECODE_PIXELS {
        return Err(too_large(width, height));
    }
    match png_read_frame(bytes, limit) {
        Err((true, e)) => Err(prefixed("preview header: ", &e)),
        Err((false, e)) => Err(prefixed("preview body: ", &e)),
        Ok((pixels, code)) => preview_from_frame(width, height, pixels, code, size),
    }
}

} // verus!
