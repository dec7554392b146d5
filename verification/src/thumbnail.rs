//! Project preview thumbnails: turning a captured RGBA frame into the
//! `Metadata/thumbnail.png` entry a project carries — crop to the preview
//! aspect, box-downscale, encode PNG.
//!
//! Captured frames are top-down rows (the framebuffer's and PNG's order),
//! so nothing here flips.
use vstd::prelude::*;

use crate::png_codec::{bytes_view, png_encode_rgb8, png_rgb8_encoding, png_signature};
pub use crate::resample::CropRect;
use crate::resample::{box_downscale, downscaled, lemma_downscaled_len};

verus! {

/// Preview width in pixels (4:3 with [`THUMBNAIL_HEIGHT`]).
pub const THUMBNAIL_WIDTH: u32 = 256;
/// Preview height in pixels.
pub const THUMBNAIL_HEIGHT: u32 = 192;

/// The largest centered rectangle of `src_w` × `src_h` whose aspect is
/// `aspect_w : aspect_h`, with integer (floored, at least one pixel)
/// sides; the whole source when it already matches or any argument is
/// zero.
pub open spec fn center_crop_spec(src_w: u32, src_h: u32, aspect_w: u32, aspect_h: u32) -> CropRect {
    if src_w == 0 || src_h == 0 || aspect_w == 0 || aspect_h == 0 {
        CropRect { x: 0, y: 0, w: src_w, h: src_h }
    } else if src_w * aspect_h > src_h * aspect_w {
        let w0 = src_h * aspect_w / (aspect_h as int);
        let w = if w0 >= 1 { w0 } else { 1 };
        CropRect { x: ((src_w - w) / 2) as u32, y: 0, w: w as u32, h: src_h }
    } else if src_w * aspect_h < src_h * aspect_w {
        let h0 = src_w * aspect_h / (aspect_w as int);
        let h = if h0 >= 1 { h0 } else { 1 };
        CropRect { x: 0, y: ((src_h - h) / 2) as u32, w: src_w, h: h as u32 }
    } else {
        CropRect { x: 0, y: 0, w: src_w, h: src_h }
    }
}

/// The crop of [`center_crop_spec`] applied inside `region` (offsets
/// saturate at `u32::MAX`).
pub open spec fn center_crop_within_spec(region: CropRect, aspect_w: u32, aspect_h: u32) -> CropRect {
    let inner = center_crop_spec(region.w, region.h, aspect_w, aspect_h);
    CropRect {
        x: if region.x + inner.x <= u32::MAX { (region.x + inner.x) as u32 } else { u32::MAX },
        y: if region.y + inner.y <= u32::MAX { (region.y + inner.y) as u32 } else { u32::MAX },
        w: inner.w,
        h: inner.h,
    }
}

/// The largest centered rectangle of `src_w` × `src_h` whose aspect is
/// `aspect_w : aspect_h`. A wider source loses columns from both sides, a
/// taller one rows from top and bottom; the full source is returned when
/// it already matches or any dimension is zero.
pub fn center_crop_rect(src_w: u32, src_h: u32, aspect_w: u32, aspect_h: u32) -> (r: CropRect)
    ensures
        r == center_crop_spec(src_w, src_h, aspect_w, aspect_h),
        r.x + r.w <= src_w,
        r.y + r.h <= src_h,
{
    if src_w == 0 || src_h == 0 || aspect_w == 0 || aspect_h == 0 {
        return CropRect { x: 0, y: 0, w: src_w, h: src_h };
    }
    proof {
        assert((src_w as int) * (aspect_h as int) <= 0xffff_ffff_ffff_ffff) by (nonlinear_arith)
            requires
                src_w <= 0xffff_ffff,
                aspect_h <= 0xffff_ffff,
        ;
        assert((src_h as int) * (aspect_w as int) <= 0xffff_ffff_ffff_ffff) by (nonlinear_arith)
            requires
                src_h <= 0xffff_ffff,
                aspect_w <= 0xffff_ffff,
        ;
    }
    let src_ratio = src_w as u64 * aspect_h as u64;
    let target_ratio = src_h as u64 * aspect_w as u64;
    if src_ratio > target_ratio {
        let w0 = src_h as u64 * aspect_w as u64 / aspect_h as u64;
        proof {
            assert(w0 < src_w) by (nonlinear_arith)
                requires
                    w0 == (src_h as int) * (aspect_w as int) / (aspect_h as int),
                    (src_w as int) * (aspect_h as int) > (src_h as int) * (aspect_w as int),
                    aspect_h > 0,
            ;
        }
        let w = (if w0 >= 1 { w0 } else { 1 }) as u32;
        CropRect { x: (src_w - w) / 2, y: 0, w, h: src_h }
    } else if src_ratio < target_ratio {
        let h0 = src_w as u64 * aspect_h as u64 / aspect_w as u64;
        proof {
            assert(h0 < src_h) by (nonlinear_arith)
                requires
                    h0 == (src_w as int) * (aspect_h as int) / (aspect_w as int),
                    (src_w as int) * (aspect_h as int) < (src_h as int) * (aspect_w as int),
                    aspect_w > 0,
            ;
        }
        let h = (if h0 >= 1 { h0 } else { 1 }) as u32;
        CropRect { x: 0, y: (src_h - h) / 2, w: src_w, h }
    } else {
        CropRect { x: 0, y: 0, w: src_w, h: src_h }
    }
}

/// The largest centered `aspect_w : aspect_h` rectangle inside `region`.
pub fn center_crop_within(region: CropRect, aspect_w: u32, aspect_h: u32) -> (r: CropRect)
    ensures
        r == center_crop_within_spec(region, aspect_w, aspect_h),
{
    let inner = center_crop_rect(region.w, region.h, aspect_w, aspect_h);
    CropRect {
        x: region.x.saturating_add(inner.x),
        y: region.y.saturating_add(inner.y),
        w: inner.w,
        h: inner.h,
    }
}

/// When [`downscale_rgba_to_rgb`] refuses: a zero dimension, a crop that
/// leaves the source, or a buffer too short for `src_w` × `src_h` RGBA.
pub open spec fn downscale_refused(src_len: int, src_w: u32, src_h: u32, crop: CropRect, dst_w: u32, dst_h: u32) -> bool {
    ||| src_w == 0 || src_h == 0 || dst_w == 0 || dst_h == 0 || crop.w == 0 || crop.h == 0
    ||| crop.x + crop.w > src_w || crop.y + crop.h > src_h
    ||| src_len < (src_w as int) * (src_h as int) * 4
}

/// The inputs on which [`downscale_rgba_to_rgb`]'s size arithmetic stays
/// in range: the source's byte count, computed in `u64` once the cheap
/// refusals have passed, and the output's, once the buffer check has.
pub open spec fn downscale_fits(src_len: int, src_w: u32, src_h: u32, crop: CropRect, dst_w: u32, dst_h: u32) -> bool {
    &&& !(src_w == 0 || src_h == 0 || dst_w == 0 || dst_h == 0 || crop.w == 0 || crop.h == 0)
        && crop.x + crop.w <= src_w && crop.y + crop.h <= src_h ==> (src_w as int) * (src_h as int) * 4
        <= u64::MAX
    &&& !downscale_refused(src_len, src_w, src_h, crop, dst_w, dst_h) ==> (dst_w as int) * (dst_h as int) * 3
        <= usize::MAX
}

/// What [`downscale_rgba_to_rgb`] returns.
pub open spec fn downscale_rgb_spec(src: Seq<u8>, src_w: u32, src_h: u32, crop: CropRect, dst_w: u32, dst_h: u32) -> Option<Seq<u8>> {
    if downscale_refused(src.len() as int, src_w, src_h, crop, dst_w, dst_h) {
        None
    } else {
        Some(downscaled(src, src_w as int, crop, dst_w as int, dst_h as int, 3, dst_h as int))
    }
}

/// Box-average `src` (RGBA8, `src_w` × `src_h`) inside `crop` down to
/// `dst_w` × `dst_h`, returning tightly packed RGB8 (alpha dropped).
/// `None` when the buffer is too small for the stated size, the crop
/// leaves the source, or any dimension is zero.
pub fn downscale_rgba_to_rgb(
    src: &[u8],
    src_w: u32,
    src_h: u32,
    crop: CropRect,
    dst_w: u32,
    dst_h: u32,
) -> (r: Option<Vec<u8>>)
    requires
        downscale_fits(src@.len() as int, src_w, src_h, crop, dst_w, dst_h),
    ensures
        bytes_view(r) == downscale_rgb_spec(src@, src_w, src_h, crop, dst_w, dst_h),
        r matches Some(v) ==> v@.len() == (dst_w as int) * (dst_h as int) * 3,
{
    if src_w == 0 || src_h == 0 || dst_w == 0 || dst_h == 0 || crop.w == 0 || crop.h == 0 {
        return None;
    }
    if crop.x as u64 + crop.w as u64 > src_w as u64 || crop.y as u64 + crop.h as u64 > src_h as u64 {
        return None;
    }
    let needed = src_w as u64 * src_h as u64 * 4;
    if (src.len() as u64) < needed {
        return None;
    }
    let out = box_downscale(src, src_w, src_h, crop, dst_w, dst_h, 3);
    proof {
        lemma_downscaled_len(src@, src_w as int, crop, dst_w as int, dst_h as int, 3, dst_h as int);
        assert((dst_h as int) * (dst_w as int) * 3 == (dst_w as int) * (dst_h as int) * 3) by (nonlinear_arith);
    }
    Some(out)
}

/// What the preview pipeline produces for `region` of the frame.
pub open spec fn thumbnail_region_spec(src: Seq<u8>, src_w: u32, src_h: u32, region: CropRect) -> Option<Seq<u8>> {
    let crop = center_crop_within_spec(region, THUMBNAIL_WIDTH, THUMBNAIL_HEIGHT);
    match downscale_rgb_spec(src, src_w, src_h, crop, THUMBNAIL_WIDTH, THUMBNAIL_HEIGHT) {
        Some(rgb) => png_rgb8_encoding(rgb, THUMBNAIL_WIDTH, THUMBNAIL_HEIGHT),
        None => None,
    }
}

/// Full capture → preview pipeline: center-crop the RGBA frame to 4:3,
/// downscale to [`THUMBNAIL_WIDTH`] × [`THUMBNAIL_HEIGHT`], encode PNG.
/// `None` when the frame is unusable or the encoder fails.
pub fn thumbnail_png_from_rgba(src: &[u8], src_w: u32, src_h: u32) -> (r: Option<Vec<u8>>)
    requires
        downscale_fits(
            src@.len() as int,
            src_w,
            src_h,
            center_crop_within_spec(CropRect { x: 0, y: 0, w: src_w, h: src_h }, THUMBNAIL_WIDTH, THUMBNAIL_HEIGHT),
            THUMBNAIL_WIDTH,
            THUMBNAIL_HEIGHT,
        ),
    ensures
        bytes_view(r) == thumbnail_region_spec(src@, src_w, src_h, CropRect { x: 0, y: 0, w: src_w, h: src_h }),
        r is Some <==> !downscale_refused(
            src@.len() as int,
            src_w,
            src_h,
            center_crop_within_spec(CropRect { x: 0, y: 0, w: src_w, h: src_h }, THUMBNAIL_WIDTH, THUMBNAIL_HEIGHT),
            THUMBNAIL_WIDTH,
            THUMBNAIL_HEIGHT,
        ),
{
    let whole = CropRect { x: 0, y: 0, w: src_w, h: src_h };
    thumbnail_png_from_rgba_region(src, src_w, src_h, whole)
}

/// The preview pipeline restricted to `region` (the 3-D viewport's
/// rectangle), so the preview shows the model rather than the panels
/// around it. A region that doesn't fit the frame yields `None`.
pub fn thumbnail_png_from_rgba_region(src: &[u8], src_w: u32, src_h: u32, region: CropRect) -> (r: Option<Vec<u8>>)
    requires
        downscale_fits(
            src@.len() as int,
            src_w,
            src_h,
            center_crop_within_spec(region, THUMBNAIL_WIDTH, THUMBNAIL_HEIGHT),
            THUMBNAIL_WIDTH,
            THUMBNAIL_HEIGHT,
        ),
    ensures
        bytes_view(r) == thumbnail_region_spec(src@, src_w, src_h, region),
        r is Some <==> !downscale_refused(
            src@.len() as int,
            src_w,
            src_h,
            center_crop_within_spec(region, THUMBNAIL_WIDTH, THUMBNAIL_HEIGHT),
            THUMBNAIL_WIDTH,
            THUMBNAIL_HEIGHT,
        ),
        r matches Some(b) ==> b@.take(8) == png_signature(),
{
    let crop = center_crop_within(region, THUMBNAIL_WIDTH, THUMBNAIL_HEIGHT);
    let rgb = match downscale_rgba_to_rgb(src, src_w, src_h, crop, THUMBNAIL_WIDTH, THUMBNAIL_HEIGHT) {
        Some(rgb) => rgb,
        None => return None,
    };
    encode_rgb_png(rgb.as_slice(), THUMBNAIL_WIDTH, THUMBNAIL_HEIGHT)
}

/// Encode tightly packed RGB8 as a PNG. `None` when `rgb` does not hold
/// exactly `w` × `h` pixels or a side is zero; every other buffer
/// encodes. The bound keeps the encoder's buffers within what an
/// allocation can hold.
pub fn encode_rgb_png(rgb: &[u8], w: u32, h: u32) -> (r: Option<Vec<u8>>)
    requires
        (w as int) * (h as int) * 8 <= isize::MAX,
    ensures
        rgb@.len() != (w as int) * (h as int) * 3 ==> r is None,
        r is Some <==> (w > 0 && h > 0 && rgb@.len() == (w as int) * (h as int) * 3),
        rgb@.len() == (w as int) * (h as int) * 3 ==> bytes_view(r) == png_rgb8_encoding(rgb@, w, h),
        r matches Some(b) ==> b@.take(8) == png_signature(),
{
    if rgb.len() != (w as usize) * (h as usize) * 3 {
        return None;
    }
    png_encode_rgb8(rgb, w, h)
}

// ---------------------------------------------------------------------
// Laws
// ---------------------------------------------------------------------

/// The preview crop always lies inside its source and keeps at least
/// one pixel of each non-empty dimension.
pub proof fn lemma_center_crop_inside(src_w: u32, src_h: u32, aspect_w: u32, aspect_h: u32)
    ensures
        ({
            let c = center_crop_spec(src_w, src_h, aspect_w, aspect_h);
            &&& c.x + c.w <= src_w
            &&& c.y + c.h <= src_h
            &&& src_w > 0 ==> c.w > 0
            &&& src_h > 0 ==> c.h > 0
        }),
{
    if !(src_w == 0 || src_h == 0 || aspect_w == 0 || aspect_h == 0) {
        let a = src_w * aspect_h;
        let b = src_h * aspect_w;
        if a > b {
            assert(src_h * aspect_w / (aspect_h as int) < src_w) by (nonlinear_arith)
                requires
                    (src_w as int) * (aspect_h as int) > (src_h as int) * (aspect_w as int),
                    aspect_h > 0,
            ;
        } else if a < b {
            assert(src_w * aspect_h / (aspect_w as int) < src_h) by (nonlinear_arith)
                requires
                    (src_w as int) * (aspect_h as int) < (src_h as int) * (aspect_w as int),
                    aspect_w > 0,
            ;
        }
    }
}

} // verus!
