//! Box-filter downscaling of RGBA8 images.
//!
//! Each destination pixel is the truncated mean of the source block it
//! covers — a box filter rather than point sampling, because the sources
//! are several times larger than their previews and nearest-neighbour on
//! a shaded render stair-steps visibly. Pixels are top-down, four bytes
//! each.
use vstd::prelude::*;

verus! {

/// A sub-rectangle of a source image, in pixels, origin top-left.
#[derive(Debug, Clone, Copy, PartialEq, Eq, Structural)]
pub struct CropRect {
    pub x: u32,
    pub y: u32,
    pub w: u32,
    pub h: u32,
}

/// The source span `[lo, hi)` that destination index `d` of `dst` covers
/// along an axis where the crop starts at `origin` and spans `extent`:
/// at least one source pixel, clipped to the crop's far edge.
pub open spec fn span(d: int, extent: int, dst: int, origin: int) -> (int, int) {
    let lo = origin + d * extent / dst;
    let hi0 = origin + (d + 1) * extent / dst;
    let hi1 = if hi0 >= lo + 1 { hi0 } else { lo + 1 };
    let limit = origin + extent;
    (lo, if hi1 <= limit { hi1 } else { limit })
}

/// Sum of channel `c` over pixels `x0..x1` of the row starting at byte
/// `row`.
pub open spec fn row_sum(src: Seq<u8>, row: int, x0: int, x1: int, c: int) -> int
    decreases x1 - x0,
{
    if x1 <= x0 {
        0
    } else {
        row_sum(src, row, x0, x1 - 1, c) + src[row + (x1 - 1) * 4 + c] as int
    }
}

/// Sum of channel `c` over rows `y0..y1`, columns `x0..x1`.
pub open spec fn box_sum(src: Seq<u8>, src_w: int, y0: int, y1: int, x0: int, x1: int, c: int) -> int
    decreases y1 - y0,
{
    if y1 <= y0 {
        0
    } else {
        box_sum(src, src_w, y0, y1 - 1, x0, x1, c) + row_sum(src, (y1 - 1) * src_w * 4, x0, x1, c)
    }
}

/// Number of pixels in rows `y0..y1`, columns `x0..x1`.
pub open spec fn box_count(y0: int, y1: int, x0: int, x1: int) -> int
    decreases y1 - y0,
{
    if y1 <= y0 {
        0
    } else {
        box_count(y0, y1 - 1, x0, x1) + if x1 > x0 { x1 - x0 } else { 0 }
    }
}

/// The truncated mean of channel `c` over the block (a block with no
/// pixels averages over one).
pub open spec fn box_mean(src: Seq<u8>, src_w: int, y0: int, y1: int, x0: int, x1: int, c: int) -> int {
    let n = box_count(y0, y1, x0, x1);
    box_sum(src, src_w, y0, y1, x0, x1, c) / if n == 0 { 1 } else { n }
}

/// Destination pixel `(dx, dy)`: the mean of each of its first `channels`
/// channels over the block it covers.
pub open spec fn pixel(
    src: Seq<u8>,
    src_w: int,
    crop: CropRect,
    dst_w: int,
    dst_h: int,
    channels: int,
    dx: int,
    dy: int,
) -> Seq<u8> {
    let (y0, y1) = span(dy, crop.h as int, dst_h, crop.y as int);
    let (x0, x1) = span(dx, crop.w as int, dst_w, crop.x as int);
    Seq::new(channels as nat, |c: int| box_mean(src, src_w, y0, y1, x0, x1, c) as u8)
}

/// The first `k` pixels of destination row `dy`.
pub open spec fn row_pixels(
    src: Seq<u8>,
    src_w: int,
    crop: CropRect,
    dst_w: int,
    dst_h: int,
    channels: int,
    dy: int,
    k: int,
) -> Seq<u8>
    decreases k,
{
    if k <= 0 {
        Seq::empty()
    } else {
        row_pixels(src, src_w, crop, dst_w, dst_h, channels, dy, k - 1) + pixel(
            src,
            src_w,
            crop,
            dst_w,
            dst_h,
            channels,
            k - 1,
            dy,
        )
    }
}

/// The first `m` destination rows, top first.
pub open spec fn downscaled(
    src: Seq<u8>,
    src_w: int,
    crop: CropRect,
    dst_w: int,
    dst_h: int,
    channels: int,
    m: int,
) -> Seq<u8>
    decreases m,
{
    if m <= 0 {
        Seq::empty()
    } else {
        downscaled(src, src_w, crop, dst_w, dst_h, channels, m - 1) + row_pixels(
            src,
            src_w,
            crop,
            dst_w,
            dst_h,
            channels,
            m - 1,
            dst_w,
        )
    }
}

proof fn lemma_row_pixels_len(
    src: Seq<u8>,
    src_w: int,
    crop: CropRect,
    dst_w: int,
    dst_h: int,
    channels: int,
    dy: int,
    k: int,
)
    requires
        k >= 0,
        channels >= 0,
    ensures
        row_pixels(src, src_w, crop, dst_w, dst_h, channels, dy, k).len() == k * channels,
    decreases k,
{
    if k > 0 {
        lemma_row_pixels_len(src, src_w, crop, dst_w, dst_h, channels, dy, k - 1);
        assert(pixel(src, src_w, crop, dst_w, dst_h, channels, k - 1, dy).len() == channels);
        assert(row_pixels(src, src_w, crop, dst_w, dst_h, channels, dy, k).len() == row_pixels(
            src, src_w, crop, dst_w, dst_h, channels, dy, k - 1).len() + channels);
        assert((k - 1) * channels + channels == k * channels) by (nonlinear_arith);
    } else {
        assert(k * channels == 0) by (nonlinear_arith)
            requires
                k == 0,
        ;
    }
}

/// `downscaled` holds `channels` bytes per destination pixel.
pub proof fn lemma_downscaled_len(
    src: Seq<u8>,
    src_w: int,
    crop: CropRect,
    dst_w: int,
    dst_h: int,
    channels: int,
    m: int,
)
    requires
        m >= 0,
        dst_w >= 0,
        channels >= 0,
    ensures
        downscaled(src, src_w, crop, dst_w, dst_h, channels, m).len() == m * dst_w * channels,
    decreases m,
{
    if m > 0 {
        lemma_downscaled_len(src, src_w, crop, dst_w, dst_h, channels, m - 1);
        lemma_row_pixels_len(src, src_w, crop, dst_w, dst_h, channels, m - 1, dst_w);
        assert(downscaled(src, src_w, crop, dst_w, dst_h, channels, m).len() == downscaled(
            src, src_w, crop, dst_w, dst_h, channels, m - 1).len() + dst_w * channels);
        assert((m - 1) * dst_w * channels + dst_w * channels == m * dst_w * channels)
            by (nonlinear_arith);
    } else {
        assert(m * dst_w * channels == 0) by (nonlinear_arith)
            requires
                m == 0,
        ;
    }
}

proof fn lemma_span_bounds(d: int, extent: int, dst: int, origin: int)
    requires
        0 <= d < dst,
        extent >= 0,
    ensures
        0 <= d * extent / dst <= extent,
        0 <= (d + 1) * extent / dst <= extent,
        extent > 0 ==> d * extent / dst < extent,
        extent == 0 ==> d * extent / dst == 0 && (d + 1) * extent / dst == 0,
{
    assert(0 <= d * extent <= dst * extent) by (nonlinear_arith)
        requires
            0 <= d < dst,
            extent >= 0,
    ;
    assert(0 <= (d + 1) * extent <= dst * extent) by (nonlinear_arith)
        requires
            d + 1 <= dst,
            d >= 0,
            extent >= 0,
    ;
    assert(d * extent / dst <= extent) by (nonlinear_arith)
        requires
            0 <= d * extent <= dst * extent,
            dst > 0,
    ;
    assert((d + 1) * extent / dst <= extent) by (nonlinear_arith)
        requires
            0 <= (d + 1) * extent <= dst * extent,
            dst > 0,
    ;
    assert(0 <= d * extent / dst && 0 <= (d + 1) * extent / dst) by (nonlinear_arith)
        requires
            0 <= d * extent,
            0 <= (d + 1) * extent,
            dst > 0,
    ;
    if extent > 0 {
        assert(d * extent < dst * extent) by (nonlinear_arith)
            requires
                d < dst,
                extent > 0,
        ;
        assert(d * extent / dst < extent) by (nonlinear_arith)
            requires
                0 <= d * extent < dst * extent,
                dst > 0,
        ;
    } else {
        assert(d * extent == 0 && (d + 1) * extent == 0) by (nonlinear_arith)
            requires
                extent == 0,
        ;
    }
}

/// `span` for a destination index, with the products taken in `u64`.
fn span_of(d: u32, extent: u32, dst: u32, origin: u32) -> (r: (u32, u32))
    requires
        d < dst,
        origin + extent <= u32::MAX,
        extent > 0 || origin < u32::MAX,
    ensures
        r.0 == span(d as int, extent as int, dst as int, origin as int).0,
        r.1 == span(d as int, extent as int, dst as int, origin as int).1,
        origin <= r.0 <= r.1 <= origin + extent,
        extent > 0 ==> r.0 < r.1,
{
    proof {
        lemma_span_bounds(d as int, extent as int, dst as int, origin as int);
        assert((d as int) * extent <= 0xffff_ffff_ffff_ffff) by (nonlinear_arith)
            requires
                0 <= d < dst <= 0xffff_ffff,
                0 <= extent <= 0xffff_ffff,
        ;
        assert((d as int + 1) * extent <= 0xffff_ffff_ffff_ffff) by (nonlinear_arith)
            requires
                0 <= d < dst <= 0xffff_ffff,
                0 <= extent <= 0xffff_ffff,
        ;
    }
    let lo_off = (d as u64 * extent as u64 / dst as u64) as u32;
    let lo = origin + lo_off;
    let hi_off = ((d as u64 + 1) * extent as u64 / dst as u64) as u32;
    let hi0 = origin + hi_off;
    let hi1 = if hi0 >= lo + 1 {
        hi0
    } else {
        lo + 1
    };
    let limit = origin + extent;
    let hi = if hi1 <= limit {
        hi1
    } else {
        limit
    };
    (lo, hi)
}

/// Per-channel sums and the pixel count of one source block.
fn block_sums(src: &[u8], src_w: u32, y0: u32, y1: u32, x0: u32, x1: u32) -> (r: ([u128; 4], u128))
    requires
        y0 <= y1,
        x0 <= x1 <= src_w,
        (y1 as int) * (src_w as int) * 4 <= src@.len(),
    ensures
        r.1 == box_count(y0 as int, y1 as int, x0 as int, x1 as int),
        forall|c: int| 0 <= c < 4 ==> r.0[c] == box_sum(src@, src_w as int, y0 as int, y1 as int, x0 as int, x1 as int, c),
        forall|c: int| 0 <= c < 4 ==> r.0[c] <= 255 * r.1,
{
    let src_len = src.len();
    let mut sums: [u128; 4] = [0, 0, 0, 0];
    let mut n: u128 = 0;
    let mut y: u32 = y0;
    while y < y1
        invariant
            y0 <= y <= y1,
            x0 <= x1 <= src_w,
            src_len == src@.len(),
            (y1 as int) * (src_w as int) * 4 <= src@.len(),
            n == box_count(y0 as int, y as int, x0 as int, x1 as int),
            n <= (y - y0) * 0x1_0000_0000,
            forall|c: int| 0 <= c < 4 ==> sums[c] == box_sum(src@, src_w as int, y0 as int, y as int, x0 as int, x1 as int, c),
            forall|c: int| 0 <= c < 4 ==> sums[c] <= 255 * n,
        decreases y1 - y,
    {
        proof {
            assert((y as int + 1) * (src_w as int) * 4 <= (y1 as int) * (src_w as int) * 4) by (nonlinear_arith)
                requires
                    y + 1 <= y1,
                    src_w >= 0,
            ;
            assert((y as int) * (src_w as int) * 4 + (src_w as int) * 4 == (y as int + 1) * (src_w as int) * 4)
                by (nonlinear_arith);
            assert(0 <= (y as int) * (src_w as int) <= (y as int) * (src_w as int) * 4) by (nonlinear_arith)
                requires
                    y >= 0,
                    src_w >= 0,
            ;
            assert(src_len == src@.len());
        }
        let row: usize = (y as usize) * (src_w as usize) * 4;
        let ghost n0 = n;
        let ghost s0 = sums;
        let mut x: u32 = x0;
        while x < x1
            invariant
                y0 <= y < y1,
                x0 <= x <= x1 <= src_w,
                row as int == (y as int) * (src_w as int) * 4,
                src_len == src@.len(),
                row + (src_w as int) * 4 <= src@.len(),
                n == n0 + (x - x0),
                n0 <= (y - y0) * 0x1_0000_0000,
                forall|c: int| 0 <= c < 4 ==> sums[c] == s0[c] + row_sum(src@, row as int, x0 as int, x as int, c),
                forall|c: int| 0 <= c < 4 ==> sums[c] <= 255 * n,
            decreases x1 - x,
        {
            assert((x as int) * 4 + 3 < (src_w as int) * 4);
            let i: usize = row + (x as usize) * 4;
            assert(i + 3 < src@.len());
            let ghost before = sums;
            sums[0] = sums[0] + src[i] as u128;
            sums[1] = sums[1] + src[i + 1] as u128;
            sums[2] = sums[2] + src[i + 2] as u128;
            sums[3] = sums[3] + src[i + 3] as u128;
            n = n + 1;
            x = x + 1;
            assert forall|c: int| 0 <= c < 4 implies sums[c] == s0[c] + row_sum(src@, row as int, x0 as int, x as int, c) by {
                assert(sums[c] == before[c] + src@[i + c] as int);
            }
        }
        y = y + 1;
        assert(box_count(y0 as int, y as int, x0 as int, x1 as int) == n);
        assert forall|c: int| 0 <= c < 4 implies sums[c] == box_sum(src@, src_w as int, y0 as int, y as int, x0 as int, x1 as int, c) by {
            assert(((y - 1) as int) * (src_w as int) * 4 == row as int);
        }
    }
    (sums, n)
}

/// Append the mean of the first `channels` sums.
fn push_means(out: &mut Vec<u8>, sums: [u128; 4], n: u128, channels: usize)
    requires
        channels <= 4,
        forall|c: int| 0 <= c < 4 ==> sums[c] <= 255 * n,
    ensures
        final(out)@ == old(out)@ + Seq::new(
            channels as nat,
            |c: int| (sums[c] as int / if n == 0 { 1int } else { n as int }) as u8,
        ),
{
    let d: u128 = if n == 0 {
        1
    } else {
        n
    };
    let mut c: usize = 0;
    while c < channels
        invariant
            channels <= 4,
            d == if n == 0 { 1 } else { n },
            c <= channels,
            forall|k: int| 0 <= k < 4 ==> sums[k] <= 255 * n,
            out@ == old(out)@ + Seq::new(c as nat, |k: int| (sums[k] as int / d as int) as u8),
        decreases channels - c,
    {
        let s = sums[c];
        proof {
            if n > 0 {
                assert(s / d <= 255) by (nonlinear_arith)
                    requires
                        s <= 255 * d,
                        d > 0,
                ;
            }
        }
        out.push((s / d) as u8);
        c = c + 1;
        assert(out@ =~= old(out)@ + Seq::new(c as nat, |k: int| (sums[k] as int / d as int) as u8));
    }
}

/// Box-average `crop` of `src` (RGBA8, `src_w` pixels per row) down to
/// `dst_w` × `dst_h`, keeping the first `channels` channels of each
/// pixel.
pub fn box_downscale(
    src: &[u8],
    src_w: u32,
    src_h: u32,
    crop: CropRect,
    dst_w: u32,
    dst_h: u32,
    channels: usize,
) -> (out: Vec<u8>)
    requires
        1 <= channels <= 4,
        crop.w > 0 || crop.x < u32::MAX,
        crop.h > 0 || crop.y < u32::MAX,
        crop.x + crop.w <= src_w,
        crop.y + crop.h <= src_h,
        (src_w as int) * (src_h as int) * 4 <= src@.len(),
    ensures
        out@ == downscaled(src@, src_w as int, crop, dst_w as int, dst_h as int, channels as int, dst_h as int),
{
    let mut out: Vec<u8> = Vec::new();
    let mut dy: u32 = 0;
    while dy < dst_h
        invariant
            1 <= channels <= 4,
            crop.w > 0 || crop.x < u32::MAX,
            crop.h > 0 || crop.y < u32::MAX,
            crop.x + crop.w <= src_w,
            crop.y + crop.h <= src_h,
            (src_w as int) * (src_h as int) * 4 <= src@.len(),
            dy <= dst_h,
            out@ == downscaled(src@, src_w as int, crop, dst_w as int, dst_h as int, channels as int, dy as int),
        decreases dst_h - dy,
    {
        let (y0, y1) = span_of(dy, crop.h, dst_h, crop.y);
        proof {
            assert((y1 as int) * (src_w as int) * 4 <= (src_w as int) * (src_h as int) * 4) by (nonlinear_arith)
                requires
                    y1 <= src_h,
                    src_w >= 0,
            ;
        }
        let ghost row_start = out@;
        let mut dx: u32 = 0;
        while dx < dst_w
            invariant
                1 <= channels <= 4,
                dy < dst_h,
                crop.w > 0 || crop.x < u32::MAX,
                crop.x + crop.w <= src_w,
                y0 <= y1,
                (y1 as int) * (src_w as int) * 4 <= src@.len(),
                y0 == span(dy as int, crop.h as int, dst_h as int, crop.y as int).0,
                y1 == span(dy as int, crop.h as int, dst_h as int, crop.y as int).1,
                dx <= dst_w,
                out@ == row_start + row_pixels(src@, src_w as int, crop, dst_w as int, dst_h as int, channels as int, dy as int, dx as int),
            decreases dst_w - dx,
        {
            let (x0, x1) = span_of(dx, crop.w, dst_w, crop.x);
            let (sums, n) = block_sums(src, src_w, y0, y1, x0, x1);
            let ghost before = out@;
            push_means(&mut out, sums, n, channels);
            dx = dx + 1;
            assert(Seq::new(channels as nat, |c: int| (sums[c] as int / if n == 0 { 1int } else { n as int }) as u8)
                =~= pixel(src@, src_w as int, crop, dst_w as int, dst_h as int, channels as int, (dx - 1) as int, dy as int));
            assert(out@ =~= row_start + row_pixels(src@, src_w as int, crop, dst_w as int, dst_h as int, channels as int, dy as int, dx as int));
        }
        dy = dy + 1;
        assert(out@ =~= downscaled(src@, src_w as int, crop, dst_w as int, dst_h as int, channels as int, dy as int));
    }
    out
}

} // verus!
