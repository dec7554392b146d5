//! The bundled MatterCAD toolbar icons: which icons exist, their decoded
//! pixels, and recolouring one into the theme's colour.
//!
//! The icons are dark glyphs on a light or transparent background;
//! tinting keeps the glyph's shape as alpha (darker means more opaque)
//! and paints every pixel in the target colour.
use vstd::prelude::*;

use std::sync::Arc;

use crate::sharing::share_arc;
use crate::png_codec::{image_view, png_image, png_read_image};
use crate::thumbs::{rgba8_of, to_rgba8, PngColorType};

verus! {

/// The bundled icons.
#[derive(Clone, Copy, Debug, PartialEq, Eq, Hash, Structural)]
pub enum MatterCadIcon {
    Home,
    Cog,
    AngleRight,
    Select,
    Spin,
    Perspective,
    Bed,
    PrintArea,
    PartSelect,
    Rotate,
    Translate,
    Scale,
}

/// A decoded icon: straight-alpha RGBA8, row-major.
#[derive(Clone, Debug)]
pub struct DecodedIcon {
    pub width: u32,
    pub height: u32,
    pub rgba: Vec<u8>,
}

/// What decoding `bytes` gives: the header's size and the first frame's
/// bytes, read as 8-bit samples of the header's colour type and expanded
/// to RGBA8, when the decoder reads the image and the colour type is one
/// we expand.
pub open spec fn decoded_icon_spec(bytes: Seq<u8>) -> Option<(u32, u32, Seq<u8>)> {
    match png_image(bytes) {
        Ok((w, h, pixels, code)) => match crate::thumbs::color_of_code(code) {
            Some(color) => match rgba8_of(pixels, color) {
                Some(rgba) => Some((w, h, rgba)),
                None => None,
            },
            None => None,
        },
        Err(_) => None,
    }
}

/// Decode one bundled icon's PNG bytes; `None` when the decoder refuses
/// them or the colour type is not one we expand.
pub fn decode_icon(bytes: &[u8]) -> (r: Option<DecodedIcon>)
    ensures
        match r {
            Some(d) => decoded_icon_spec(bytes@) == Some((d.width, d.height, d.rgba@)),
            None => decoded_icon_spec(bytes@) is None,
        },
{
    match png_read_image(bytes) {
        Ok((width, height, pixels, code)) => match PngColorType::from_code(code) {
            Some(color) => match to_rgba8(pixels.as_slice(), color) {
                Some(rgba) => Some(DecodedIcon { width, height, rgba }),
                None => None,
            },
            None => None,
        },
        Err(e) => {
            assert(image_view(Err(e)) == png_image(bytes@));
            None
        },
    }
}

/// The alpha a source pixel keeps when tinted: its darkness
/// (`255 - luminance`, luminance weighted 30/59/11) scaled by its alpha.
pub open spec fn tinted_alpha(r: u8, g: u8, b: u8, a: u8) -> u8 {
    let lum = (r * 30 + g * 59 + b * 11) / 100;
    (((255 - lum) * a) / 255) as u8
}

/// The first `n` pixels of `rgba` tinted to `rgb`.
pub open spec fn tinted_prefix(rgba: Seq<u8>, rgb: [u8; 3], n: int) -> Seq<u8>
    decreases n,
{
    if n <= 0 {
        Seq::empty()
    } else {
        let k = 4 * (n - 1);
        tinted_prefix(rgba, rgb, n - 1) + seq![
            rgb[0],
            rgb[1],
            rgb[2],
            tinted_alpha(rgba[k], rgba[k + 1], rgba[k + 2], rgba[k + 3]),
        ]
    }
}

/// Every whole pixel of `rgba` tinted to `rgb`; trailing bytes that do
/// not make a whole pixel are dropped.
pub open spec fn tinted(rgba: Seq<u8>, rgb: [u8; 3]) -> Seq<u8> {
    tinted_prefix(rgba, rgb, rgba.len() as int / 4)
}

/// Recolour a decoded icon into `target_rgb`.
pub fn tinted_rgba(icon: &DecodedIcon, target_rgb: [u8; 3]) -> (out: Vec<u8>)
    ensures
        out@ == tinted(icon.rgba@, target_rgb),
{
    let src = &icon.rgba;
    let n = src.len();
    let pixels = n / 4;
    let mut out: Vec<u8> = Vec::new();
    let mut p: usize = 0;
    while p < pixels
        invariant
            n == src@.len(),
            pixels == n / 4,
            p <= pixels,
            out@ == tinted_prefix(src@, target_rgb, p as int),
        decreases pixels - p,
    {
        let k = 4 * p;
        let r = src[k] as u32;
        let g = src[k + 1] as u32;
        let b = src[k + 2] as u32;
        let a = src[k + 3] as u32;
        let lum = (r * 30 + g * 59 + b * 11) / 100;
        let mask = 255 - lum;
        proof {
            assert(mask * a <= 255 * 255) by (nonlinear_arith)
                requires
                    mask <= 255,
                    a <= 255,
            ;
            assert((mask * a) / 255 <= 255) by (nonlinear_arith)
                requires
                    mask * a <= 255 * 255,
            ;
        }
        let new_a = (mask * a) / 255;
        out.push(target_rgb[0]);
        out.push(target_rgb[1]);
        out.push(target_rgb[2]);
        out.push(new_a as u8);
        proof {
            assert(out@ =~= tinted_prefix(src@, target_rgb, p as int + 1));
        }
        p = p + 1;
    }
    out
}

/// The view of a tint-cache entry: icon, target colour, tinted pixels.
pub open spec fn tint_entry_view(e: (MatterCadIcon, [u8; 3], Arc<Vec<u8>>)) -> (MatterCadIcon, [u8; 3], Seq<u8>) {
    (e.0, e.1, e.2@)
}

/// The pixels cached for `(icon, rgb)`, if any.
pub open spec fn cached_tint(entries: Seq<(MatterCadIcon, [u8; 3], Seq<u8>)>, icon: MatterCadIcon, rgb: [u8; 3]) -> Option<Seq<u8>>
    decreases entries.len(),
{
    if entries.len() == 0 {
        None
    } else if entries.last().0 == icon && entries.last().1 == rgb {
        Some(entries.last().2)
    } else {
        cached_tint(entries.drop_last(), icon, rgb)
    }
}

/// Every tint cached for `icon` is the decoding `d` tinted to the entry's
/// colour: the cache was only ever handed `d` as `icon`'s pixels.
pub open spec fn tints_of(entries: Seq<(MatterCadIcon, [u8; 3], Seq<u8>)>, icon: MatterCadIcon, d: Seq<u8>) -> bool {
    forall|k: int| 0 <= k < entries.len() && (#[trigger] entries[k]).0 == icon ==> entries[k].2 == tinted(d, entries[k].1)
}

/// A cache handed one decoding per icon answers every pair with what
/// tinting that decoding afresh gives.
pub proof fn lemma_cached_tint_is_fresh(
    entries: Seq<(MatterCadIcon, [u8; 3], Seq<u8>)>,
    icon: MatterCadIcon,
    rgb: [u8; 3],
    d: Seq<u8>,
)
    requires
        tints_of(entries, icon, d),
    ensures
        cached_tint(entries, icon, rgb) matches Some(p) ==> p == tinted(d, rgb),
    decreases entries.len(),
{
    if entries.len() > 0 {
        let last = entries.last();
        assert(last == entries[entries.len() - 1]);
        if !(last.0 == icon && last.1 == rgb) {
            let rest = entries.drop_last();
            assert forall|k: int| 0 <= k < rest.len() && (#[trigger] rest[k]).0 == icon implies rest[k].2 == tinted(
                d,
                rest[k].1,
            ) by {
                assert(rest[k] == entries[k]);
            }
            lemma_cached_tint_is_fresh(rest, icon, rgb, d);
        }
    }
}

/// Tinted icons already produced, shared by every caller that asks for
/// the same icon in the same colour.
pub struct TintCache {
    entries: Vec<(MatterCadIcon, [u8; 3], Arc<Vec<u8>>)>,
}

impl TintCache {
    /// An empty cache.
    pub fn new() -> (c: TintCache)
        ensures
            c.entries_view() == Seq::<(MatterCadIcon, [u8; 3], Seq<u8>)>::empty(),
    {
        let c = TintCache { entries: Vec::new() };
        assert(c.entries_view() =~= Seq::<(MatterCadIcon, [u8; 3], Seq<u8>)>::empty());
        c
    }

    /// What the cache holds, oldest first.
    pub closed spec fn entries_view(&self) -> Seq<(MatterCadIcon, [u8; 3], Seq<u8>)> {
        self.entries@.map_values(|e: (MatterCadIcon, [u8; 3], Arc<Vec<u8>>)| tint_entry_view(e))
    }

    /// `icon` (decoded as `decoded`) tinted to `target_rgb`, shared: the
    /// pixels cached for the pair when there are any, else freshly
    /// tinted and remembered.
    pub fn tinted_rgba_arc(&mut self, icon: MatterCadIcon, decoded: &DecodedIcon, target_rgb: [u8; 3]) -> (r: Arc<Vec<u8>>)
        ensures
            match cached_tint(old(self).entries_view(), icon, target_rgb) {
                Some(p) => r@ == p && final(self).entries_view() == old(self).entries_view(),
                None => r@ == tinted(decoded.rgba@, target_rgb) && final(self).entries_view()
                    == old(self).entries_view().push((icon, target_rgb, r@)),
            },
            tints_of(old(self).entries_view(), icon, decoded.rgba@) ==> r@ == tinted(decoded.rgba@, target_rgb)
                && tints_of(final(self).entries_view(), icon, decoded.rgba@),
            forall|other: MatterCadIcon, d: Seq<u8>|
                other != icon && tints_of(old(self).entries_view(), other, d) ==> #[trigger] tints_of(
                    final(self).entries_view(),
                    other,
                    d,
                ),
    {
        let ghost es = self.entries_view();
        let mut i = self.entries.len();
        assert(es.take(i as int) =~= es);
        while i > 0
            invariant
                es == self.entries_view(),
                i <= es.len(),
                cached_tint(es, icon, target_rgb) == cached_tint(es.take(i as int), icon, target_rgb),
            decreases i,
        {
            let e = &self.entries[i - 1];
            proof {
                assert(es.take(i as int).drop_last() =~= es.take(i as int - 1));
                assert(es.take(i as int).last() == tint_entry_view(*e));
            }
            if e.0 == icon && e.1[0] == target_rgb[0] && e.1[1] == target_rgb[1] && e.1[2] == target_rgb[2] {
                assert(e.1 =~= target_rgb);
                proof {
                    if tints_of(es, icon, decoded.rgba@) {
                        lemma_cached_tint_is_fresh(es, icon, target_rgb, decoded.rgba@);
                    }
                }
                return share_arc(&e.2);
            }
            i = i - 1;
        }
        assert(es.take(0) =~= Seq::<(MatterCadIcon, [u8; 3], Seq<u8>)>::empty());
        let fresh = Arc::new(tinted_rgba(decoded, target_rgb));
        let ghost v0 = self.entries@;
        self.entries.push((icon, target_rgb, share_arc(&fresh)));
        assert(self.entries_view() =~= es.push((icon, target_rgb, fresh@)));
        proof {
            let n = es.push((icon, target_rgb, fresh@));
            assert forall|other: MatterCadIcon, d: Seq<u8>|
                tints_of(es, other, d) && (other == icon ==> d == decoded.rgba@) implies #[trigger] tints_of(
                n,
                other,
                d,
            ) by {
                assert forall|k: int| 0 <= k < n.len() && (#[trigger] n[k]).0 == other implies n[k].2 == tinted(
                    d,
                    n[k].1,
                ) by {
                    if k < es.len() {
                        assert(n[k] == es[k]);
                    }
                }
            }
        }
        fresh
    }
}

/// An entry of the scaled-icon cache: icon, colour, size, pixels.
pub type ScaledEntry = (MatterCadIcon, [u8; 3], u32, u32, Seq<u8>);

/// The pixels cached for `(icon, rgb, w, h)`, if any.
pub open spec fn cached_scaled(entries: Seq<ScaledEntry>, icon: MatterCadIcon, rgb: [u8; 3], w: u32, h: u32) -> Option<
    Seq<u8>,
>
    decreases entries.len(),
{
    if entries.len() == 0 {
        None
    } else if entries.last().0 == icon && entries.last().1 == rgb && entries.last().2 == w && entries.last().3 == h {
        Some(entries.last().4)
    } else {
        cached_scaled(entries.drop_last(), icon, rgb, w, h)
    }
}

/// Every entry holds pixels for exactly its size: `w` × `h` RGBA.
pub open spec fn sizes_fit(entries: Seq<ScaledEntry>) -> bool {
    forall|k: int| 0 <= k < entries.len() ==> (#[trigger] entries[k]).4.len() == entries[k].2 * entries[k].3 * 4
}

/// Every entry cached for `icon` at its own size `w` × `h` is the
/// decoding `d` tinted to the entry's colour: the cache was only ever
/// handed that decoding as `icon`'s.
pub open spec fn scales_of(entries: Seq<ScaledEntry>, icon: MatterCadIcon, w: u32, h: u32, d: Seq<u8>) -> bool {
    forall|k: int|
        0 <= k < entries.len() && (#[trigger] entries[k]).0 == icon && entries[k].2 == w && entries[k].3 == h
            ==> entries[k].4 == tinted(d, entries[k].1)
}

/// Tinting keeps every whole pixel: four bytes out per pixel in.
pub proof fn lemma_tinted_len(rgba: Seq<u8>, rgb: [u8; 3], n: int)
    requires
        0 <= n,
    ensures
        tinted_prefix(rgba, rgb, n).len() == 4 * n,
    decreases n,
{
    if n > 0 {
        lemma_tinted_len(rgba, rgb, n - 1);
    }
}

/// What the scaled cache holds for a key has the key's size, and, at the
/// icon's own size, is the decoding tinted afresh, whenever the cache was
/// kept that way.
pub proof fn lemma_cached_scaled_is_fresh(
    entries: Seq<ScaledEntry>,
    icon: MatterCadIcon,
    rgb: [u8; 3],
    w: u32,
    h: u32,
    d: Seq<u8>,
)
    ensures
        cached_scaled(entries, icon, rgb, w, h) matches Some(p) ==> {
            &&& sizes_fit(entries) ==> p.len() == w * h * 4
            &&& scales_of(entries, icon, w, h, d) ==> p == tinted(d, rgb)
        },
    decreases entries.len(),
{
    if entries.len() > 0 {
        let last = entries.last();
        assert(last == entries[entries.len() - 1]);
        if !(last.0 == icon && last.1 == rgb && last.2 == w && last.3 == h) {
            let rest = entries.drop_last();
            if sizes_fit(entries) {
                assert forall|k: int| 0 <= k < rest.len() implies (#[trigger] rest[k]).4.len() == rest[k].2
                    * rest[k].3 * 4 by {
                    assert(rest[k] == entries[k]);
                }
            }
            if scales_of(entries, icon, w, h, d) {
                assert forall|k: int|
                    0 <= k < rest.len() && (#[trigger] rest[k]).0 == icon && rest[k].2 == w && rest[k].3 == h
                        implies rest[k].4 == tinted(d, rest[k].1) by {
                    assert(rest[k] == entries[k]);
                }
            }
            lemma_cached_scaled_is_fresh(rest, icon, rgb, w, h, d);
        }
    }
}

/// Tinted icons resampled to a given size, shared per icon, colour and
/// size.
pub struct ScaledTintCache {
    entries: Vec<(MatterCadIcon, [u8; 3], u32, u32, Arc<Vec<u8>>)>,
}

impl ScaledTintCache {
    /// An empty cache.
    pub fn new() -> (c: ScaledTintCache)
        ensures
            c.entries_view() == Seq::<ScaledEntry>::empty(),
    {
        let c = ScaledTintCache { entries: Vec::new() };
        assert(c.entries_view() =~= Seq::<ScaledEntry>::empty());
        c
    }

    /// What the cache holds, oldest first.
    pub closed spec fn entries_view(&self) -> Seq<ScaledEntry> {
        self.entries@.map_values(
            |e: (MatterCadIcon, [u8; 3], u32, u32, Arc<Vec<u8>>)| (e.0, e.1, e.2, e.3, e.4@),
        )
    }

    /// `icon` (decoded as `decoded`) tinted to `target_rgb` and resampled
    /// to exactly `out_w` × `out_h`, shared: the pixels cached for that
    /// icon, colour and size when there are any, else made and
    /// remembered. An icon already at the size is the tinted pixels as
    /// they are; any other size is what `resize` (the resampling filter,
    /// given the tinted pixels, their size and the target size) makes.
    pub fn scaled_tinted_rgba_arc_to_size<F: FnOnce(&[u8], u32, u32, u32, u32) -> Vec<u8>>(
        &mut self,
        icon: MatterCadIcon,
        decoded: &DecodedIcon,
        target_rgb: [u8; 3],
        out_w: u32,
        out_h: u32,
        resize: F,
    ) -> (r: (Arc<Vec<u8>>, u32, u32))
        requires
            forall|px: &[u8]| call_requires(resize, (px, decoded.width, decoded.height, out_w, out_h)),
            forall|px: &[u8], out: Vec<u8>|
                #[trigger] call_ensures(resize, (px, decoded.width, decoded.height, out_w, out_h), out)
                    ==> out@.len() == out_w * out_h * 4,
        ensures
            r.1 == out_w && r.2 == out_h,
            sizes_fit(old(self).entries_view()) && decoded.rgba@.len() == decoded.width * decoded.height * 4
                ==> sizes_fit(final(self).entries_view()) && r.0@.len() == out_w * out_h * 4,
            scales_of(old(self).entries_view(), icon, decoded.width, decoded.height, decoded.rgba@) ==> {
                &&& scales_of(final(self).entries_view(), icon, decoded.width, decoded.height, decoded.rgba@)
                &&& decoded.width == out_w && decoded.height == out_h ==> r.0@ == tinted(decoded.rgba@, target_rgb)
            },
            forall|other: MatterCadIcon, w: u32, h: u32, d: Seq<u8>|
                other != icon && scales_of(old(self).entries_view(), other, w, h, d) ==> #[trigger] scales_of(
                    final(self).entries_view(),
                    other,
                    w,
                    h,
                    d,
                ),
            match cached_scaled(old(self).entries_view(), icon, target_rgb, out_w, out_h) {
                Some(p) => r.0@ == p && final(self).entries_view() == old(self).entries_view(),
                None => {
                    &&& final(self).entries_view() == old(self).entries_view().push(
                        (icon, target_rgb, out_w, out_h, r.0@),
                    )
                    &&& if decoded.width == out_w && decoded.height == out_h {
                        r.0@ == tinted(decoded.rgba@, target_rgb)
                    } else {
                        exists|px: &[u8], out: Vec<u8>|
                            px@ == tinted(decoded.rgba@, target_rgb) && call_ensures(
                                resize,
                                (px, decoded.width, decoded.height, out_w, out_h),
                                out,
                            ) && out@ == r.0@
                    }
                },
            },
    {
        let ghost es = self.entries_view();
        let mut i = self.entries.len();
        assert(es.take(i as int) =~= es);
        while i > 0
            invariant
                es == self.entries_view(),
                i <= es.len(),
                cached_scaled(es, icon, target_rgb, out_w, out_h) == cached_scaled(
                    es.take(i as int),
                    icon,
                    target_rgb,
                    out_w,
                    out_h,
                ),
            decreases i,
        {
            let e = &self.entries[i - 1];
            proof {
                assert(es.take(i as int).drop_last() =~= es.take(i as int - 1));
                assert(es.take(i as int).last() == (e.0, e.1, e.2, e.3, e.4@));
            }
            if e.0 == icon && e.1[0] == target_rgb[0] && e.1[1] == target_rgb[1] && e.1[2] == target_rgb[2]
                && e.2 == out_w && e.3 == out_h {
                assert(e.1 =~= target_rgb);
                proof {
                    lemma_cached_scaled_is_fresh(es, icon, target_rgb, out_w, out_h, decoded.rgba@);
                }
                return (share_arc(&e.4), out_w, out_h);
            }
            i = i - 1;
        }
        assert(es.take(0) =~= Seq::<ScaledEntry>::empty());
        let tinted_px = tinted_rgba(decoded, target_rgb);
        proof {
            lemma_tinted_len(decoded.rgba@, target_rgb, decoded.rgba@.len() as int / 4);
        }
        let pixels = if decoded.width == out_w && decoded.height == out_h {
            tinted_px
        } else {
            let out = resize(tinted_px.as_slice(), decoded.width, decoded.height, out_w, out_h);
            out
        };
        let fresh = Arc::new(pixels);
        self.entries.push((icon, target_rgb, out_w, out_h, share_arc(&fresh)));
        assert(self.entries_view() =~= es.push((icon, target_rgb, out_w, out_h, fresh@)));
        proof {
            let n = es.push((icon, target_rgb, out_w, out_h, fresh@));
            if sizes_fit(es) && decoded.rgba@.len() == decoded.width * decoded.height * 4 {
                assert(fresh@.len() == out_w * out_h * 4);
                assert forall|k: int| 0 <= k < n.len() implies (#[trigger] n[k]).4.len() == n[k].2 * n[k].3
                    * 4 by {
                    if k < es.len() {
                        assert(n[k] == es[k]);
                    }
                }
            }
            assert forall|other: MatterCadIcon, w: u32, h: u32, d: Seq<u8>|
                scales_of(es, other, w, h, d) && (other == icon ==> w == decoded.width && h == decoded.height
                    && d == decoded.rgba@) implies #[trigger] scales_of(n, other, w, h, d) by {
                assert forall|k: int|
                    0 <= k < n.len() && (#[trigger] n[k]).0 == other && n[k].2 == w && n[k].3 == h implies n[k].4
                        == tinted(d, n[k].1) by {
                    if k < es.len() {
                        assert(n[k] == es[k]);
                    }
                }
            }
        }
        (fresh, out_w, out_h)
    }
}

} // verus!
