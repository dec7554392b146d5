//! The bundled icon PNGs are not part of this tree, so the decoder is
//! exercised on stand-ins of the same kind: small RGB PNGs.

use std::sync::Arc;

use atomartist_ui::mattercad_icons::{
    decode_icon, tinted_rgba, DecodedIcon, MatterCadIcon, ScaledTintCache, TintCache,
};
use atomartist_ui::thumbnail::encode_rgb_png;

fn stand_in(w: u32, h: u32, gray: u8) -> Vec<u8> {
    encode_rgb_png(&vec![gray; (w * h * 3) as usize], w, h).expect("encode stand-in icon")
}

#[test]
fn all_icons_decode_to_nonempty_buffers() {
    for (i, icon) in [
        MatterCadIcon::Home,
        MatterCadIcon::Cog,
        MatterCadIcon::AngleRight,
        MatterCadIcon::Select,
        MatterCadIcon::Spin,
        MatterCadIcon::Perspective,
        MatterCadIcon::Bed,
        MatterCadIcon::PrintArea,
        MatterCadIcon::PartSelect,
        MatterCadIcon::Rotate,
        MatterCadIcon::Translate,
        MatterCadIcon::Scale,
    ]
    .into_iter()
    .enumerate()
    {
        let side = 12 + i as u32;
        let d = decode_icon(&stand_in(side, 16, 0x20)).expect("stand-in decodes");
        assert!(d.width > 0 && d.height > 0, "icon {:?} has 0 dims", icon);
        assert_eq!(d.rgba.len() as u32, d.width * d.height * 4, "icon {:?} byte count wrong", icon);
        assert_eq!(d.rgba[3], 255, "RGB expands to opaque RGBA");
    }
}

#[test]
fn decoding_garbage_gives_nothing() {
    assert!(decode_icon(b"not a png").is_none());
}

#[test]
fn tinted_rgba_uses_target_color() {
    let d = decode_icon(&stand_in(16, 16, 0x40)).expect("stand-in decodes");
    let buf = tinted_rgba(&d, [200, 50, 25]);
    assert!(buf.chunks_exact(4).any(|p| p[0] == 200 && p[1] == 50 && p[2] == 25 && p[3] > 0));
}

#[test]
fn tinting_turns_darkness_into_alpha() {
    let icon = DecodedIcon {
        width: 3,
        height: 1,
        rgba: vec![0, 0, 0, 255, 255, 255, 255, 255, 100, 100, 100, 128, 9],
    };
    let out = tinted_rgba(&icon, [1, 2, 3]);
    // Black stays opaque, white vanishes, grey 100 at half alpha keeps
    // (155 * 128) / 255 = 77; the trailing partial pixel is dropped.
    assert_eq!(out, vec![1, 2, 3, 255, 1, 2, 3, 0, 1, 2, 3, 77]);
}

#[test]
fn tinted_rgba_arc_is_pointer_stable() {
    let d = decode_icon(&stand_in(16, 16, 0x40)).expect("stand-in decodes");
    let mut cache = TintCache::new();
    let a = cache.tinted_rgba_arc(MatterCadIcon::Home, &d, [1, 2, 3]);
    let b = cache.tinted_rgba_arc(MatterCadIcon::Home, &d, [1, 2, 3]);
    assert!(Arc::ptr_eq(&a, &b));
    let c = cache.tinted_rgba_arc(MatterCadIcon::Home, &d, [1, 2, 4]);
    assert!(!Arc::ptr_eq(&a, &c));
    assert_eq!(a.len(), c.len());
}

/// A nearest-neighbour stand-in for the shell's resampling filter.
fn nearest(src: &[u8], sw: u32, sh: u32, dw: u32, dh: u32) -> Vec<u8> {
    let mut out = Vec::with_capacity((dw * dh * 4) as usize);
    for y in 0..dh {
        for x in 0..dw {
            let sx = (x * sw / dw) as usize;
            let sy = (y * sh / dh) as usize;
            let i = (sy * sw as usize + sx) * 4;
            out.extend_from_slice(&src[i..i + 4]);
        }
    }
    out
}

fn gray_icon(side: u32) -> DecodedIcon {
    DecodedIcon { width: side, height: side, rgba: vec![40u8; (side * side * 4) as usize] }
}

#[test]
fn scaled_tinted_rgba_arc_is_scaled_and_pointer_stable() {
    let icon = gray_icon(16);
    let mut cache = ScaledTintCache::new();
    let (a, w, h) = cache.scaled_tinted_rgba_arc_to_size(MatterCadIcon::Home, &icon, [1, 2, 3], 19, 19, nearest);
    let (b, w2, h2) = cache.scaled_tinted_rgba_arc_to_size(MatterCadIcon::Home, &icon, [1, 2, 3], 19, 19, nearest);
    assert_eq!((w, h), (w2, h2));
    assert_eq!(a.len() as u32, w * h * 4);
    assert!(w > icon.width);
    assert!(Arc::ptr_eq(&a, &b));
}

#[test]
fn an_icon_already_at_the_size_is_only_tinted() {
    let icon = gray_icon(16);
    let mut cache = ScaledTintCache::new();
    let (px, w, h) = cache.scaled_tinted_rgba_arc_to_size(MatterCadIcon::Cog, &icon, [9, 8, 7], 16, 16, |_: &[u8], _, _, _, _| {
        panic!("no resampling at the icon's own size")
    });
    assert_eq!((w, h), (16, 16));
    assert_eq!(*px, tinted_rgba(&icon, [9, 8, 7]));
}

#[test]
fn sizes_and_colours_do_not_alias_in_the_scaled_cache() {
    let icon = gray_icon(16);
    let mut cache = ScaledTintCache::new();
    let (a, _, _) = cache.scaled_tinted_rgba_arc_to_size(MatterCadIcon::Home, &icon, [1, 2, 3], 8, 8, nearest);
    let (b, _, _) = cache.scaled_tinted_rgba_arc_to_size(MatterCadIcon::Home, &icon, [1, 2, 3], 12, 12, nearest);
    let (c, _, _) = cache.scaled_tinted_rgba_arc_to_size(MatterCadIcon::Home, &icon, [3, 2, 1], 8, 8, nearest);
    assert!(!Arc::ptr_eq(&a, &b));
    assert!(!Arc::ptr_eq(&a, &c));
    assert_eq!(a.len(), 8 * 8 * 4);
    assert_eq!(b.len(), 12 * 12 * 4);
}

#[test]
fn the_tint_cache_answers_what_tinting_afresh_gives() {
    let home = gray_icon(4);
    let cog = DecodedIcon { width: 2, height: 2, rgba: vec![200u8; 16] };
    let mut cache = TintCache::new();
    let a = cache.tinted_rgba_arc(MatterCadIcon::Home, &home, [10, 20, 30]);
    let b = cache.tinted_rgba_arc(MatterCadIcon::Cog, &cog, [10, 20, 30]);
    let again = cache.tinted_rgba_arc(MatterCadIcon::Home, &home, [10, 20, 30]);
    assert_eq!(*a, tinted_rgba(&home, [10, 20, 30]));
    assert_eq!(*b, tinted_rgba(&cog, [10, 20, 30]));
    assert_eq!(*again, *a);
    assert_ne!(*a, *b);
}

#[test]
fn a_scaled_cache_hit_at_the_icon_size_is_the_fresh_tint() {
    let icon = gray_icon(6);
    let mut cache = ScaledTintCache::new();
    let (resized, _, _) = cache.scaled_tinted_rgba_arc_to_size(MatterCadIcon::Spin, &icon, [5, 6, 7], 3, 3, nearest);
    assert_eq!(resized.len(), 3 * 3 * 4);
    let (first, _, _) = cache.scaled_tinted_rgba_arc_to_size(MatterCadIcon::Spin, &icon, [5, 6, 7], 6, 6, nearest);
    let (hit, w, h) = cache.scaled_tinted_rgba_arc_to_size(MatterCadIcon::Spin, &icon, [5, 6, 7], 6, 6, nearest);
    assert_eq!((w, h), (6, 6));
    assert!(Arc::ptr_eq(&first, &hit));
    assert_eq!(*hit, tinted_rgba(&icon, [5, 6, 7]));
    assert_eq!(hit.len(), 6 * 6 * 4);
}
