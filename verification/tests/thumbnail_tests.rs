//! Preview thumbnails: crop geometry, box downscaling and the PNG pipeline.

use std::io::Cursor;

use atomartist_ui::thumbnail::{
    center_crop_rect, center_crop_within, downscale_rgba_to_rgb, encode_rgb_png,
    thumbnail_png_from_rgba, thumbnail_png_from_rgba_region, CropRect, THUMBNAIL_HEIGHT,
    THUMBNAIL_WIDTH,
};

#[test]
fn wider_than_target_crops_columns_from_both_sides() {
    // 1920x1080 (16:9) into 4:3 keeps full height, width 1440.
    let c = center_crop_rect(1920, 1080, 4, 3);
    assert_eq!(c, CropRect { x: 240, y: 0, w: 1440, h: 1080 });
}

#[test]
fn taller_than_target_crops_rows_from_both_sides() {
    // 600x1000 into 4:3 keeps full width, height 450.
    let c = center_crop_rect(600, 1000, 4, 3);
    assert_eq!(c, CropRect { x: 0, y: 275, w: 600, h: 450 });
}

#[test]
fn exact_aspect_is_left_alone() {
    assert_eq!(
        center_crop_rect(800, 600, 4, 3),
        CropRect { x: 0, y: 0, w: 800, h: 600 }
    );
}

#[test]
fn degenerate_sizes_do_not_panic() {
    assert_eq!(
        center_crop_rect(0, 0, 4, 3),
        CropRect { x: 0, y: 0, w: 0, h: 0 }
    );
    assert!(thumbnail_png_from_rgba(&[], 0, 0).is_none());
    assert!(thumbnail_png_from_rgba(&[0u8; 16], 100, 100).is_none());
}

#[test]
fn region_pipeline_samples_only_the_requested_rectangle() {
    // 400x400 frame: blue everywhere except a 200x150 green patch.
    let (w, h) = (400u32, 400u32);
    let mut src = vec![0u8, 0, 255, 255].repeat((w * h) as usize);
    let region = CropRect { x: 100, y: 40, w: 200, h: 150 };
    for y in region.y..region.y + region.h {
        for x in region.x..region.x + region.w {
            let i = ((y * w + x) * 4) as usize;
            src[i..i + 4].copy_from_slice(&[0, 255, 0, 255]);
        }
    }

    let png_bytes =
        thumbnail_png_from_rgba_region(&src, w, h, region).expect("region thumbnail");
    let decoder = png::Decoder::new(Cursor::new(&png_bytes));
    let mut reader = decoder.read_info().expect("png header");
    assert_eq!(reader.info().width, THUMBNAIL_WIDTH);
    assert_eq!(reader.info().height, THUMBNAIL_HEIGHT);
    let mut out = vec![0u8; reader.output_buffer_size()];
    reader.next_frame(&mut out).expect("png pixels");
    assert!(
        out.chunks_exact(3).all(|p| p == [0, 255, 0]),
        "every preview pixel must come from the viewport region"
    );
}

#[test]
fn region_pipeline_rejects_a_region_outside_the_frame() {
    let src = vec![0u8; 100 * 100 * 4];
    let outside = CropRect { x: 90, y: 90, w: 50, h: 50 };
    assert!(thumbnail_png_from_rgba_region(&src, 100, 100, outside).is_none());
}

#[test]
fn downscale_averages_the_source_block() {
    // 2x2 source, downscaled to 1x1: the mean of all four.
    let src: Vec<u8> = vec![
        0, 0, 0, 255, 100, 100, 100, 255, // row 0
        200, 200, 200, 255, 255, 255, 255, 255, // row 1
    ];
    let crop = CropRect { x: 0, y: 0, w: 2, h: 2 };
    let out = downscale_rgba_to_rgb(&src, 2, 2, crop, 1, 1).expect("downscale");
    let expected = ((0 + 100 + 200 + 255) / 4) as u8;
    assert_eq!(out, vec![expected, expected, expected]);
}

#[test]
fn thumbnail_pipeline_produces_a_256x192_png() {
    // Solid-red 640x480 frame → decodable 256x192 PNG.
    let src = vec![255u8, 0, 0, 255].repeat(640 * 480);
    let png_bytes = thumbnail_png_from_rgba(&src, 640, 480).expect("encode");
    assert_eq!(&png_bytes[1..4], b"PNG");

    let decoder = png::Decoder::new(Cursor::new(&png_bytes));
    let mut reader = decoder.read_info().expect("png header");
    assert_eq!(reader.info().width, THUMBNAIL_WIDTH);
    assert_eq!(reader.info().height, THUMBNAIL_HEIGHT);
    let mut out = vec![0u8; reader.output_buffer_size()];
    let info = reader.next_frame(&mut out).expect("png pixels");
    assert_eq!(&out[..3], &[255, 0, 0]);
    assert_eq!(info.color_type, png::ColorType::Rgb);
}

#[test]
fn downscale_keeps_the_crop_and_drops_alpha() {
    // 4x1 source; a 2x1 crop starting at column 2, downscaled to 1x1.
    let src: Vec<u8> = vec![
        9, 9, 9, 9, 9, 9, 9, 9, 10, 20, 30, 0, 30, 40, 50, 7,
    ];
    let crop = CropRect { x: 2, y: 0, w: 2, h: 1 };
    assert_eq!(downscale_rgba_to_rgb(&src, 4, 1, crop, 1, 1), Some(vec![20, 30, 40]));
    // The same crop at full size is a plain copy without alpha.
    assert_eq!(
        downscale_rgba_to_rgb(&src, 4, 1, crop, 2, 1),
        Some(vec![10, 20, 30, 30, 40, 50])
    );
    // Refusals: short buffer, crop outside, zero destination.
    assert_eq!(downscale_rgba_to_rgb(&src[..12], 4, 1, crop, 1, 1), None);
    assert_eq!(downscale_rgba_to_rgb(&src, 4, 1, CropRect { x: 3, y: 0, w: 2, h: 1 }, 1, 1), None);
    assert_eq!(downscale_rgba_to_rgb(&src, 4, 1, crop, 0, 1), None);
}

#[test]
fn upscaling_repeats_source_pixels() {
    let src: Vec<u8> = vec![1, 2, 3, 4, 5, 6, 7, 8];
    let crop = CropRect { x: 0, y: 0, w: 2, h: 1 };
    assert_eq!(
        downscale_rgba_to_rgb(&src, 2, 1, crop, 4, 1),
        Some(vec![1, 2, 3, 1, 2, 3, 5, 6, 7, 5, 6, 7])
    );
}

#[test]
fn crop_within_offsets_by_the_region() {
    let region = CropRect { x: 10, y: 20, w: 1920, h: 1080 };
    assert_eq!(
        center_crop_within(region, 4, 3),
        CropRect { x: 250, y: 20, w: 1440, h: 1080 }
    );
    // Offsets saturate rather than wrap.
    let far = CropRect { x: u32::MAX, y: 0, w: 800, h: 1000 };
    assert_eq!(center_crop_within(far, 4, 3).x, u32::MAX);
}

#[test]
fn encoding_checks_the_buffer_length() {
    assert!(encode_rgb_png(&[0u8; 11], 2, 2).is_none());
    assert!(encode_rgb_png(&[], 0, 0).is_none());
    let png_bytes = encode_rgb_png(&[7u8; 12], 2, 2).expect("encodes");
    assert_eq!(&png_bytes[..8], &[0x89, b'P', b'N', b'G', 0x0d, 0x0a, 0x1a, 0x0a]);
}

#[test]
fn a_crop_outside_a_huge_frame_is_refused_before_any_size_arithmetic() {
    let crop = CropRect { x: u32::MAX - 1, y: 0, w: 10, h: 10 };
    assert_eq!(downscale_rgba_to_rgb(&[], u32::MAX, u32::MAX, crop, 4, 3), None);
}

#[test]
fn every_buffer_of_the_stated_size_encodes() {
    for (w, h) in [(1u32, 1u32), (3, 2), (256, 192)] {
        let rgb = vec![7u8; (w * h * 3) as usize];
        let png = encode_rgb_png(&rgb, w, h).expect("a buffer of exactly w x h pixels encodes");
        assert_eq!(&png[1..4], b"PNG");
    }
    assert_eq!(encode_rgb_png(&[], 0, 5), None);
    assert_eq!(encode_rgb_png(&[1, 2], 1, 1), None);
}
