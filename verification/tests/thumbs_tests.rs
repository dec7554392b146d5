//! Embedded-preview decoding: fitting, colour normalisation, refusals.

use atomartist_ui::thumbnail::encode_rgb_png;
use atomartist_ui::thumbs::{
    decode_preview, downscale_rgba, fit_within, png_ihdr_dimensions, preview_from_frame, to_rgba8,
    PngColorType, ThumbState, ThumbnailImage,
};

fn png(w: u32, h: u32) -> Vec<u8> {
    let rgb = vec![0x40u8; (w as usize) * (h as usize) * 3];
    encode_rgb_png(&rgb, w, h).expect("encode test preview")
}

const PNG_MAGIC: [u8; 8] = [0x89, b'P', b'N', b'G', 0x0d, 0x0a, 0x1a, 0x0a];

/// A PNG signature plus a well-formed IHDR for `w`×`h` and nothing else.
fn huge_png_header(w: u32, h: u32) -> Vec<u8> {
    fn crc32(bytes: &[u8]) -> u32 {
        let mut crc = 0xffff_ffffu32;
        for &byte in bytes {
            crc ^= byte as u32;
            for _ in 0..8 {
                let mask = (crc & 1).wrapping_neg();
                crc = (crc >> 1) ^ (0xedb8_8320 & mask);
            }
        }
        !crc
    }
    let mut ihdr = Vec::new();
    ihdr.extend_from_slice(b"IHDR");
    ihdr.extend_from_slice(&w.to_be_bytes());
    ihdr.extend_from_slice(&h.to_be_bytes());
    ihdr.extend_from_slice(&[8, 2, 0, 0, 0]); // 8-bit RGB, no interlace
    let mut out = Vec::new();
    out.extend_from_slice(&PNG_MAGIC);
    out.extend_from_slice(&((ihdr.len() - 4) as u32).to_be_bytes());
    out.extend_from_slice(&ihdr);
    out.extend_from_slice(&crc32(&ihdr).to_be_bytes());
    out
}

/// A preview smaller than the box is stored as-is.
#[test]
fn a_small_preview_is_not_upscaled() {
    assert_eq!(fit_within(48, 32, 128), (48, 32));
    assert_eq!(fit_within(256, 192, 128), (128, 96));
    // Degenerate aspect: the short edge floors at one pixel.
    assert_eq!(fit_within(1, 1000, 100), (1, 100));
}

#[test]
fn decode_refuses_what_it_cannot_safely_handle() {
    assert_eq!(decode_preview(b"\xff\xd8\xff-jpeg-ish", 128), Ok(None));

    let mut corrupt = png(8, 8);
    let tail = corrupt.len() - 8;
    corrupt.truncate(tail);
    assert!(decode_preview(&corrupt, 128).is_err());

    // A valid header claiming 30000×30000 must be rejected on the
    // declared size, never decoded.
    let huge = huge_png_header(30_000, 30_000);
    match decode_preview(&huge, 128) {
        Err(message) => assert!(message.contains("implausibly large"), "{message}"),
        other => panic!("expected a size refusal, got {other:?}"),
    }
}

#[test]
fn the_size_refusal_names_the_declared_canvas() {
    let huge = huge_png_header(30_000, 40_000);
    assert_eq!(png_ihdr_dimensions(&huge), Some((30_000, 40_000)));
    assert_eq!(
        decode_preview(&huge, 128),
        Err("preview is implausibly large (30000\u{d7}40000)".to_string())
    );
    assert_eq!(png_ihdr_dimensions(&huge[..20]), None);
}

#[test]
fn a_preview_is_decoded_and_fitted() {
    let image = decode_preview(&png(256, 192), 128).expect("decodes").expect("is a png");
    assert_eq!((image.width, image.height), (128, 96));
    assert_eq!(image.byte_len(), 128 * 96 * 4);
    assert!(image.rgba.chunks_exact(4).all(|p| p == [0x40, 0x40, 0x40, 255]));

    let small = decode_preview(&png(16, 8), 0).expect("decodes").expect("is a png");
    assert_eq!((small.width, small.height), (1, 1));
}

#[test]
fn frames_are_normalised_to_rgba() {
    assert_eq!(to_rgba8(&[1, 2, 3, 4, 5, 6, 7], PngColorType::Rgb), Some(vec![1, 2, 3, 255, 4, 5, 6, 255]));
    assert_eq!(to_rgba8(&[9, 8], PngColorType::GrayscaleAlpha), Some(vec![9, 9, 9, 8]));
    assert_eq!(to_rgba8(&[3], PngColorType::Grayscale), Some(vec![3, 3, 3, 255]));
    assert_eq!(to_rgba8(&[1, 2, 3, 4], PngColorType::Rgba), Some(vec![1, 2, 3, 4]));
    assert_eq!(to_rgba8(&[1], PngColorType::Indexed), None);
    assert_eq!(PngColorType::from_code(4), Some(PngColorType::GrayscaleAlpha));
    assert_eq!(PngColorType::from_code(5), None);
}

#[test]
fn frame_errors_are_reported() {
    assert_eq!(
        preview_from_frame(1, 1, vec![0], 3, 128),
        Err("unsupported PNG format Indexed".to_string())
    );
    assert_eq!(
        preview_from_frame(2, 2, vec![0; 15], 6, 128),
        Err("preview is shorter than its declared size".to_string())
    );
    assert_eq!(
        preview_from_frame(1, 1, vec![1, 2, 3], 2, 128),
        Ok(Some(ThumbnailImage { width: 1, height: 1, rgba: vec![1, 2, 3, 255] }))
    );
}

#[test]
fn downscaling_keeps_alpha() {
    let src = vec![0, 0, 0, 0, 100, 100, 100, 200];
    assert_eq!(downscale_rgba(&src, 2, 1, 1, 1), vec![50, 50, 50, 100]);
}

#[test]
fn thumb_states_expose_their_image() {
    let image = std::sync::Arc::new(ThumbnailImage { width: 1, height: 1, rgba: vec![0; 4] });
    assert!(ThumbState::Ready(image.clone()).image().is_some());
    assert!(ThumbState::Pending.is_pending());
    assert!(!ThumbState::Absent.is_pending());
    assert!(ThumbState::Failed("x".into()).image().is_none());
}
