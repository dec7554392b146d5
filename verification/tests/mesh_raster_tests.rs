use std::sync::Arc;

use atomartist_ui::mesh_raster::{IconImage, ICON_SIZE, MAX_ICON_SIZE};

fn gradient(w: u32, h: u32) -> IconImage {
    let mut rgba = Vec::new();
    for y in 0..h {
        for x in 0..w {
            rgba.extend_from_slice(&[x as u8, y as u8, 7, 255]);
        }
    }
    IconImage { width: w, height: h, rgba: Arc::new(rgba) }
}

#[test]
fn pixels_are_addressed_from_the_top_left() {
    let icon = gradient(4, 3);
    assert_eq!(icon.byte_len(), 4 * 3 * 4);
    assert_eq!(icon.pixel(0, 0), Some([0, 0, 7, 255]));
    assert_eq!(icon.pixel(3, 2), Some([3, 2, 7, 255]));
    assert_eq!(icon.pixel(2, 1), Some([2, 1, 7, 255]));
}

#[test]
fn pixels_outside_the_image_are_none() {
    let icon = gradient(4, 3);
    assert_eq!(icon.pixel(4, 0), None);
    assert_eq!(icon.pixel(0, 3), None);
    let short = IconImage { width: 4, height: 3, rgba: Arc::new(vec![0; 8]) };
    assert_eq!(short.pixel(3, 2), None, "a truncated buffer never reads past its end");
}

#[test]
fn the_reference_sizes_are_sane() {
    assert!(ICON_SIZE <= MAX_ICON_SIZE);
    assert_eq!(gradient(ICON_SIZE, ICON_SIZE).byte_len(), (ICON_SIZE * ICON_SIZE * 4) as usize);
}

#[test]
fn the_last_pixel_of_the_index_range_is_readable() {
    // (y * w + x) * 4 == u32::MAX - 3: the byte index is 4294967292.
    let img = IconImage { width: 1_073_741_824, height: 1, rgba: Arc::new(vec![9u8; 8]) };
    assert_eq!(img.pixel(1_073_741_823, 0), None, "beyond the buffer");
    assert_eq!(img.pixel(1, 0), Some([9, 9, 9, 9]));
    assert_eq!(img.pixel(2, 0), None);
}
