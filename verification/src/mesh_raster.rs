//! The icon image the palette's software rasterizer produces: straight
//! RGBA8, row-major, `(0, 0)` at the top left.
use vstd::prelude::*;

use std::sync::Arc;

verus! {

/// Logical side of a palette icon, the reference size tests render at.
pub const ICON_SIZE: u32 = 96;

/// Largest side the icon path renders; a sanity bound on a nonsense
/// scale factor.
pub const MAX_ICON_SIZE: u32 = 512;

/// Samples per pixel edge when rasterizing.
pub const SUPERSAMPLE: u32 = 2;

/// A rendered icon.
#[derive(Clone, Debug, PartialEq, Eq)]
pub struct IconImage {
    pub width: u32,
    pub height: u32,
    pub rgba: Arc<Vec<u8>>,
}

/// The four bytes of the pixel at `(x, y)` of a `width`-wide RGBA image,
/// when the image holds them.
pub open spec fn pixel_at(rgba: Seq<u8>, width: u32, height: u32, x: u32, y: u32) -> Option<[u8; 4]> {
    let i = (y * width + x) * 4;
    if x >= width || y >= height || i + 4 > rgba.len() {
        None
    } else {
        Some([rgba[i], rgba[i + 1], rgba[i + 2], rgba[i + 3]])
    }
}

impl IconImage {
    /// Decoded size in bytes.
    pub fn byte_len(&self) -> (r: usize)
        ensures
            r == self.rgba@.len(),
    {
        self.rgba.len()
    }

    /// One pixel, or `None` outside the image.
    pub fn pixel(&self, x: u32, y: u32) -> (r: Option<[u8; 4]>)
        requires
            x < self.width && y < self.height ==> (y * self.width + x) * 4 <= u32::MAX,
        ensures
            r == pixel_at(self.rgba@, self.width, self.height, x, y),
    {
        if x >= self.width || y >= self.height {
            return None;
        }
        proof {
            assert(y * self.width + x <= (self.height - 1) * self.width + self.width) by (nonlinear_arith)
                requires
                    x < self.width,
                    y < self.height,
            ;
        }
        let i = (y * self.width + x) * 4;
        if i as u64 + 4 > self.rgba.len() as u64 {
            return None;
        }
        let i = i as usize;
        Some([self.rgba[i], self.rgba[i + 1], self.rgba[i + 2], self.rgba[i + 3]])
    }
}

} // verus!
