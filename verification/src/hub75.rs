//! Rendering a decoded RGB image into the 64x64 LED panel's wire format.
//!
//! The panel takes a 64x64 frame of little-endian RGB565 pixels, 8192
//! bytes in all, delivered as eight 1024-byte blocks, each prefixed by a
//! two-byte big-endian header holding the block's byte offset.  An image
//! smaller than the panel is placed in the top-left corner and the rest of
//! the frame stays black; a larger image is cropped.

use crate::packet::{num_packets, offset_hi, offset_lo, packetize, spec_packet};
use crate::video::{pixel_high, pixel_low, rgb888_to_565, spec_rgb888_to_565};
use vstd::prelude::*;

verus! {

/// One 8-bit-per-channel color pixel.
#[derive(Clone, Copy, Debug, PartialEq, Eq, Structural)]
pub struct Rgb {
    pub r: u8,
    pub g: u8,
    pub b: u8,
}

/// A decoded image: row-major pixels, exactly `width * height` of them.
pub struct RgbImage {
    pub width: usize,
    pub height: usize,
    pub pixels: Vec<Rgb>,
}

impl RgbImage {
    pub open spec fn wf(self) -> bool {
        self.pixels@.len() == self.width * self.height
    }

    /// The pixel of row `y`, column `x`.
    pub open spec fn spec_pixel(self, x: int, y: int) -> Rgb
        recommends
            self.wf(),
            0 <= x < self.width,
            0 <= y < self.height,
    {
        self.pixels@[y * self.width + x]
    }

    /// Build an image from a row-major pixel vector; the count has to
    /// match the dimensions exactly.
    pub fn new(width: usize, height: usize, pixels: Vec<Rgb>) -> (r: Option<RgbImage>)
        ensures
            match r {
                Some(image) => {
                    &&& image.wf()
                    &&& image.width == width
                    &&& image.height == height
                    &&& image.pixels == pixels
                },
                None => pixels@.len() != width * height,
            },
    {
        let count_have: usize = pixels.len();
        match width.checked_mul(height) {
            Some(count) => {
                if count_have == count {
                    Some(RgbImage { width, height, pixels })
                } else {
                    None
                }
            },
            None => None,
        }
    }

    /// Read one pixel.
    pub fn pixel(&self, x: usize, y: usize) -> (p: Rgb)
        requires
            self.wf(),
            x < self.width,
            y < self.height,
        ensures
            p == self.spec_pixel(x as int, y as int),
    {
        let count: usize = self.pixels.len();
        proof {
            assert(y * self.width + x < count) by (nonlinear_arith)
                requires
                    x < self.width,
                    y < self.height,
                    count == self.width * self.height,
            ;
        }
        self.pixels[y * self.width + x]
    }
}

/// Byte `j` of the panel's 8192-byte RGB565 frame for a given image:
/// pixels inside the image give their RGB565 bytes (low byte at even `j`),
/// everything outside stays zero.
pub open spec fn spec_hub75_frame_byte(image: RgbImage, j: int) -> u8 {
    let p = j / 2;
    let x = p % 64;
    let y = p / 64;
    if x < image.width && y < image.height {
        let pix = image.spec_pixel(x, y);
        let v = spec_rgb888_to_565(pix.r, pix.g, pix.b);
        if j % 2 == 0 {
            pixel_low(v)
        } else {
            pixel_high(v)
        }
    } else {
        0u8
    }
}

/// Where byte `j` of the frame lands inside the headered wire data: block
/// `j / 1024`, two header bytes, then the offset within the block.
pub open spec fn hub75_pos(j: int) -> int {
    1026 * (j / 1024) + 2 + j % 1024
}

/// Render the panel's raw 8192-byte frame for an image, cropping or
/// zero-padding to 64x64.
pub fn hub75_frame(image: &RgbImage) -> (r: Vec<u8>)
    requires
        image.wf(),
    ensures
        r@.len() == 8192,
        forall|j: int| 0 <= j < 8192 ==> #[trigger] r@[j] == spec_hub75_frame_byte(*image, j),
{
    let mut out: Vec<u8> = Vec::new();
    let mut y: usize = 0;
    while y < 64
        invariant
            image.wf(),
            y <= 64,
            out@.len() == 128 * y,
            forall|j: int|
                0 <= j < 128 * y ==> #[trigger] out@[j] == spec_hub75_frame_byte(*image, j),
        decreases 64 - y,
    {
        let mut x: usize = 0;
        while x < 64
            invariant
                image.wf(),
                y < 64,
                x <= 64,
                out@.len() == 128 * y + 2 * x,
                forall|j: int|
                    0 <= j < 128 * y + 2 * x ==> #[trigger] out@[j] == spec_hub75_frame_byte(
                        *image,
                        j,
                    ),
            decreases 64 - x,
        {
            let v: u16 = if x < image.width && y < image.height {
                let pix = image.pixel(x, y);
                rgb888_to_565(pix.r, pix.g, pix.b)
            } else {
                0u16
            };
            out.push((v % 256) as u8);
            out.push((v / 256) as u8);
            proof {
                let p = 64 * y as int + x as int;
                let j0 = 2 * p;
                vstd::arithmetic::div_mod::lemma_fundamental_div_mod_converse(j0, 2, p, 0);
                vstd::arithmetic::div_mod::lemma_fundamental_div_mod_converse(j0 + 1, 2, p, 1);
                vstd::arithmetic::div_mod::lemma_fundamental_div_mod_converse(
                    p,
                    64,
                    y as int,
                    x as int,
                );
                assert(out@[j0] == spec_hub75_frame_byte(*image, j0));
                assert(out@[j0 + 1] == spec_hub75_frame_byte(*image, j0 + 1));
            }
            x = x + 1;
        }
        y = y + 1;
    }
    out
}

/// Render an image into the complete wire data for the panel: the 64x64
/// RGB565 frame split into eight 1024-byte blocks, each prefixed with its
/// two-byte big-endian offset header — 8208 bytes in all, ready to send
/// block by block.
pub fn to_hub75_data(image: &RgbImage) -> (r: Vec<u8>)
    requires
        image.wf(),
    ensures
        r@.len() == 8208,
        forall|b: int|
            0 <= b < 8 ==> #[trigger] r@[1026 * b] == offset_hi(1024 * b) && r@[1026 * b + 1]
                == offset_lo(1024 * b),
        forall|j: int|
            0 <= j < 8192 ==> #[trigger] r@[hub75_pos(j)] == spec_hub75_frame_byte(*image, j),
{
    let frame = hub75_frame(image);
    let packets = packetize(&frame, 1024);
    proof {
        assert(num_packets(8192, 1024) == 8);
    }
    let mut out: Vec<u8> = Vec::new();
    let mut b: usize = 0;
    while b < 8
        invariant
            image.wf(),
            frame@.len() == 8192,
            forall|j: int|
                0 <= j < 8192 ==> #[trigger] frame@[j] == spec_hub75_frame_byte(*image, j),
            packets@.len() == 8,
            forall|i: int|
                0 <= i < 8 ==> (#[trigger] packets@[i])@ == spec_packet(frame@, 1024, i),
            b <= 8,
            out@.len() == 1026 * b,
            forall|i: int|
                0 <= i < b ==> #[trigger] out@[1026 * i] == offset_hi(1024 * i) && out@[1026 * i
                    + 1] == offset_lo(1024 * i),
            forall|j: int|
                0 <= j < 1024 * b ==> #[trigger] out@[hub75_pos(j)] == spec_hub75_frame_byte(
                    *image,
                    j,
                ),
        decreases 8 - b,
    {
        let packet: &Vec<u8> = &packets[b];
        proof {
            assert(packet@ == spec_packet(frame@, 1024, b as int));
            assert(packet@.len() == 1026);
        }
        let ghost outer_out = out@;
        let mut t: usize = 0;
        while t < 1026
            invariant
                t <= 1026,
                packet@.len() == 1026,
                out@ == outer_out + packet@.take(t as int),
                outer_out.len() == 1026 * b,
                b < 8,
            decreases 1026 - t,
        {
            out.push(packet[t]);
            proof {
                assert(out@ =~= outer_out + packet@.take(t as int + 1));
            }
            t = t + 1;
        }
        proof {
            assert(out@ =~= outer_out + packet@);
            let bi = b as int;
            assert forall|u: int| 0 <= u < 1026 implies out@[1026 * bi + u] == packet@[u] by {}
            assert forall|i: int| 0 <= i < bi implies #[trigger] out@[1026 * i] == outer_out[1026
                * i] && out@[1026 * i + 1] == outer_out[1026 * i + 1] by {}
            assert(packet@[0] == offset_hi(1024 * bi));
            assert(packet@[1] == offset_lo(1024 * bi));
            assert(out@[1026 * bi] == offset_hi(1024 * bi));
            assert(out@[1026 * bi + 1] == offset_lo(1024 * bi));
            assert forall|j: int| 1024 * bi <= j < 1024 * (bi + 1) implies out@[hub75_pos(j)]
                == spec_hub75_frame_byte(*image, j) by {
                vstd::arithmetic::div_mod::lemma_fundamental_div_mod_converse(
                    j,
                    1024,
                    bi,
                    j - 1024 * bi,
                );
                assert(hub75_pos(j) == 1026 * bi + 2 + (j - 1024 * bi));
                assert(packet@[2 + (j - 1024 * bi)] == frame@[j]);
            }
        }
        b = b + 1;
    }
    out
}

} // verus!
