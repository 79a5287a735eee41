//! Pixel production: RGB conversion, the synthetic scrolling test pattern,
//! and the live-mode conversion of a raw RGB888 byte stream into the
//! packed 16-bit wire format.
//!
//! Every pixel on the wire is RGB565, written little-endian: the low byte
//! first, then the high byte.

use vstd::prelude::*;

verus! {

/// Pack one 8-bit-per-channel color into RGB565: the red and blue
/// channels keep their top five bits, green its top six.
pub open spec fn spec_rgb888_to_565(r: u8, g: u8, b: u8) -> u16 {
    ((r >> 3) as u16) << 11 | ((g >> 2) as u16) << 5 | ((b >> 3) as u16)
}

/// Low (first) wire byte of a 16-bit pixel.
pub open spec fn pixel_low(v: u16) -> u8 {
    (v % 256) as u8
}

/// High (second) wire byte of a 16-bit pixel.
pub open spec fn pixel_high(v: u16) -> u8 {
    (v / 256) as u8
}

/// Pack one 8-bit-per-channel color into RGB565.
pub fn rgb888_to_565(r: u8, g: u8, b: u8) -> (pixel: u16)
    ensures
        pixel == spec_rgb888_to_565(r, g, b),
{
    let pixel565: u16 = ((r >> 3) as u16) << 11 | ((g >> 2) as u16) << 5 | ((b >> 3) as u16);
    pixel565
}

/// The gray level of the scrolling luminance ramp at a given line, for a
/// given frame counter: counter plus line, times four, wrapped to a byte.
pub open spec fn spec_pattern_gray(counter: u8, line: int) -> u8 {
    (((counter + line % 256) * 4) % 256) as u8
}

/// The test-pattern pixel at flat index `i` of a `width`-pixel-wide frame.
pub open spec fn spec_pattern_pixel(counter: u8, i: int, width: int) -> u16 {
    let gray = spec_pattern_gray(counter, i / width);
    spec_rgb888_to_565(gray, gray, gray)
}

/// Render one synthetic frame of `width * height` RGB565 pixels, little
/// endian.  With `clear` set every pixel is zero; otherwise each line's
/// gray level scrolls with the frame counter.
pub fn render_test_pattern(counter: u8, width: u16, height: u16, clear: bool) -> (r: Vec<u8>)
    requires
        width >= 1,
    ensures
        r@.len() == 2 * (width as int * height as int),
        forall|p: int|
            0 <= p < width as int * height as int ==> {
                let v = if clear {
                    0u16
                } else {
                    spec_pattern_pixel(counter, p, width as int)
                };
                &&& #[trigger] r@[2 * p] == pixel_low(v)
                &&& r@[2 * p + 1] == pixel_high(v)
            },
{
    proof {
        assert((width as int) * (height as int) <= 65535 * 65535) by (nonlinear_arith)
            requires
                width <= 65535,
                height <= 65535,
        ;
    }
    let pixels: usize = (width as usize) * (height as usize);
    let mut out: Vec<u8> = Vec::new();
    let mut p: usize = 0;
    while p < pixels
        invariant
            width >= 1,
            p <= pixels,
            pixels == width * height,
            out@.len() == 2 * p,
            forall|q: int|
                0 <= q < p ==> {
                    let v = if clear {
                        0u16
                    } else {
                        spec_pattern_pixel(counter, q, width as int)
                    };
                    &&& #[trigger] out@[2 * q] == pixel_low(v)
                    &&& out@[2 * q + 1] == pixel_high(v)
                },
        decreases pixels - p,
    {
        let value: u16 = if clear {
            0u16
        } else {
            let line: u8 = ((p / (width as usize)) % 256) as u8;
            let gray: u8 = (((counter as u32 + line as u32) * 4) % 256) as u8;
            proof {
                assert(gray == spec_pattern_gray(counter, p as int / width as int));
            }
            rgb888_to_565(gray, gray, gray)
        };
        let ghost old_out = out@;
        out.push((value % 256) as u8);
        out.push((value / 256) as u8);
        proof {
            let ghost vp = if clear {
                0u16
            } else {
                spec_pattern_pixel(counter, p as int, width as int)
            };
            assert(value == vp);
            assert forall|q: int| 0 <= q <= p as int implies {
                let v = (if clear {
                    0u16
                } else {
                    spec_pattern_pixel(counter, q, width as int)
                });
                &&& #[trigger] out@[2 * q] == pixel_low(v)
                &&& out@[2 * q + 1] == pixel_high(v)
            } by {
                if q < p as int {
                    assert(old_out[2 * q] == out@[2 * q]);
                    assert(old_out[2 * q + 1] == out@[2 * q + 1]);
                } else {
                    assert(out@[2 * q] == pixel_low(vp));
                    assert(out@[2 * q + 1] == pixel_high(vp));
                }
            }
        }
        p = p + 1;
    }
    out
}

/// Convert a raw RGB888 frame (three bytes per pixel, as read from the
/// live byte source) into the packed little-endian RGB565 wire frame, two
/// bytes per pixel.
pub fn rgb888_frame_to_565(input: &Vec<u8>) -> (r: Vec<u8>)
    requires
        input@.len() % 3 == 0,
    ensures
        r@.len() == input@.len() / 3 * 2,
        forall|p: int|
            0 <= p < input@.len() / 3 ==> {
                let v = spec_rgb888_to_565(input@[3 * p], input@[3 * p + 1], input@[3 * p + 2]);
                &&& #[trigger] r@[2 * p] == pixel_low(v)
                &&& r@[2 * p + 1] == pixel_high(v)
            },
{
    let input_len: usize = input.len();
    let pixels: usize = input_len / 3;
    let mut out: Vec<u8> = Vec::new();
    let mut p: usize = 0;
    proof {
        vstd::arithmetic::div_mod::lemma_fundamental_div_mod(input_len as int, 3);
    }
    while p < pixels
        invariant
            input_len == input@.len(),
            pixels == input_len / 3,
            pixels as int == input@.len() / 3,
            3 * pixels <= input_len,
            p <= pixels,
            out@.len() == 2 * p,
            forall|q: int|
                0 <= q < p ==> {
                    let v = spec_rgb888_to_565(
                        input@[3 * q],
                        input@[3 * q + 1],
                        input@[3 * q + 2],
                    );
                    &&& #[trigger] out@[2 * q] == pixel_low(v)
                    &&& out@[2 * q + 1] == pixel_high(v)
                },
        decreases pixels - p,
    {
        let value: u16 = rgb888_to_565(input[3 * p], input[3 * p + 1], input[3 * p + 2]);
        let ghost old_out = out@;
        out.push((value % 256) as u8);
        out.push((value / 256) as u8);
        proof {
            let ghost vp = spec_rgb888_to_565(
                input@[3 * p as int],
                input@[3 * p as int + 1],
                input@[3 * p as int + 2],
            );
            assert forall|q: int| 0 <= q <= p as int implies {
                let v = spec_rgb888_to_565(input@[3 * q], input@[3 * q + 1], input@[3 * q + 2]);
                &&& #[trigger] out@[2 * q] == pixel_low(v)
                &&& out@[2 * q + 1] == pixel_high(v)
            } by {
                if q < p as int {
                    assert(old_out[2 * q] == out@[2 * q]);
                    assert(old_out[2 * q + 1] == out@[2 * q + 1]);
                } else {
                    assert(out@[2 * q] == pixel_low(vp));
                    assert(out@[2 * q + 1] == pixel_high(vp));
                }
            }
        }
        p = p + 1;
    }
    out
}

} // verus!
