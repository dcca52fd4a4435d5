//! Logo bitmap framing for the extended data subcarrier.
//!
//! A grayscale pixel grid is resized to fit within a 64×32 canvas while
//! preserving its aspect ratio, centred on that canvas, binarised against
//! the canvas's mean luminance, and framed with a 2-bit sync pattern and an
//! 8-bit magic byte: 10 header bits followed by 2048 pixel bits.  Only the
//! resampling itself is done by an outside routine; everything around it is
//! computed here.

use vstd::prelude::*;
use crate::rds::bit16;

verus! {

/// Canvas width in pixels.
pub const LOGO_MAX_W: u32 = 64;

/// Canvas height in pixels.
pub const LOGO_MAX_H: u32 = 32;

/// Magic byte of the logo frame header.
pub const LOGO_MAGIC: u8 = 0xA7;

/// Round-half-up division of nonnegative integers.
pub open spec fn round_div(a: int, b: int) -> int {
    (2 * a + b) / (2 * b)
}

/// The dimensions a `w`×`h` image is resized to: scaled by the larger
/// factor that still fits 64×32, each side rounded to the nearest pixel
/// and kept at least 1.
pub open spec fn fit_dims(w: int, h: int) -> (int, int) {
    if 64 * h <= 32 * w {
        let nh = round_div(64 * h, w);
        (64, if nh < 1 { 1 } else { nh })
    } else {
        let nw = round_div(32 * w, h);
        (if nw < 1 { 1 } else { nw }, 32)
    }
}

/// Compute the aspect-preserving dimensions within the 64×32 canvas.
pub fn fit_logo_dims(w: u32, h: u32) -> (r: (u32, u32))
    requires
        w >= 1,
        h >= 1,
    ensures
        (r.0 as int, r.1 as int) == fit_dims(w as int, h as int),
        1 <= r.0 <= 64,
        1 <= r.1 <= 32,
{
    let w64 = w as u64;
    let h64 = h as u64;
    if 64 * h64 <= 32 * w64 {
        let num: u64 = 128 * h64 + w64;
        let nh64: u64 = num / (2 * w64);
        proof {
            assert(nh64 == round_div(64 * h, w as int));
            assert(nh64 <= 32) by {
                assert(128 * (h as int) + w <= 65 * w);
                assert((128 * (h as int) + w) / (2 * w) <= (65 * (w as int)) / (2 * w)) by {
                    vstd::arithmetic::div_mod::lemma_div_is_ordered(
                        128 * (h as int) + w,
                        65 * w,
                        2 * w,
                    );
                }
                assert((65 * (w as int)) / (2 * w) == 32) by (nonlinear_arith)
                    requires
                        w >= 1,
                ;
            }
        }
        let nh: u32 = if nh64 < 1 {
            1
        } else {
            nh64 as u32
        };
        (64, nh)
    } else {
        let num: u64 = 64 * w64 + h64;
        let nw64: u64 = num / (2 * h64);
        proof {
            assert(nw64 == round_div(32 * w, h as int));
            assert(nw64 <= 64) by {
                assert(64 * (w as int) + h <= 129 * h);
                assert((64 * (w as int) + h) / (2 * h) <= (129 * (h as int)) / (2 * h)) by {
                    vstd::arithmetic::div_mod::lemma_div_is_ordered(
                        64 * (w as int) + h,
                        129 * h,
                        2 * h,
                    );
                }
                assert((129 * (h as int)) / (2 * h) == 64) by (nonlinear_arith)
                    requires
                        h >= 1,
                ;
            }
        }
        let nw: u32 = if nw64 < 1 {
            1
        } else {
            nw64 as u32
        };
        (nw, 32)
    }
}

/// The pixel grid a resize hands back for a given grid and target size.
/// The resampling is a pure function of its arguments; its exact values
/// are not restated here.
pub uninterp spec fn resampled_of(pixels: Seq<u8>, w: u32, h: u32, nw: u32, nh: u32) -> Seq<u8>;

/// Relies on `image::imageops::resize` with the Lanczos3 filter over an
/// 8-bit grayscale buffer: the result is a pure function of the input grid
/// and the two sizes, and has exactly `nw * nh` pixels, row-major.
#[verifier::external_body]
fn resize_gray(pixels: Vec<u8>, w: u32, h: u32, nw: u32, nh: u32) -> (r: Vec<u8>)
    requires
        pixels@.len() == w * h,
        w >= 1,
        h >= 1,
        nw >= 1,
        nh >= 1,
    ensures
        r@ == resampled_of(pixels@, w, h, nw, nh),
        r@.len() == nw * nh,
{
    let img = image::GrayImage::from_raw(w, h, pixels).unwrap();
    let out = image::imageops::resize(&img, nw, nh, image::imageops::FilterType::Lanczos3);
    out.into_raw()
}

/// The 64×32 canvas with a `nw`×`nh` grid centred on it: pixels inside the
/// centred window come from the grid, everything else is black.
pub open spec fn centered_canvas(grid: Seq<u8>, nw: int, nh: int) -> Seq<u8> {
    let off_x = (64 - nw) / 2;
    let off_y = (32 - nh) / 2;
    Seq::new(2048, |j: int|
        {
            let x = j % 64;
            let y = j / 64;
            if off_x <= x < off_x + nw && off_y <= y < off_y + nh {
                grid[(y - off_y) * nw + (x - off_x)]
            } else {
                0u8
            }
        })
}

/// Centre a resized grid on the black 64×32 canvas.
pub fn center_canvas(grid: &Vec<u8>, nw: u32, nh: u32) -> (r: Vec<u8>)
    requires
        1 <= nw <= 64,
        1 <= nh <= 32,
        grid@.len() == nw * nh,
    ensures
        r@ == centered_canvas(grid@, nw as int, nh as int),
{
    let off_x: u32 = (64 - nw) / 2;
    let off_y: u32 = (32 - nh) / 2;
    let mut canvas: Vec<u8> = Vec::with_capacity(2048);
    let mut j: usize = 0;
    while j < 2048
        invariant
            j <= 2048,
            off_x == (64 - nw as int) / 2,
            off_y == (32 - nh as int) / 2,
            1 <= nw <= 64,
            1 <= nh <= 32,
            grid@.len() == nw * nh,
            canvas@.len() == j,
            forall|m: int|
                0 <= m < j ==> canvas@[m] == centered_canvas(grid@, nw as int, nh as int)[m],
        decreases 2048 - j,
    {
        let x: usize = j % 64;
        let y: usize = j / 64;
        let inside = off_x as usize <= x && x < off_x as usize + nw as usize
            && off_y as usize <= y && y < off_y as usize + nh as usize;
        if inside {
            let gy = y - off_y as usize;
            let gx = x - off_x as usize;
            proof {
                assert(gy * nw + gx < nw * nh && gy * nw + gx < 2048) by (nonlinear_arith)
                    requires
                        gy < nh,
                        gx < nw,
                        1 <= nw <= 64,
                        1 <= nh <= 32,
                ;
            }
            let p = grid[gy * (nw as usize) + gx];
            canvas.push(p);
        } else {
            canvas.push(0);
        }
        j = j + 1;
    }
    proof {
        assert(canvas@ =~= centered_canvas(grid@, nw as int, nh as int));
    }
    canvas
}

/// Sum of the pixel values of a grid.
pub open spec fn pixel_sum(s: Seq<u8>) -> int
    decreases s.len(),
{
    if s.len() == 0 {
        0
    } else {
        pixel_sum(s.drop_last()) + s.last()
    }
}

/// The ten header bits of a logo frame: the 2-bit sync pattern followed by
/// the magic byte, most significant bit first.
pub open spec fn logo_header() -> Seq<u8> {
    seq![1u8, 0u8] + Seq::new(8, |p: int| bit16(LOGO_MAGIC as u16, 7 - p))
}

/// One bit per canvas pixel, row-major: set exactly when the pixel lies
/// strictly above the canvas's mean luminance (`pixel * 2048 > sum`).
pub open spec fn threshold_bits(canvas: Seq<u8>) -> Seq<u8> {
    Seq::new(canvas.len(), |i: int|
        if canvas[i] * 2048 > pixel_sum(canvas) {
            1u8
        } else {
            0u8
        })
}

/// A complete logo frame: header bits, then the binarised canvas.
pub open spec fn logo_frame_spec(canvas: Seq<u8>) -> Seq<u8> {
    logo_header() + threshold_bits(canvas)
}

/// Frame a 64×32 canvas: emit the sync pattern and magic byte, then one
/// bit per pixel, set when the pixel lies above the mean luminance.
pub fn logo_frame_bits(canvas: &Vec<u8>) -> (r: Vec<u8>)
    requires
        canvas@.len() == 2048,
    ensures
        r@ == logo_frame_spec(canvas@),
        r@.len() == 2058,
{
    let mut sum: u32 = 0;
    let mut i: usize = 0;
    while i < 2048
        invariant
            i <= 2048,
            canvas@.len() == 2048,
            sum == pixel_sum(canvas@.take(i as int)),
            sum <= 255 * i,
        decreases 2048 - i,
    {
        let p = canvas[i];
        proof {
            assert(canvas@.take(i + 1).drop_last() =~= canvas@.take(i as int));
        }
        sum = sum + p as u32;
        i = i + 1;
    }
    proof {
        assert(canvas@.take(2048) =~= canvas@);
    }
    let mut bits: Vec<u8> = Vec::with_capacity(2058);
    bits.push(1);
    bits.push(0);
    let mut p: usize = 0;
    while p < 8
        invariant
            p <= 8,
            bits@.len() == 2 + p,
            bits@[0] == 1u8,
            bits@[1] == 0u8,
            forall|m: int| 0 <= m < p ==> #[trigger] bits@[2 + m] == bit16(LOGO_MAGIC as u16, 7 - m),
        decreases 8 - p,
    {
        bits.push(((LOGO_MAGIC as u16 >> ((7 - p) as u16)) & 1) as u8);
        p = p + 1;
    }
    proof {
        assert forall|m: int| 0 <= m < 10 implies bits@[m] == logo_header()[m] by {
            if m == 0 {
                assert(logo_header()[0] == 1u8);
            } else if m == 1 {
                assert(logo_header()[1] == 0u8);
            } else {
                assert(bits@[2 + (m - 2)] == bit16(LOGO_MAGIC as u16, 7 - (m - 2)));
                assert(logo_header()[m] == bit16(LOGO_MAGIC as u16, 7 - (m - 2)));
            }
        }
    }
    let mut k: usize = 0;
    while k < 2048
        invariant
            k <= 2048,
            canvas@.len() == 2048,
            sum == pixel_sum(canvas@),
            bits@.len() == 10 + k,
            forall|m: int| 0 <= m < 10 ==> bits@[m] == logo_header()[m],
            forall|m: int| 0 <= m < k ==> #[trigger] bits@[10 + m] == threshold_bits(canvas@)[m],
        decreases 2048 - k,
    {
        let v = canvas[k] as u32;
        if v * 2048 > sum {
            bits.push(1);
        } else {
            bits.push(0);
        }
        k = k + 1;
    }
    proof {
        assert forall|m: int| 0 <= m < 2058 implies bits@[m] == logo_frame_spec(canvas@)[m] by {
            if m >= 10 {
                assert(bits@[10 + (m - 10)] == threshold_bits(canvas@)[m - 10]);
            }
        }
        assert(bits@ =~= logo_frame_spec(canvas@));
    }
    bits
}

/// Turn a grayscale pixel grid into a framed logo bitstream: resize to fit
/// the 64×32 canvas, centre, binarise against the mean luminance, and
/// prepend the frame header.
pub fn process_logo_to_bits(pixels: Vec<u8>, w: u32, h: u32) -> (r: Vec<u8>)
    requires
        w >= 1,
        h >= 1,
        pixels@.len() == w * h,
    ensures
        ({
            let dims = fit_dims(w as int, h as int);
            r@ == logo_frame_spec(
                centered_canvas(
                    resampled_of(pixels@, w, h, dims.0 as u32, dims.1 as u32),
                    dims.0,
                    dims.1,
                ),
            )
        }),
        r@.len() == 2058,
{
    let (nw, nh) = fit_logo_dims(w, h);
    let resized = resize_gray(pixels, w, h, nw, nh);
    let canvas = center_canvas(&resized, nw, nh);
    logo_frame_bits(&canvas)
}

} // verus!
