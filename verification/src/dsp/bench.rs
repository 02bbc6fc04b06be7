//! Deterministic test images for benchmarks and tests: a gradient with
//! pseudo-random texture, and a shifted copy of it.
use vstd::prelude::*;
use crate::dsp::superres::clampi;

verus! {

/// Pixel (r, c) of the test image: `r * 255 / h + c * 128 / w` (as a byte) plus a
/// quarter of `seed * (r * w + c) + 37`, each step modulo 256.
pub open spec fn test_pixel(width: usize, height: usize, seed: u8, r: int, c: int) -> u8 {
    let hh = if height >= 1 { height as int } else { 1 };
    let ww = if width >= 1 { width as int } else { 1 };
    let gradient = ((r * 255 / hh + c * 128 / ww) % 256) as u8;
    let noise = ((((seed * ((r * width + c) % 256)) % 256) + 37) % 256) as u8;
    ((gradient + noise / 4) % 256) as u8
}

fn test_pixel_exec(width: usize, height: usize, hh: usize, ww: usize, seed: u8, r: usize, c: usize) -> (v: u8)
    requires
        r < height, c < width, width * height <= usize::MAX, height * 255 <= usize::MAX, width * 128 <= usize::MAX,
        hh == (if height >= 1 { height } else { 1 }), ww == (if width >= 1 { width } else { 1 }),
    ensures v == test_pixel(width, height, seed, r as int, c as int),
{
    proof {
        assert(r * width + c < width * height) by (nonlinear_arith) requires r < height, c < width;
        assert(r * 255 <= height * 255) by (nonlinear_arith) requires r < height;
        assert(c * 128 <= width * 128) by (nonlinear_arith) requires c < width;
        assert((r as int) * 255 / (hh as int) <= 255) by (nonlinear_arith)
            requires r < height, hh >= height, hh >= 1;
        assert((c as int) * 128 / (ww as int) <= 128) by (nonlinear_arith)
            requires c < width, ww >= width, ww >= 1;
    }
    let gradient: u8 = (((r * 255 / hh) + (c * 128 / ww)) % 256) as u8;
    let m: u8 = ((r * width + c) % 256) as u8;
    let prod: u8 = seed.wrapping_mul(m);
    let noise: u8 = prod.wrapping_add(37);
    proof {
        assert(prod == (seed * m) % 256);
        assert(noise == (prod + 37) % 256);
        vstd::bits::lemma_u8_shr_is_div(noise, 2);
        vstd::arithmetic::power2::lemma2_to64();
    }
    let q: u8 = noise >> 2;
    assert(q == noise / 4);
    gradient.wrapping_add(q)
}

/// A `width` x `height` test image (see [`test_pixel`]), in raster order.
pub fn generate_test_image(width: usize, height: usize, seed: u8) -> (img: Vec<u8>)
    requires
        width * height <= usize::MAX,
        height * 255 <= usize::MAX,
        width * 128 <= usize::MAX,
    ensures
        img@.len() == width * height,
        forall|r: int, c: int| 0 <= r < height && 0 <= c < width ==>
            img@[r * width + c] == #[trigger] test_pixel(width, height, seed, r, c),
{
    let mut img: Vec<u8> = vec![0u8; width * height];
    let hh: usize = if height >= 1 { height } else { 1 };
    let ww: usize = if width >= 1 { width } else { 1 };
    let mut r: usize = 0;
    while r < height
        invariant
            r <= height, width * height <= usize::MAX, height * 255 <= usize::MAX, width * 128 <= usize::MAX,
            hh == (if height >= 1 { height } else { 1 }), ww == (if width >= 1 { width } else { 1 }),
            img@.len() == width * height,
            forall|rr: int, cc: int| 0 <= rr < r && 0 <= cc < width ==>
                img@[rr * width + cc] == #[trigger] test_pixel(width, height, seed, rr, cc),
        decreases height - r,
    {
        let mut c: usize = 0;
        while c < width
            invariant
                r < height, c <= width, width * height <= usize::MAX, height * 255 <= usize::MAX,
                width * 128 <= usize::MAX,
                hh == (if height >= 1 { height } else { 1 }), ww == (if width >= 1 { width } else { 1 }),
                img@.len() == width * height,
                forall|rr: int, cc: int| 0 <= rr < height && 0 <= cc < width && (rr < r || (rr == r && cc < c)) ==>
                    img@[rr * width + cc] == #[trigger] test_pixel(width, height, seed, rr, cc),
            decreases width - c,
        {
            proof {
                assert(r * width + c < width * height) by (nonlinear_arith) requires r < height, c < width;
                crate::dsp::fwd_txfm::lemma_raster_injective(width as int);
            }
            let v: u8 = test_pixel_exec(width, height, hh, ww, seed, r, c);
            let ghost before = img@;
            img.set(r * width + c, v);
            proof {
                assert forall|rr: int, cc: int| 0 <= rr < height && 0 <= cc < width && (rr < r || (rr == r && cc < c + 1))
                    implies img@[rr * width + cc] == #[trigger] test_pixel(width, height, seed, rr, cc) by {
                    if rr != r || cc != c {
                        assert(crate::dsp::fwd_txfm::raster(rr, cc, width as int)
                            != crate::dsp::fwd_txfm::raster(r as int, c as int, width as int));
                        assert(0 <= rr * width + cc < width * height) by (nonlinear_arith)
                            requires 0 <= rr < height, 0 <= cc < width;
                    }
                }
            }
            c = c + 1;
        }
        r = r + 1;
    }
    img
}

/// A test image (seed 42) and a reference whose pixel (r, c) is the image's pixel
/// (r + dy, c + dx), each coordinate clamped into the image.
pub fn generate_test_image_pair(width: usize, height: usize, dx: i32, dy: i32) -> (r: (Vec<u8>, Vec<u8>))
    requires
        width * height <= usize::MAX,
        height * 255 <= usize::MAX,
        width * 128 <= usize::MAX,
        width <= 0x7fff_ffff, height <= 0x7fff_ffff,
        height > 0 ==> i32::MIN <= dy && height - 1 + dy <= i32::MAX,
        width > 0 ==> i32::MIN <= dx && width - 1 + dx <= i32::MAX,
    ensures
        r.0@.len() == width * height,
        r.1@.len() == width * height,
        forall|rr: int, c: int| 0 <= rr < height && 0 <= c < width ==>
            r.0@[rr * width + c] == #[trigger] test_pixel(width, height, 42, rr, c),
        forall|rr: int, c: int| 0 <= rr < height && 0 <= c < width ==>
            #[trigger] r.1@[rr * width + c] == test_pixel(width, height, 42,
                clampi(rr + dy, 0, height - 1), clampi(c + dx, 0, width - 1)),
{
    let src = generate_test_image(width, height, 42);
    let mut ref_img: Vec<u8> = vec![128u8; width * height];
    let mut r: usize = 0;
    while r < height
        invariant
            r <= height, width * height <= usize::MAX, width <= 0x7fff_ffff, height <= 0x7fff_ffff,
            height > 0 ==> i32::MIN <= dy && height - 1 + dy <= i32::MAX,
            width > 0 ==> i32::MIN <= dx && width - 1 + dx <= i32::MAX,
            src@.len() == width * height, ref_img@.len() == width * height,
            forall|rr: int, c: int| 0 <= rr < height && 0 <= c < width ==>
                src@[rr * width + c] == #[trigger] test_pixel(width, height, 42, rr, c),
            forall|rr: int, c: int| 0 <= rr < r && 0 <= c < width ==>
                #[trigger] ref_img@[rr * width + c] == test_pixel(width, height, 42,
                    clampi(rr + dy, 0, height - 1), clampi(c + dx, 0, width - 1)),
        decreases height - r,
    {
        let mut c: usize = 0;
        while c < width
            invariant
                r < height, c <= width, width * height <= usize::MAX, width <= 0x7fff_ffff, height <= 0x7fff_ffff,
                i32::MIN <= dy && height - 1 + dy <= i32::MAX,
                width > 0 ==> i32::MIN <= dx && width - 1 + dx <= i32::MAX,
                src@.len() == width * height, ref_img@.len() == width * height,
                forall|rr: int, c: int| 0 <= rr < height && 0 <= c < width ==>
                    src@[rr * width + c] == #[trigger] test_pixel(width, height, 42, rr, c),
                forall|rr: int, cc: int| 0 <= rr < height && 0 <= cc < width && (rr < r || (rr == r && cc < c)) ==>
                    #[trigger] ref_img@[rr * width + cc] == test_pixel(width, height, 42,
                        clampi(rr + dy, 0, height - 1), clampi(cc + dx, 0, width - 1)),
            decreases width - c,
        {
            let sy: i64 = r as i64 + dy as i64;
            let sx: i64 = c as i64 + dx as i64;
            let sr: usize = if sy < 0 { 0 } else if sy > height as i64 - 1 { height - 1 } else { sy as usize };
            let sc: usize = if sx < 0 { 0 } else if sx > width as i64 - 1 { width - 1 } else { sx as usize };
            proof {
                assert(sr * width + sc < width * height) by (nonlinear_arith) requires sr < height, sc < width;
                assert(r * width + c < width * height) by (nonlinear_arith) requires r < height, c < width;
                assert(src@[sr * width + sc] == test_pixel(width, height, 42, sr as int, sc as int));
                crate::dsp::fwd_txfm::lemma_raster_injective(width as int);
            }
            let v: u8 = src[sr * width + sc];
            let ghost before = ref_img@;
            ref_img.set(r * width + c, v);
            proof {
                assert forall|rr: int, cc: int| 0 <= rr < height && 0 <= cc < width && (rr < r || (rr == r && cc < c + 1))
                    implies #[trigger] ref_img@[rr * width + cc] == test_pixel(width, height, 42,
                        clampi(rr + dy, 0, height - 1), clampi(cc + dx, 0, width - 1)) by {
                    if rr != r || cc != c {
                        assert(crate::dsp::fwd_txfm::raster(rr, cc, width as int)
                            != crate::dsp::fwd_txfm::raster(r as int, c as int, width as int));
                        assert(0 <= rr * width + cc < width * height) by (nonlinear_arith)
                            requires 0 <= rr < height, 0 <= cc < width;
                    }
                }
            }
            c = c + 1;
        }
        r = r + 1;
    }
    (src, ref_img)
}

} // verus!
