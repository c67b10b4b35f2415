//! Whole-buffer pixel operations of the image-processing front end.

use vstd::prelude::*;
use crate::grid::lemma_index_in_bounds;

verus! {

/// Sets every byte of `slices` to 255.
pub fn take_number_slice_by_shared_ref(slices: &mut [u8])
    ensures
        final(slices)@.len() == old(slices)@.len(),
        forall|i: int| 0 <= i < final(slices)@.len() ==> #[trigger] final(slices)@[i] == 255,
{
    let n = slices.len();
    let mut i: usize = 0;
    while i < n
        invariant
            n == slices@.len(),
            n == old(slices)@.len(),
            i <= n,
            forall|k: int| 0 <= k < i ==> #[trigger] slices@[k] == 255,
        decreases n - i,
    {
        slices[i] = 255;
        i = i + 1;
    }
}

/// RGBA bytes of a `width` x `height` image whose every byte is 117.
pub fn make_image_data(width: u32, height: u32) -> (v: Vec<u8>)
    requires
        width * height * 4 <= u32::MAX,
    ensures
        v@.len() == width * height * 4,
        forall|i: int| 0 <= i < v@.len() ==> #[trigger] v@[i] == 117,
{
    proof {
        assert(0 <= width * height) by (nonlinear_arith);
    }
    let total: u32 = width * height * 4;
    let mut v: Vec<u8> = Vec::new();
    let mut i: u32 = 0;
    while i < total
        invariant
            total == width * height * 4,
            i <= total,
            v@.len() == i,
            forall|k: int| 0 <= k < v@.len() ==> #[trigger] v@[k] == 117,
        decreases total - i,
    {
        v.push(117);
        i = i + 1;
    }
    v
}

/// What a random draw does to one pixel under salt-and-pepper noise.
#[derive(Debug, Clone, Copy, PartialEq, Eq)]
pub enum NoiseDraw {
    /// The pixel is left as it is.
    Keep,
    /// The pixel becomes opaque white.
    White,
    /// The pixel becomes opaque black.
    Black,
}

/// Draw `p` of the row-major scan (row `p / width`, column `p % width`)
/// lands on a pixel of the buffer, which holds `width` rows of `height`
/// pixels.
pub open spec fn draw_in_range(width: int, height: int, p: int) -> bool {
    p / width < width && p % width < height
}

/// Byte `i` of an RGBA buffer after the draws. The buffer holds `width` rows
/// of `height` pixels, pixel (`y`, `x`) at `y * height + x`; the draws scan
/// `height` rows of `width` columns, and draw `y * width + x` acts on pixel
/// (`y`, `x`): it keeps it, turns it white (all four bytes 255) or turns it
/// black (0, 0, 0 and alpha 255). Pixels that no draw reaches are kept.
pub open spec fn noisy_byte(data: Seq<u8>, draws: Seq<NoiseDraw>, width: int, height: int, i: int) -> u8 {
    let q = i / 4;
    let y = q / height;
    let x = q % height;
    if y < height && x < width {
        match draws[y * width + x] {
            NoiseDraw::Keep => data[i],
            NoiseDraw::White => 255,
            NoiseDraw::Black => if i % 4 == 3 {
                255
            } else {
                0
            },
        }
    } else {
        data[i]
    }
}

/// Applies salt-and-pepper noise to the RGBA bytes of an image: one draw per
/// pixel, scanning `height` rows of `width` columns, while the bytes are
/// laid out as `width` rows of `height` pixels (the two agree for a square
/// image). A draw that is not `Keep` must land inside that layout.
pub fn lets_papper_noise(data: &Vec<u8>, width: usize, height: usize, draws: &Vec<NoiseDraw>) -> (out:
    Vec<u8>)
    requires
        data@.len() == width * height * 4,
        draws@.len() == width * height,
        forall|p: int|
            0 <= p < draws@.len() && #[trigger] draws@[p] != NoiseDraw::Keep ==> draw_in_range(
                width as int,
                height as int,
                p,
            ),
    ensures
        out@.len() == data@.len(),
        forall|i: int|
            0 <= i < out@.len() ==> #[trigger] out@[i] == noisy_byte(
                data@,
                draws@,
                width as int,
                height as int,
                i,
            ),
{
    let n = draws.len();
    let mut out: Vec<u8> = data.clone();
    let total = out.len();
    let mut q: usize = 0;
    while q < n
        invariant
            total == out@.len(),
            n == draws@.len(),
            n == width * height,
            data@.len() == n * 4,
            out@.len() == n * 4,
            q <= n,
            forall|i: int|
                0 <= i < q * 4 ==> #[trigger] out@[i] == noisy_byte(
                    data@,
                    draws@,
                    width as int,
                    height as int,
                    i,
                ),
            forall|i: int| q * 4 <= i < n * 4 ==> #[trigger] out@[i] == data@[i],
        decreases n - q,
    {
        let base = q * 4;
        let y = q / height;
        let x = q % height;
        let ghost prev = out@;
        if y < height && x < width {
            proof {
                lemma_index_in_bounds(y as int, x as int, height as int, width as int);
                assert(height * width == width * height) by (nonlinear_arith);
            }
            let p = y * width + x;
            match draws[p] {
                NoiseDraw::Keep => {},
                NoiseDraw::White => {
                    out.set(base, 255);
                    out.set(base + 1, 255);
                    out.set(base + 2, 255);
                    out.set(base + 3, 255);
                },
                NoiseDraw::Black => {
                    out.set(base, 0);
                    out.set(base + 1, 0);
                    out.set(base + 2, 0);
                    out.set(base + 3, 255);
                },
            }
        }
        proof {
            assert forall|i: int| 0 <= i < (q + 1) * 4 implies #[trigger] out@[i] == noisy_byte(
                data@,
                draws@,
                width as int,
                height as int,
                i,
            ) by {
                if i >= q * 4 {
                    assert(i / 4 == q);
                }
            }
        }
        q = q + 1;
    }
    out
}

} // verus!
