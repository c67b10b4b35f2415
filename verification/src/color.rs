//! Colour pixels and colour-to-gray conversion.

use vstd::prelude::*;
use crate::grid::{Grid, Grid3, lemma_index_in_bounds};

verus! {

/// An 8-bit red, green, blue colour.
#[derive(Debug, Clone, Copy, PartialEq, Eq)]
pub struct RGB(pub u8, pub u8, pub u8);

impl RGB {
    pub fn new(r: u8, g: u8, b: u8) -> (c: RGB)
        ensures
            c.0 == r,
            c.1 == g,
            c.2 == b,
    {
        RGB(r, g, b)
    }
}

/// Luma of an RGB triple with the integer weights 30/59/11, rounded to nearest.
pub open spec fn gray_of(r: int, g: int, b: int) -> int {
    (r * 30 + g * 59 + b * 11 + 50) / 100
}

/// The gray value of 8-bit channels is an 8-bit value, and a pixel whose
/// three channels are equal keeps that value.
pub proof fn lemma_gray_of_range(r: u8, g: u8, b: u8)
    ensures
        0 <= gray_of(r as int, g as int, b as int) <= 255,
        r == g && g == b ==> gray_of(r as int, g as int, b as int) == r as int,
{
}

/// Gray image of a colour image whose pixels hold at least red, green and
/// blue (further channels, such as alpha, are ignored).
pub fn rgba_to_gray(img: &Grid3<u8>) -> (gray: Grid<u8>)
    requires
        img.wf(),
        img.channels >= 3,
    ensures
        gray.wf(),
        gray.rows == img.height,
        gray.cols == img.width,
        forall|y: int, x: int|
            0 <= y < img.height && 0 <= x < img.width ==> #[trigger] gray.at(y, x) as int
                == gray_of(img.at(y, x, 0) as int, img.at(y, x, 1) as int, img.at(y, x, 2) as int),
{
    let height = img.height;
    let width = img.width;
    let mut color_data: Vec<u8> = Vec::new();
    let mut y: usize = 0;
    while y < height
        invariant
            img.wf(),
            img.channels >= 3,
            height == img.height,
            width == img.width,
            y <= height,
            color_data@.len() == y * width,
            forall|yy: int, xx: int|
                0 <= yy < y && 0 <= xx < width ==> #[trigger] color_data@[yy * width + xx] as int
                    == gray_of(img.at(yy, xx, 0) as int, img.at(yy, xx, 1) as int, img.at(yy, xx, 2) as int),
        decreases height - y,
    {
        let mut x: usize = 0;
        while x < width
            invariant
                img.wf(),
                img.channels >= 3,
                height == img.height,
                width == img.width,
                y < height,
                x <= width,
                color_data@.len() == y * width + x,
                forall|yy: int, xx: int|
                    0 <= yy < y && 0 <= xx < width ==> #[trigger] color_data@[yy * width + xx] as int
                        == gray_of(img.at(yy, xx, 0) as int, img.at(yy, xx, 1) as int, img.at(yy, xx, 2) as int),
                forall|xx: int|
                    0 <= xx < x ==> #[trigger] color_data@[y * width + xx] as int == gray_of(
                        img.at(y as int, xx, 0) as int,
                        img.at(y as int, xx, 1) as int,
                        img.at(y as int, xx, 2) as int,
                    ),
            decreases width - x,
        {
            let r = *img.get(y, x, 0) as usize;
            let g = *img.get(y, x, 1) as usize;
            let b = *img.get(y, x, 2) as usize;
            let gray = (r * 30 + g * 59 + b * 11 + 50) / 100;
            let gray = gray as u8;
            let ghost prev = color_data@;
            color_data.push(gray);
            proof {
                assert forall|yy: int, xx: int|
                    0 <= yy < y && 0 <= xx < width implies #[trigger] color_data@[yy * width + xx]
                    == prev[yy * width + xx] by {
                    lemma_index_in_bounds(yy, xx, y as int, width as int);
                }
            }
            x = x + 1;
        }
        proof {
            assert((y + 1) * width == y * width + width) by (nonlinear_arith);
            assert forall|yy: int, xx: int|
                0 <= yy < y + 1 && 0 <= xx < width implies #[trigger] color_data@[yy * width + xx] as int
                    == gray_of(img.at(yy, xx, 0) as int, img.at(yy, xx, 1) as int, img.at(yy, xx, 2) as int) by {
                if yy == y {
                } else {
                    lemma_index_in_bounds(yy, xx, y as int, width as int);
                }
            }
        }
        y = y + 1;
    }
    Grid { rows: height, cols: width, data: color_data }
}

} // verus!
