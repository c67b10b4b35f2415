//! Two-dimensional convolution of multi-channel integer images.

use vstd::prelude::*;
use crate::grid::{Grid, Grid3, lemma_index3_in_bounds, lemma_position_of_index};

verus! {

/// A convolution kernel.
#[derive(Debug, Clone)]
pub struct Kernel<T> {
    pub data: Grid<T>,
}

impl<T> Kernel<T> {
    pub fn new(data: Grid<T>) -> (k: Self)
        ensures
            k.data == data,
    {
        Kernel { data }
    }
}

/// Channel `ch` of pixel (`y`, `x`), or zero outside the image.
pub open spec fn padded(img: Grid3<i32>, y: int, x: int, ch: int) -> int {
    if 0 <= y < img.height && 0 <= x < img.width {
        img.at(y, x, ch) as int
    } else {
        0
    }
}

/// Products of kernel row `i` (its first `n` entries) with the image window
/// whose top-left corner is one pixel above and left of (`y`, `x`).
pub open spec fn kernel_row_sum(img: Grid3<i32>, k: Grid<i32>, y: int, x: int, ch: int, i: int, n: int) -> int
    decreases n,
{
    if n <= 0 {
        0
    } else {
        kernel_row_sum(img, k, y, x, ch, i, n - 1) + padded(img, y + i - 1, x + n - 2, ch) * (k.at(
            i,
            n - 1,
        ) as int)
    }
}

/// Sum of the first `m` kernel rows' products.
pub open spec fn window_sum(img: Grid3<i32>, k: Grid<i32>, y: int, x: int, ch: int, m: int) -> int
    decreases m,
{
    if m <= 0 {
        0
    } else {
        window_sum(img, k, y, x, ch, m - 1) + kernel_row_sum(img, k, y, x, ch, m - 1, k.cols as int)
    }
}

/// Output of the convolution at channel `ch` of pixel (`y`, `x`): the kernel
/// laid over the zero-padded image with its top-left entry one pixel above
/// and left of the pixel, entries multiplied and summed (no kernel flip).
pub open spec fn conv_value(img: Grid3<i32>, k: Grid<i32>, y: int, x: int, ch: int) -> int {
    window_sum(img, k, y, x, ch, k.rows as int)
}

/// The kernel shapes the one-pixel zero padding supports: two or three rows,
/// at most three columns (a kernel without columns gives zeros).
pub open spec fn supported_kernel(k: Grid<i32>) -> bool {
    2 <= k.rows <= 3 && k.cols <= 3
}

/// The 3 x 3 kernel whose centre is 1 and other entries 0.
pub open spec fn is_identity_kernel(k: Grid<i32>) -> bool {
    &&& k.wf()
    &&& k.rows == 3
    &&& k.cols == 3
    &&& forall|i: int, j: int|
        0 <= i < 3 && 0 <= j < 3 ==> #[trigger] k.at(i, j) == if i == 1 && j == 1 {
            1i32
        } else {
            0i32
        }
}

/// Convolving with the identity kernel gives back the image.
pub proof fn lemma_identity_kernel(img: Grid3<i32>, k: Grid<i32>, y: int, x: int, ch: int)
    requires
        is_identity_kernel(k),
        0 <= y < img.height,
        0 <= x < img.width,
    ensures
        conv_value(img, k, y, x, ch) == img.at(y, x, ch) as int,
{
    reveal_with_fuel(window_sum, 4);
    reveal_with_fuel(kernel_row_sum, 4);
    assert(k.at(0, 0) == 0 && k.at(0, 1) == 0 && k.at(0, 2) == 0);
    assert(k.at(1, 0) == 0 && k.at(1, 1) == 1 && k.at(1, 2) == 0);
    assert(k.at(2, 0) == 0 && k.at(2, 1) == 0 && k.at(2, 2) == 0);
}

/// Kernels `k1`, `k2`, `k3` of one shape with `k3 = k1 + k2` entry by entry.
pub open spec fn kernel_sum(k1: Grid<i32>, k2: Grid<i32>, k3: Grid<i32>) -> bool {
    &&& k1.rows == k2.rows && k2.rows == k3.rows
    &&& k1.cols == k2.cols && k2.cols == k3.cols
    &&& forall|i: int, j: int|
        0 <= i < k3.rows && 0 <= j < k3.cols ==> #[trigger] k3.at(i, j) as int == k1.at(i, j) as int
            + k2.at(i, j) as int
}

proof fn lemma_row_sum_linear(
    img: Grid3<i32>,
    k1: Grid<i32>,
    k2: Grid<i32>,
    k3: Grid<i32>,
    y: int,
    x: int,
    ch: int,
    i: int,
    n: int,
)
    requires
        kernel_sum(k1, k2, k3),
        0 <= i < k3.rows,
        n <= k3.cols,
    ensures
        kernel_row_sum(img, k3, y, x, ch, i, n) == kernel_row_sum(img, k1, y, x, ch, i, n)
            + kernel_row_sum(img, k2, y, x, ch, i, n),
    decreases n,
{
    if n > 0 {
        lemma_row_sum_linear(img, k1, k2, k3, y, x, ch, i, n - 1);
        let v = padded(img, y + i - 1, x + n - 2, ch);
        assert(k3.at(i, n - 1) as int == k1.at(i, n - 1) as int + k2.at(i, n - 1) as int);
        vstd::arithmetic::mul::lemma_mul_is_distributive_add(
            v,
            k1.at(i, n - 1) as int,
            k2.at(i, n - 1) as int,
        );
    }
}

proof fn lemma_window_sum_linear(
    img: Grid3<i32>,
    k1: Grid<i32>,
    k2: Grid<i32>,
    k3: Grid<i32>,
    y: int,
    x: int,
    ch: int,
    m: int,
)
    requires
        kernel_sum(k1, k2, k3),
        m <= k3.rows,
    ensures
        window_sum(img, k3, y, x, ch, m) == window_sum(img, k1, y, x, ch, m) + window_sum(
            img,
            k2,
            y,
            x,
            ch,
            m,
        ),
    decreases m,
{
    if m > 0 {
        lemma_window_sum_linear(img, k1, k2, k3, y, x, ch, m - 1);
        lemma_row_sum_linear(img, k1, k2, k3, y, x, ch, m - 1, k3.cols as int);
    }
}

/// Convolution is linear in the kernel: for kernels of one shape, the kernel
/// whose entries are the sums of two kernels' entries gives, at every pixel
/// and channel, the sum of their two outputs. In particular negating a
/// kernel negates the output, and a kernel whose entries cancel gives zero.
pub proof fn lemma_conv_linear_in_kernel(
    img: Grid3<i32>,
    k1: Grid<i32>,
    k2: Grid<i32>,
    k3: Grid<i32>,
    y: int,
    x: int,
    ch: int,
)
    requires
        kernel_sum(k1, k2, k3),
    ensures
        conv_value(img, k3, y, x, ch) == conv_value(img, k1, y, x, ch) + conv_value(img, k2, y, x, ch),
{
    lemma_window_sum_linear(img, k1, k2, k3, y, x, ch, k3.rows as int);
}

/// On an image of one constant value, a 3 x 3 kernel whose entries sum to
/// zero gives zero at every pixel whose whole window lies in the image.
pub proof fn lemma_zero_sum_kernel_on_constant_image(img: Grid3<i32>, k: Grid<i32>, y: int, x: int, ch: int, v: int)
    requires
        k.rows == 3,
        k.cols == 3,
        1 <= y && y + 1 < img.height,
        1 <= x && x + 1 < img.width,
        forall|p: int, q: int| 0 <= p < img.height && 0 <= q < img.width ==> #[trigger] img.at(p, q, ch) as int == v,
        k.at(0, 0) + k.at(0, 1) + k.at(0, 2) + k.at(1, 0) + k.at(1, 1) + k.at(1, 2) + k.at(2, 0) + k.at(2, 1)
            + k.at(2, 2) == 0,
    ensures
        conv_value(img, k, y, x, ch) == 0,
{
    reveal_with_fuel(window_sum, 4);
    reveal_with_fuel(kernel_row_sum, 4);
    assert(img.at(y - 1, x - 1, ch) as int == v);
    assert(img.at(y - 1, x, ch) as int == v);
    assert(img.at(y - 1, x + 1, ch) as int == v);
    assert(img.at(y, x - 1, ch) as int == v);
    assert(img.at(y, x, ch) as int == v);
    assert(img.at(y, x + 1, ch) as int == v);
    assert(img.at(y + 1, x - 1, ch) as int == v);
    assert(img.at(y + 1, x, ch) as int == v);
    assert(img.at(y + 1, x + 1, ch) as int == v);
    let a = k.at(0, 0) as int;
    let b = k.at(0, 1) as int;
    let c = k.at(0, 2) as int;
    let d = k.at(1, 0) as int;
    let e = k.at(1, 1) as int;
    let f = k.at(1, 2) as int;
    let g = k.at(2, 0) as int;
    let h = k.at(2, 1) as int;
    let l = k.at(2, 2) as int;
    assert(v * a + v * b + v * c + v * d + v * e + v * f + v * g + v * h + v * l == v * (a + b + c + d + e
        + f + g + h + l)) by (nonlinear_arith);
}

proof fn lemma_product_bound(a: int, b: int)
    requires
        -0x8000_0000 <= a <= 0x7fff_ffff,
        -0x8000_0000 <= b <= 0x7fff_ffff,
    ensures
        -0x4000_0000_0000_0000 <= a * b <= 0x4000_0000_0000_0000,
{
    assert(-0x4000_0000_0000_0000 <= a * b <= 0x4000_0000_0000_0000) by (nonlinear_arith)
        requires
            -0x8000_0000 <= a <= 0x7fff_ffff,
            -0x8000_0000 <= b <= 0x7fff_ffff,
    ;
}

impl Grid3<i32> {
    /// Convolves every channel of the image with `kernel`; the output has
    /// the shape of the image. Each output value must fit in an `i32`.
    pub fn conv_2d(&self, kernel: &Kernel<i32>) -> (out: Grid3<i32>)
        requires
            self.wf(),
            kernel.data.wf(),
            supported_kernel(kernel.data),
            forall|y: int, x: int, ch: int|
                0 <= y < self.height && 0 <= x < self.width && 0 <= ch < self.channels ==> i32::MIN
                    <= #[trigger] conv_value(*self, kernel.data, y, x, ch) <= i32::MAX,
        ensures
            out.wf(),
            out.height == self.height,
            out.width == self.width,
            out.channels == self.channels,
            forall|y: int, x: int, ch: int|
                0 <= y < self.height && 0 <= x < self.width && 0 <= ch < self.channels ==> #[trigger] out.at(
                    y,
                    x,
                    ch,
                ) as int == conv_value(*self, kernel.data, y, x, ch),
    {
        let k = &kernel.data;
        let height = self.height;
        let width = self.width;
        let channels = self.channels;
        let mut out: Vec<i32> = Vec::new();
        let mut y: usize = 0;
        assert(0 * width * channels == 0) by (nonlinear_arith);
        while y < height
            invariant
                self.wf(),
                k.wf(),
                supported_kernel(*k),
                *k == kernel.data,
                height == self.height,
                width == self.width,
                channels == self.channels,
                forall|y: int, x: int, ch: int|
                    0 <= y < self.height && 0 <= x < self.width && 0 <= ch < self.channels ==> i32::MIN
                        <= #[trigger] conv_value(*self, kernel.data, y, x, ch) <= i32::MAX,
                y <= height,
                out@.len() == y * width * channels,
                forall|i: int|
                    0 <= i < out@.len() ==> #[trigger] out@[i] as int == conv_value(
                        *self,
                        *k,
                        i / (width * channels) as int,
                        (i % (width * channels) as int) / channels as int,
                        i % channels as int,
                    ),
            decreases height - y,
        {
            let mut x: usize = 0;
            while x < width
                invariant
                    self.wf(),
                    k.wf(),
                    supported_kernel(*k),
                    *k == kernel.data,
                    height == self.height,
                    width == self.width,
                    channels == self.channels,
                    forall|y: int, x: int, ch: int|
                        0 <= y < self.height && 0 <= x < self.width && 0 <= ch < self.channels
                            ==> i32::MIN <= #[trigger] conv_value(*self, kernel.data, y, x, ch)
                            <= i32::MAX,
                    y < height,
                    x <= width,
                    out@.len() == (y * width + x) * channels,
                    forall|i: int|
                        0 <= i < out@.len() ==> #[trigger] out@[i] as int == conv_value(
                            *self,
                            *k,
                            i / (width * channels) as int,
                            (i % (width * channels) as int) / channels as int,
                            i % channels as int,
                        ),
                decreases width - x,
            {
                let mut channel: usize = 0;
                while channel < channels
                    invariant
                        self.wf(),
                        k.wf(),
                        supported_kernel(*k),
                        *k == kernel.data,
                        height == self.height,
                        width == self.width,
                        channels == self.channels,
                        forall|y: int, x: int, ch: int|
                            0 <= y < self.height && 0 <= x < self.width && 0 <= ch < self.channels
                                ==> i32::MIN <= #[trigger] conv_value(*self, kernel.data, y, x, ch)
                                <= i32::MAX,
                        y < height,
                        x < width,
                        channel <= channels,
                        out@.len() == (y * width + x) * channels + channel,
                        forall|i: int|
                            0 <= i < out@.len() ==> #[trigger] out@[i] as int == conv_value(
                                *self,
                                *k,
                                i / (width * channels) as int,
                                (i % (width * channels) as int) / channels as int,
                                i % channels as int,
                            ),
                    decreases channels - channel,
                {
                    let v = self.window_value(k, y, x, channel);
                    proof {
                        lemma_position_of_index(
                            y as int,
                            x as int,
                            channel as int,
                            height as int,
                            width as int,
                            channels as int,
                        );
                    }
                    out.push(v as i32);
                    channel = channel + 1;
                }
                proof {
                    assert((y * width + x) * channels + channels == (y * width + (x + 1)) * channels)
                        by (nonlinear_arith);
                }
                x = x + 1;
            }
            proof {
                assert((y * width + width) * channels == (y + 1) * width * channels)
                    by (nonlinear_arith);
            }
            y = y + 1;
        }
        proof {
            assert forall|yy: int, xx: int, ch: int|
                0 <= yy < height && 0 <= xx < width && 0 <= ch < channels implies #[trigger] out@[(
                yy * width + xx) * channels + ch] as int == conv_value(*self, *k, yy, xx, ch) by {
                lemma_index3_in_bounds(yy, xx, ch, height as int, width as int, channels as int);
                lemma_position_of_index(yy, xx, ch, height as int, width as int, channels as int);
            }
        }
        Grid3 { height, width, channels, data: out }
    }

    /// Convolution value at channel `ch` of pixel (`y`, `x`).
    fn window_value(&self, k: &Grid<i32>, y: usize, x: usize, ch: usize) -> (v: i128)
        requires
            self.wf(),
            k.wf(),
            supported_kernel(*k),
            y < self.height,
            x < self.width,
            ch < self.channels,
        ensures
            v as int == conv_value(*self, *k, y as int, x as int, ch as int),
    {
        let mut acc: i128 = 0;
        let mut i: usize = 0;
        while i < k.rows
            invariant
                self.wf(),
                k.wf(),
                supported_kernel(*k),
                y < self.height,
                x < self.width,
                ch < self.channels,
                i <= k.rows,
                acc as int == window_sum(*self, *k, y as int, x as int, ch as int, i as int),
                -(i as int) * 3 * 0x4000_0000_0000_0000 <= acc as int <= (i as int) * 3
                    * 0x4000_0000_0000_0000,
            decreases k.rows - i,
        {
            let mut row_acc: i128 = 0;
            let mut j: usize = 0;
            while j < k.cols
                invariant
                    self.wf(),
                    k.wf(),
                    supported_kernel(*k),
                    y < self.height,
                    x < self.width,
                    ch < self.channels,
                    i < k.rows,
                    j <= k.cols,
                    row_acc as int == kernel_row_sum(*self, *k, y as int, x as int, ch as int, i as int, j as int),
                    -(j as int) * 0x4000_0000_0000_0000 <= row_acc as int <= (j as int)
                        * 0x4000_0000_0000_0000,
                decreases k.cols - j,
            {
                let (row_in, r) = if i == 0 {
                    if y == 0 {
                        (false, 0)
                    } else {
                        (true, y - 1)
                    }
                } else {
                    (y + (i - 1) < self.height, y + (i - 1))
                };
                let (col_in, c) = if j == 0 {
                    if x == 0 {
                        (false, 0)
                    } else {
                        (true, x - 1)
                    }
                } else {
                    (x + (j - 1) < self.width, x + (j - 1))
                };
                let pixel: i32 = if row_in && col_in {
                    *self.get(r, c, ch)
                } else {
                    0
                };
                assert(pixel as int == padded(*self, y + i - 1, x + j - 1, ch as int));
                let weight: i32 = *k.get(i, j);
                proof {
                    lemma_product_bound(pixel as int, weight as int);
                }
                let ghost prev = row_acc;
                row_acc = row_acc + (pixel as i128) * (weight as i128);
                assert(row_acc as int == prev as int + (pixel as int) * (weight as int));
                assert(kernel_row_sum(*self, *k, y as int, x as int, ch as int, i as int, j + 1)
                    == kernel_row_sum(*self, *k, y as int, x as int, ch as int, i as int, j as int)
                    + padded(*self, y + i - 1, x + j - 1, ch as int) * (k.at(i as int, j as int) as int));
                j = j + 1;
            }
            acc = acc + row_acc;
            i = i + 1;
        }
        acc
    }
}

} // verus!
