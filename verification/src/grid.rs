//! Dense row-major two-dimensional grids (gray images, kernels, matrices).

use vstd::prelude::*;

verus! {

/// `r * cols + c` stays below `rows * cols` for an in-bounds position.
pub proof fn lemma_index_in_bounds(r: int, c: int, rows: int, cols: int)
    requires
        0 <= r < rows,
        0 <= c < cols,
    ensures
        0 <= r * cols + c < rows * cols,
{
    assert(0 <= r * cols) by (nonlinear_arith)
        requires
            0 <= r,
            0 <= c < cols,
    ;
    assert(r * cols + c < rows * cols) by (nonlinear_arith)
        requires
            0 <= r < rows,
            0 <= c < cols,
    ;
}

/// A `rows` x `cols` grid stored row by row.
#[derive(Debug, Clone)]
pub struct Grid<T> {
    pub rows: usize,
    pub cols: usize,
    pub data: Vec<T>,
}

impl<T> Grid<T> {
    /// The grid holds exactly one value per position.
    pub open spec fn wf(&self) -> bool {
        self.data@.len() == self.rows * self.cols
    }

    /// The value at row `r`, column `c`.
    pub open spec fn at(&self, r: int, c: int) -> T {
        self.data@[r * self.cols + c]
    }

    /// Builds a grid from its row-major values; `None` when the number of
    /// values is not `rows * cols`.
    pub fn from_shape_vec(rows: usize, cols: usize, data: Vec<T>) -> (g: Option<Self>)
        ensures
            g.is_some() <==> data@.len() == rows * cols,
            g matches Some(g) ==> g.wf() && g.rows == rows && g.cols == cols && g.data@ == data@,
    {
        let len = data.len();
        let n = rows.checked_mul(cols);
        match n {
            Some(n) => {
                if len == n {
                    Some(Grid { rows, cols, data })
                } else {
                    None
                }
            },
            None => {
                None
            },
        }
    }

    /// Reference to the value at (`r`, `c`).
    pub fn get(&self, r: usize, c: usize) -> (v: &T)
        requires
            self.wf(),
            r < self.rows,
            c < self.cols,
        ensures
            *v == self.at(r as int, c as int),
    {
        let len = self.data.len();
        proof {
            lemma_index_in_bounds(r as int, c as int, self.rows as int, self.cols as int);
        }
        &self.data[r * self.cols + c]
    }
}

/// `(y * width + x) * channels + ch` stays below `height * width * channels`
/// for an in-bounds position.
pub proof fn lemma_index3_in_bounds(
    y: int,
    x: int,
    ch: int,
    height: int,
    width: int,
    channels: int,
)
    requires
        0 <= y < height,
        0 <= x < width,
        0 <= ch < channels,
    ensures
        0 <= (y * width + x) * channels + ch < height * width * channels,
{
    lemma_index_in_bounds(y, x, height, width);
    lemma_index_in_bounds(y * width + x, ch, height * width, channels);
    assert(height * width * channels == (height * width) * channels) by (nonlinear_arith);
}

/// A `height` x `width` image with `channels` values per pixel, stored pixel
/// by pixel, row by row.
#[derive(Debug, Clone)]
pub struct Grid3<T> {
    pub height: usize,
    pub width: usize,
    pub channels: usize,
    pub data: Vec<T>,
}

impl<T> Grid3<T> {
    /// The image holds exactly one value per pixel and channel.
    pub open spec fn wf(&self) -> bool {
        self.data@.len() == self.height * self.width * self.channels
    }

    /// Position of (`y`, `x`, `ch`) in `data`.
    pub open spec fn index(&self, y: int, x: int, ch: int) -> int {
        (y * self.width + x) * self.channels + ch
    }

    /// Channel `ch` of pixel (`y`, `x`).
    pub open spec fn at(&self, y: int, x: int, ch: int) -> T {
        self.data@[self.index(y, x, ch)]
    }

    /// Builds an image from its values; `None` when their number is not
    /// `height * width * channels`.
    pub fn from_shape_vec(height: usize, width: usize, channels: usize, data: Vec<T>) -> (g: Option<
        Self,
    >)
        ensures
            g.is_some() <==> data@.len() == height * width * channels,
            g matches Some(g) ==> g.wf() && g.height == height && g.width == width && g.channels
                == channels && g.data@ == data@,
    {
        let len = data.len();
        proof {
            assert(height * width * channels == (height * width) * channels) by (nonlinear_arith);
        }
        let n = if height == 0 || width == 0 || channels == 0 {
            proof {
                assert(height * width * channels == 0) by (nonlinear_arith)
                    requires
                        height == 0 || width == 0 || channels == 0,
                ;
            }
            Some(0usize)
        } else {
            match height.checked_mul(width) {
                Some(hw) => hw.checked_mul(channels),
                None => {
                    proof {
                        assert(height * width * channels >= height * width) by (nonlinear_arith)
                            requires
                                channels >= 1,
                                height * width >= 0,
                        ;
                    }
                    None
                },
            }
        };
        match n {
            Some(n) => {
                if len == n {
                    Some(Grid3 { height, width, channels, data })
                } else {
                    None
                }
            },
            None => None,
        }
    }

    /// Sets channel `ch` of pixel (`y`, `x`) to `v`, leaving all else unchanged.
    pub fn set(&mut self, y: usize, x: usize, ch: usize, v: T)
        requires
            old(self).wf(),
            y < old(self).height,
            x < old(self).width,
            ch < old(self).channels,
        ensures
            final(self).wf(),
            final(self).height == old(self).height,
            final(self).width == old(self).width,
            final(self).channels == old(self).channels,
            forall|p: int, q: int, c: int|
                0 <= p < old(self).height && 0 <= q < old(self).width && 0 <= c < old(self).channels
                    ==> #[trigger] final(self).at(p, q, c) == if p == y && q == x && c == ch {
                    v
                } else {
                    old(self).at(p, q, c)
                },
    {
        let ghost before = *self;
        let len = self.data.len();
        proof {
            self.lemma_index_fits(y as int, x as int, ch as int);
        }
        let i = (y * self.width + x) * self.channels + ch;
        self.data.set(i, v);
        proof {
            assert forall|p: int, q: int, c: int|
                0 <= p < before.height && 0 <= q < before.width && 0 <= c < before.channels implies #[trigger] self.at(
                    p,
                    q,
                    c,
                ) == if p == y && q == x && c == ch {
                    v
                } else {
                    before.at(p, q, c)
                } by {
                lemma_index3_in_bounds(p, q, c, before.height as int, before.width as int, before.channels as int);
                if before.index(p, q, c) == before.index(y as int, x as int, ch as int) {
                    lemma_index3_injective(
                        p,
                        q,
                        c,
                        y as int,
                        x as int,
                        ch as int,
                        before.height as int,
                        before.width as int,
                        before.channels as int,
                    );
                }
            }
        }
    }

    /// Every step of the position computation stays in `usize`.
    proof fn lemma_index_fits(&self, y: int, x: int, ch: int)
        requires
            self.wf(),
            0 <= y < self.height,
            0 <= x < self.width,
            0 <= ch < self.channels,
            self.data@.len() <= usize::MAX,
        ensures
            0 <= y * self.width + x < self.height * self.width <= usize::MAX,
            0 <= (y * self.width + x) * self.channels <= (y * self.width + x) * self.channels + ch
                < self.data@.len(),
    {
        lemma_index3_in_bounds(y, x, ch, self.height as int, self.width as int, self.channels as int);
        lemma_index_in_bounds(y, x, self.height as int, self.width as int);
        assert(self.height * self.width * self.channels == (self.height * self.width) * self.channels)
            by (nonlinear_arith);
        assert((self.height * self.width) * self.channels >= self.height * self.width) by (nonlinear_arith)
            requires
                self.channels >= 1,
                self.height * self.width >= 0,
        ;
        assert((y * self.width + x) * self.channels >= 0) by (nonlinear_arith)
            requires
                y * self.width + x >= 0,
                self.channels >= 0,
        ;
    }

    /// Reference to channel `ch` of pixel (`y`, `x`).
    pub fn get(&self, y: usize, x: usize, ch: usize) -> (v: &T)
        requires
            self.wf(),
            y < self.height,
            x < self.width,
            ch < self.channels,
        ensures
            *v == self.at(y as int, x as int, ch as int),
    {
        let len = self.data.len();
        proof {
            lemma_index3_in_bounds(
                y as int,
                x as int,
                ch as int,
                self.height as int,
                self.width as int,
                self.channels as int,
            );
            lemma_index_in_bounds(y as int, x as int, self.height as int, self.width as int);
            assert(self.height * self.width * self.channels == (self.height * self.width)
                * self.channels) by (nonlinear_arith);
            assert((self.height * self.width) * self.channels >= self.height * self.width) by (nonlinear_arith)
                requires
                    self.channels >= 1,
                    self.height * self.width >= 0,
            ;
            assert((y * self.width + x) * self.channels >= 0) by (nonlinear_arith)
                requires
                    y * self.width + x >= 0,
                    self.channels >= 0,
            ;
        }
        &self.data[(y * self.width + x) * self.channels + ch]
    }
}

/// The position `(y * width + x) * channels + ch` of a pixel value recovers
/// its row, column and channel.
pub proof fn lemma_position_of_index(y: int, x: int, ch: int, height: int, width: int, channels: int)
    requires
        0 <= y < height,
        0 <= x < width,
        0 <= ch < channels,
    ensures
        ((y * width + x) * channels + ch) / (width * channels) == y,
        (((y * width + x) * channels + ch) % (width * channels)) / channels == x,
        ((y * width + x) * channels + ch) % channels == ch,
{
    let i = (y * width + x) * channels + ch;
    assert(i == y * (width * channels) + (x * channels + ch)) by (nonlinear_arith)
        requires
            i == (y * width + x) * channels + ch,
    ;
    assert(0 <= x * channels + ch < width * channels) by (nonlinear_arith)
        requires
            0 <= x < width,
            0 <= ch < channels,
    ;
    vstd::arithmetic::div_mod::lemma_fundamental_div_mod_converse(
        i,
        width * channels,
        y,
        x * channels + ch,
    );
    vstd::arithmetic::div_mod::lemma_fundamental_div_mod_converse(
        x * channels + ch,
        channels,
        x,
        ch,
    );
    assert(i == (y * width + x) * channels + ch);
    vstd::arithmetic::div_mod::lemma_fundamental_div_mod_converse(
        i,
        channels,
        y * width + x,
        ch,
    );
}

/// Distinct pixel positions occupy distinct places in the buffer.
pub proof fn lemma_index3_injective(
    y1: int,
    x1: int,
    c1: int,
    y2: int,
    x2: int,
    c2: int,
    height: int,
    width: int,
    channels: int,
)
    requires
        0 <= y1 < height,
        0 <= x1 < width,
        0 <= c1 < channels,
        0 <= y2 < height,
        0 <= x2 < width,
        0 <= c2 < channels,
        (y1 * width + x1) * channels + c1 == (y2 * width + x2) * channels + c2,
    ensures
        y1 == y2 && x1 == x2 && c1 == c2,
{
    lemma_position_of_index(y1, x1, c1, height, width, channels);
    lemma_position_of_index(y2, x2, c2, height, width, channels);
}

} // verus!
