//! Building blocks of the JPEG-style compression demo.

use vstd::prelude::*;
use crate::grid::{Grid, Grid3};

verus! {

/// The standard JPEG luminance quantisation table, row by row.
pub open spec fn luminance_table() -> Seq<u32> {
    seq![
        16, 11, 10, 16, 24, 40, 51, 61,
        12, 12, 14, 19, 26, 58, 60, 55,
        14, 13, 16, 24, 40, 57, 69, 56,
        14, 17, 22, 29, 51, 87, 80, 62,
        18, 22, 37, 56, 68, 109, 103, 77,
        24, 35, 55, 64, 81, 104, 113, 92,
        49, 64, 78, 87, 103, 121, 120, 101,
        72, 92, 95, 98, 112, 100, 103, 99,
    ]
}

/// The standard JPEG chrominance quantisation table, row by row.
pub open spec fn chrominance_table() -> Seq<u32> {
    seq![
        17, 18, 24, 47, 99, 99, 99, 99,
        18, 21, 26, 66, 99, 99, 99, 99,
        24, 26, 56, 99, 99, 99, 99, 99,
        47, 66, 99, 99, 99, 99, 99, 99,
        99, 99, 99, 99, 99, 99, 99, 99,
        99, 99, 99, 99, 99, 99, 99, 99,
        99, 99, 99, 99, 99, 99, 99, 99,
        99, 99, 99, 99, 99, 99, 99, 99,
    ]
}

/// Luminance quantisation table (8 x 8).
pub fn qy() -> (q: Grid<u32>)
    ensures
        q.wf(),
        q.rows == 8,
        q.cols == 8,
        q.data@ == luminance_table(),
{
    let data: Vec<u32> = vec![
        16, 11, 10, 16, 24, 40, 51, 61,
        12, 12, 14, 19, 26, 58, 60, 55,
        14, 13, 16, 24, 40, 57, 69, 56,
        14, 17, 22, 29, 51, 87, 80, 62,
        18, 22, 37, 56, 68, 109, 103, 77,
        24, 35, 55, 64, 81, 104, 113, 92,
        49, 64, 78, 87, 103, 121, 120, 101,
        72, 92, 95, 98, 112, 100, 103, 99,
    ];
    assert(data@ =~= luminance_table());
    assert(data@.len() == 8 * 8);
    Grid { rows: 8, cols: 8, data }
}

/// Chrominance quantisation table (8 x 8).
pub fn qc() -> (q: Grid<u32>)
    ensures
        q.wf(),
        q.rows == 8,
        q.cols == 8,
        q.data@ == chrominance_table(),
{
    let data: Vec<u32> = vec![
        17, 18, 24, 47, 99, 99, 99, 99,
        18, 21, 26, 66, 99, 99, 99, 99,
        24, 26, 56, 99, 99, 99, 99, 99,
        47, 66, 99, 99, 99, 99, 99, 99,
        99, 99, 99, 99, 99, 99, 99, 99,
        99, 99, 99, 99, 99, 99, 99, 99,
        99, 99, 99, 99, 99, 99, 99, 99,
        99, 99, 99, 99, 99, 99, 99, 99,
    ];
    assert(data@ =~= chrominance_table());
    assert(data@.len() == 8 * 8);
    Grid { rows: 8, cols: 8, data }
}

/// The 8 x 8 quantisation table stacked `times * times` times (where
/// `times = width / 8`) and read as a `width` x `height` grid: entry `i` of
/// the result is entry `i % 64` of the table.
pub fn tile_table(table: &Grid<u32>, width: usize, height: usize) -> (tiled: Grid<u32>)
    requires
        table.wf(),
        table.rows == 8,
        table.cols == 8,
        width >= 8,
        width * height <= usize::MAX,
        64 * ((width / 8) * (width / 8)) == width * height,
    ensures
        tiled.wf(),
        tiled.rows == width,
        tiled.cols == height,
        forall|i: int| 0 <= i < width * height ==> #[trigger] tiled.data@[i] == table.data@[i % 64],
{
    let times = width / 8;
    proof {
        assert(times >= 1);
        assert(times * times >= 1) by (nonlinear_arith)
            requires
                times >= 1,
        ;
        assert(times * times * 64 == 64 * (times * times)) by (nonlinear_arith);
        assert(times * times <= times * times * 64) by (nonlinear_arith)
            requires
                times * times >= 1,
        ;
    }
    let total = times * times * 64;
    let mut data: Vec<u32> = Vec::new();
    let mut i: usize = 0;
    while i < total
        invariant
            table.wf(),
            table.rows == 8,
            table.cols == 8,
            total == width * height,
            i <= total,
            data@.len() == i,
            forall|k: int| 0 <= k < i ==> #[trigger] data@[k] == table.data@[k % 64],
        decreases total - i,
    {
        data.push(table.data[i % 64]);
        i = i + 1;
    }
    Grid { rows: width, cols: height, data }
}

/// Value of channel `ch` at (`p`, `q`) after 4:1:1 chroma subsampling of the
/// first `2 * (height / 2)` rows and `2 * (width / 2)` columns: in each
/// aligned 2 x 2 block, the chroma channels 1 and 2 take the top-left pixel's
/// values; everything else is unchanged.
pub open spec fn subsampled<T>(img: Grid3<T>, width: int, height: int, p: int, q: int, ch: int) -> T {
    if (ch == 1 || ch == 2) && p < 2 * (height / 2) && q < 2 * (width / 2) {
        img.at(p - p % 2, q - q % 2, ch)
    } else {
        img.at(p, q, ch)
    }
}

/// Subsampling is idempotent: subsampling an image that is already the
/// subsampling of another changes nothing.
pub proof fn lemma_subsample_idempotent<T>(img: Grid3<T>, once: Grid3<T>, width: int, height: int)
    requires
        0 <= width,
        0 <= height,
        forall|p: int, q: int, ch: int|
            0 <= p < width && 0 <= q < height ==> #[trigger] once.at(p, q, ch) == subsampled(
                img,
                width,
                height,
                p,
                q,
                ch,
            ),
    ensures
        forall|p: int, q: int, ch: int|
            0 <= p < width && 0 <= q < height ==> #[trigger] subsampled(once, width, height, p, q, ch)
                == once.at(p, q, ch),
{
    assert forall|p: int, q: int, ch: int|
        0 <= p < width && 0 <= q < height implies #[trigger] subsampled(once, width, height, p, q, ch)
        == once.at(p, q, ch) by {
        if (ch == 1 || ch == 2) && p < 2 * (height / 2) && q < 2 * (width / 2) {
            let p0 = p - p % 2;
            let q0 = q - q % 2;
            assert(once.at(p0, q0, ch) == subsampled(img, width, height, p0, q0, ch));
            assert(p0 - p0 % 2 == p0);
            assert(q0 - q0 % 2 == q0);
        }
    }
}

/// What 4:1:1 subsampling does to an image (`after` related to `before` as
/// `chroma_subsample_411` promises): in the subsampled region (rows below
/// `2 * (height / 2)`, columns below `2 * (width / 2)`), every pixel of every
/// aligned 2 x 2 block carries in channels 1 and 2 the chroma its block's
/// top-left pixel had before; channel 0 and any further channel keep their
/// values everywhere, and so does every pixel outside the region.
pub proof fn lemma_subsample_blocks<T>(before: Grid3<T>, after: Grid3<T>, width: int, height: int)
    requires
        before.channels >= 3,
        forall|p: int, q: int, ch: int|
            0 <= p < width && 0 <= q < height && 0 <= ch < before.channels ==> #[trigger] after.at(p, q, ch)
                == subsampled(before, width, height, p, q, ch),
    ensures
        forall|p: int, q: int, ch: int|
            0 <= p < width && 0 <= q < height && p < 2 * (height / 2) && q < 2 * (width / 2) && (ch == 1
                || ch == 2) ==> #[trigger] after.at(p, q, ch) == before.at(p - p % 2, q - q % 2, ch),
        forall|p: int, q: int, ch: int|
            0 <= p < width && 0 <= q < height && 0 <= ch < before.channels && ch != 1 && ch != 2
                ==> #[trigger] after.at(p, q, ch) == before.at(p, q, ch),
        forall|p: int, q: int, ch: int|
            0 <= p < width && 0 <= q < height && 0 <= ch < before.channels && (p >= 2 * (height / 2) || q
                >= 2 * (width / 2)) ==> #[trigger] after.at(p, q, ch) == before.at(p, q, ch),
{
}

/// The quantisation tables are the standard ones of the JPEG standard
/// (ITU-T T.81, Annex K, tables K.1 and K.2), row by row.
pub proof fn lemma_standard_quantisation_tables()
    ensures
        luminance_table().len() == 64,
        chrominance_table().len() == 64,
        luminance_table().subrange(0, 8) =~= seq![16u32, 11, 10, 16, 24, 40, 51, 61],
        luminance_table().subrange(8, 16) =~= seq![12u32, 12, 14, 19, 26, 58, 60, 55],
        luminance_table().subrange(16, 24) =~= seq![14u32, 13, 16, 24, 40, 57, 69, 56],
        luminance_table().subrange(24, 32) =~= seq![14u32, 17, 22, 29, 51, 87, 80, 62],
        luminance_table().subrange(32, 40) =~= seq![18u32, 22, 37, 56, 68, 109, 103, 77],
        luminance_table().subrange(40, 48) =~= seq![24u32, 35, 55, 64, 81, 104, 113, 92],
        luminance_table().subrange(48, 56) =~= seq![49u32, 64, 78, 87, 103, 121, 120, 101],
        luminance_table().subrange(56, 64) =~= seq![72u32, 92, 95, 98, 112, 100, 103, 99],
        chrominance_table().subrange(0, 8) =~= seq![17u32, 18, 24, 47, 99, 99, 99, 99],
        chrominance_table().subrange(8, 16) =~= seq![18u32, 21, 26, 66, 99, 99, 99, 99],
        chrominance_table().subrange(16, 24) =~= seq![24u32, 26, 56, 99, 99, 99, 99, 99],
        chrominance_table().subrange(24, 32) =~= seq![47u32, 66, 99, 99, 99, 99, 99, 99],
        forall|i: int| 32 <= i < 64 ==> #[trigger] chrominance_table()[i] == 99,
        forall|i: int, j: int|
            0 <= i < 8 && 0 <= j < 8 ==> #[trigger] chrominance_table()[8 * i + j] == chrominance_table()[8
                * j + i],
{
    assert forall|i: int| 32 <= i < 64 implies #[trigger] chrominance_table()[i] == 99 by {
    }
    assert forall|i: int, j: int|
        0 <= i < 8 && 0 <= j < 8 implies #[trigger] chrominance_table()[8 * i + j] == chrominance_table()[8
            * j + i] by {
    }
}

/// 4:1:1 chroma subsampling of a YUV image laid out `width` x `height` x 3 and
/// indexed (y, x): every aligned 2 x 2 block gets the chroma of its top-left
/// pixel.
pub fn chroma_subsample_411<T: Copy>(image: &mut Grid3<T>, width: usize, height: usize)
    requires
        old(image).wf(),
        old(image).height == width,
        old(image).width == height,
        old(image).channels >= 3,
        height >= 2,
        width >= 2,
        2 * (height / 2) <= width,
        2 * (width / 2) <= height,
    ensures
        final(image).wf(),
        final(image).height == old(image).height,
        final(image).width == old(image).width,
        final(image).channels == old(image).channels,
        forall|p: int, q: int, ch: int|
            0 <= p < width && 0 <= q < height && 0 <= ch < old(image).channels ==> #[trigger] final(image).at(p, q, ch) == subsampled(*old(image), width as int, height as int, p, q, ch),
{
    let ghost orig = *image;
    let mut y: usize = 0;
    while y <= height - 2
        invariant
            image.wf(),
            image.height == orig.height,
            image.width == orig.width,
            image.channels == orig.channels,
            orig.wf(),
            orig.height == width,
            orig.width == height,
            orig.channels >= 3,
            height >= 2,
            width >= 2,
            2 * (height / 2) <= width,
            2 * (width / 2) <= height,
            y % 2 == 0,
            y <= 2 * (height / 2),
            forall|p: int, q: int, ch: int|
                0 <= p < width && 0 <= q < height && 0 <= ch < orig.channels ==> #[trigger] image.at(
                    p,
                    q,
                    ch,
                ) == if p < y {
                    subsampled(orig, width as int, height as int, p, q, ch)
                } else {
                    orig.at(p, q, ch)
                },
        decreases height - y,
    {
        let mut x: usize = 0;
        while x <= width - 2
            invariant
                image.wf(),
                image.height == orig.height,
                image.width == orig.width,
                image.channels == orig.channels,
                orig.wf(),
                orig.height == width,
                orig.width == height,
                orig.channels >= 3,
                height >= 2,
                width >= 2,
                2 * (height / 2) <= width,
                2 * (width / 2) <= height,
                y % 2 == 0,
                y + 2 <= 2 * (height / 2),
                x % 2 == 0,
                x <= 2 * (width / 2),
                forall|p: int, q: int, ch: int|
                    0 <= p < width && 0 <= q < height && 0 <= ch < orig.channels ==> #[trigger] image.at(
                        p,
                        q,
                        ch,
                    ) == if p < y || ((p == y || p == y + 1) && q < x) {
                        subsampled(orig, width as int, height as int, p, q, ch)
                    } else {
                        orig.at(p, q, ch)
                    },
            decreases width - x,
        {
            let will_u = *image.get(y, x, 1);
            let will_v = *image.get(y, x, 2);
            image.set(y, x + 1, 1, will_u);
            image.set(y, x + 1, 2, will_v);
            image.set(y + 1, x, 1, will_u);
            image.set(y + 1, x, 2, will_v);
            image.set(y + 1, x + 1, 1, will_u);
            image.set(y + 1, x + 1, 2, will_v);
            x = x + 2;
        }
        y = y + 2;
    }
}

} // verus!
