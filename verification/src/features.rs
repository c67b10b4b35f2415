//! Oriented FAST corner detection on gray images.

use vstd::prelude::*;
use crate::grid::Grid;
use crate::point::Point2;

verus! {

/// Row and column offsets of the sixteen pixels of the radius-3 circle
/// around a candidate pixel, clockwise from the pixel straight above it.
pub open spec fn circle_offset(k: int) -> (int, int) {
    if k == 0 {
        (-3, 0)
    } else if k == 1 {
        (-3, 1)
    } else if k == 2 {
        (-2, 2)
    } else if k == 3 {
        (-1, 3)
    } else if k == 4 {
        (0, 3)
    } else if k == 5 {
        (1, 3)
    } else if k == 6 {
        (2, 2)
    } else if k == 7 {
        (3, 1)
    } else if k == 8 {
        (3, 0)
    } else if k == 9 {
        (3, -1)
    } else if k == 10 {
        (2, -2)
    } else if k == 11 {
        (1, -3)
    } else if k == 12 {
        (0, -3)
    } else if k == 13 {
        (-1, -3)
    } else if k == 14 {
        (-2, -2)
    } else {
        (-3, -1)
    }
}

/// The `k`-th circle sample around (`r`, `c`); a sample outside the image
/// counts as zero.
pub open spec fn sample(img: Grid<i32>, r: int, c: int, k: int) -> int {
    at_or_zero(img, r + circle_offset(k).0, c + circle_offset(k).1)
}

pub open spec fn abs(a: int) -> int {
    if a < 0 {
        -a
    } else {
        a
    }
}

/// The twelve circle samples from sample `s` on, going round the circle,
/// all lie on the side `sg` of the centre (`sg` = 1: darker than the centre,
/// `sg` = -1: brighter) by at least `t`: `sg * (centre - sample) >= t`.
pub open spec fn arc_from(img: Grid<i32>, r: int, c: int, t: int, s: int, sg: int) -> bool {
    forall|j: int|
        0 <= j < 12 ==> sg * (img.at(r, c) as int - #[trigger] sample(img, r, c, (s + j) % 16)) >= t
}

/// (`r`, `c`) is a corner (the FAST segment test): twelve contiguous pixels
/// of its circle, counted round the circle, are all darker, or all
/// brighter, than the centre by at least `t`.
pub open spec fn is_corner(img: Grid<i32>, r: int, c: int, t: int) -> bool {
    exists|s: int, sg: int| 0 <= s < 16 && (sg == 1 || sg == -1) && #[trigger] arc_from(img, r, c, t, s, sg)
}

/// Value at (`r`, `c`), or zero outside the grid.
pub open spec fn at_or_zero(img: Grid<i32>, r: int, c: int) -> int {
    if 0 <= r < img.rows && 0 <= c < img.cols {
        img.at(r, c) as int
    } else {
        0
    }
}

/// Sum of the absolute differences between (`r`, `c`) and its first `n`
/// circle samples.
pub open spec fn partial_score(img: Grid<i32>, r: int, c: int, n: int) -> int
    decreases n,
{
    if n <= 0 {
        0
    } else {
        partial_score(img, r, c, n - 1) + abs(img.at(r, c) as int - sample(img, r, c, n - 1))
    }
}

/// Corner strength of (`r`, `c`): the sum of the absolute differences between
/// the pixel and its sixteen circle samples.
pub open spec fn circle_score(img: Grid<i32>, r: int, c: int) -> int {
    partial_score(img, r, c, 16)
}

/// Corner strength of (`r`, `c`), or zero outside the image.
pub open spec fn score_or_zero(img: Grid<i32>, r: int, c: int) -> int {
    if 0 <= r < img.rows && 0 <= c < img.cols {
        circle_score(img, r, c)
    } else {
        0
    }
}

/// (`r`, `c`) is reported: it is a pixel of the image, it is a corner, and
/// its corner strength is larger than that of each of its four neighbours
/// (non-maximum suppression).
pub open spec fn is_feature_at(img: Grid<i32>, t: int, r: int, c: int) -> bool {
    &&& 0 <= r < img.rows
    &&& 0 <= c < img.cols
    &&& is_corner(img, r, c, t)
    &&& circle_score(img, r, c) > score_or_zero(img, r, c - 1)
    &&& circle_score(img, r, c) > score_or_zero(img, r - 1, c)
    &&& circle_score(img, r, c) > score_or_zero(img, r, c + 1)
    &&& circle_score(img, r, c) > score_or_zero(img, r + 1, c)
}

/// Features of row `r` among its first `n` columns, left to right.
pub open spec fn row_features(img: Grid<i32>, t: int, r: int, n: int) -> Seq<Point2<usize>>
    decreases n,
{
    if n <= 0 {
        Seq::empty()
    } else {
        let prev = row_features(img, t, r, n - 1);
        if is_feature_at(img, t, r, n - 1) {
            prev.push(Point2 { x: (n - 1) as usize, y: r as usize })
        } else {
            prev
        }
    }
}

/// Features of the first `m` rows, in row-major order.
pub open spec fn features_in_rows(img: Grid<i32>, t: int, m: int) -> Seq<Point2<usize>>
    decreases m,
{
    if m <= 0 {
        Seq::empty()
    } else {
        features_in_rows(img, t, m - 1) + row_features(img, t, m - 1, img.cols as int)
    }
}

/// (`dr`, `dc`) is a lattice point at squared distance 8, 9 or 10 from the
/// origin: three steps along one axis and at most one across, or two along
/// each.
pub open spec fn on_radius_three_circle(o: (int, int)) -> bool {
    ||| abs(o.0) == 3 && abs(o.1) <= 1
    ||| abs(o.1) == 3 && abs(o.0) <= 1
    ||| abs(o.0) == 2 && abs(o.1) == 2
}

/// The sixteen circle offsets are the Bresenham circle of radius 3: each lies
/// at squared distance 8, 9 or 10 from the centre, no two coincide (so all
/// sixteen such lattice points are used), the scan starts straight above the
/// centre and moves one pixel right, and each offset is an 8-neighbour of
/// the next one round the circle.
pub proof fn lemma_circle_geometry()
    ensures
        forall|k: int| 0 <= k < 16 ==> on_radius_three_circle(#[trigger] circle_offset(k)),
        forall|k1: int, k2: int|
            0 <= k1 < k2 < 16 ==> #[trigger] circle_offset(k1) != #[trigger] circle_offset(k2),
        forall|k: int|
            0 <= k < 16 ==> -1 <= #[trigger] circle_offset(k).0 - circle_offset((k + 1) % 16).0 <= 1
                && -1 <= circle_offset(k).1 - circle_offset((k + 1) % 16).1 <= 1,
        circle_offset(0) == (-3int, 0int),
        circle_offset(1) == (-3int, 1int),
{
    assert forall|k: int| 0 <= k < 16 implies on_radius_three_circle(#[trigger] circle_offset(k)) by {
        if k == 0 {
            assert(circle_offset(k) == (-3int, 0int));
        } else if k == 1 {
            assert(circle_offset(k) == (-3int, 1int));
        } else if k == 2 {
            assert(circle_offset(k) == (-2int, 2int));
        } else if k == 3 {
            assert(circle_offset(k) == (-1int, 3int));
        } else if k == 4 {
            assert(circle_offset(k) == (0int, 3int));
        } else if k == 5 {
            assert(circle_offset(k) == (1int, 3int));
        } else if k == 6 {
            assert(circle_offset(k) == (2int, 2int));
        } else if k == 7 {
            assert(circle_offset(k) == (3int, 1int));
        } else if k == 8 {
            assert(circle_offset(k) == (3int, 0int));
        } else if k == 9 {
            assert(circle_offset(k) == (3int, -1int));
        } else if k == 10 {
            assert(circle_offset(k) == (2int, -2int));
        } else if k == 11 {
            assert(circle_offset(k) == (1int, -3int));
        } else if k == 12 {
            assert(circle_offset(k) == (0int, -3int));
        } else if k == 13 {
            assert(circle_offset(k) == (-1int, -3int));
        } else if k == 14 {
            assert(circle_offset(k) == (-2int, -2int));
        } else {
            assert(circle_offset(k) == (-3int, -1int));
        }
    }
    assert forall|k1: int, k2: int|
        0 <= k1 < k2 < 16 implies #[trigger] circle_offset(k1) != #[trigger] circle_offset(k2) by {
    }
    assert forall|k: int|
        0 <= k < 16 implies -1 <= #[trigger] circle_offset(k).0 - circle_offset((k + 1) % 16).0 <= 1
            && -1 <= circle_offset(k).1 - circle_offset((k + 1) % 16).1 <= 1 by {
    }
}

/// The twelve pixels of the circle around (`r`, `c`) from position `s` on,
/// counted round the circle and read as zero outside the image, all differ
/// from the pixel by at least `t` on the side `sg` (1: darker, -1: brighter).
pub open spec fn contiguous_pixels_differ(img: Grid<i32>, r: int, c: int, t: int, s: int, sg: int) -> bool {
    forall|j: int|
        0 <= j < 12 ==> sg * (img.at(r, c) as int - #[trigger] at_or_zero(
            img,
            r + circle_offset((s + j) % 16).0,
            c + circle_offset((s + j) % 16).1,
        )) >= t
}

/// The FAST segment test: a pixel is a corner for threshold `t` exactly when,
/// for some start `s` on its circle and some side `sg` (1: the circle pixels
/// are darker, -1: brighter), the twelve circle pixels from `s` on, counted
/// round the circle, all differ from the pixel by at least `t` on that side.
/// The pixel's own value plays no other part; pixels outside the image read
/// as zero.
pub proof fn lemma_segment_test(img: Grid<i32>, r: int, c: int, t: int)
    ensures
        is_corner(img, r, c, t) <==> exists|s: int, sg: int|
            0 <= s < 16 && (sg == 1 || sg == -1) && #[trigger] contiguous_pixels_differ(img, r, c, t, s, sg),
{
    if is_corner(img, r, c, t) {
        let (s, sg) = choose|s: int, sg: int|
            0 <= s < 16 && (sg == 1 || sg == -1) && #[trigger] arc_from(img, r, c, t, s, sg);
        assert forall|j: int| 0 <= j < 12 implies sg * (img.at(r, c) as int - #[trigger] at_or_zero(
            img,
            r + circle_offset((s + j) % 16).0,
            c + circle_offset((s + j) % 16).1,
        )) >= t by {
            assert(sg * (img.at(r, c) as int - sample(img, r, c, (s + j) % 16)) >= t);
        }
        assert(contiguous_pixels_differ(img, r, c, t, s, sg));
    }
    if exists|s: int, sg: int|
        0 <= s < 16 && (sg == 1 || sg == -1) && #[trigger] contiguous_pixels_differ(img, r, c, t, s, sg) {
        let (s, sg) = choose|s: int, sg: int|
            0 <= s < 16 && (sg == 1 || sg == -1) && #[trigger] contiguous_pixels_differ(img, r, c, t, s, sg);
        assert forall|j: int| 0 <= j < 12 implies sg * (img.at(r, c) as int - #[trigger] sample(
            img,
            r,
            c,
            (s + j) % 16,
        )) >= t by {
            assert(sg * (img.at(r, c) as int - at_or_zero(
                img,
                r + circle_offset((s + j) % 16).0,
                c + circle_offset((s + j) % 16).1,
            )) >= t);
        }
        assert(arc_from(img, r, c, t, s, sg));
    }
}

/// A pixel whose sixteen circle pixels all differ from it by at least `t` on
/// the same side (all darker, or all brighter) is a corner, whatever its own
/// value.
pub proof fn lemma_uniform_circle_is_corner(img: Grid<i32>, r: int, c: int, t: int, sg: int)
    requires
        sg == 1 || sg == -1,
        forall|k: int|
            0 <= k < 16 ==> sg * (img.at(r, c) as int - at_or_zero(
                img,
                r + #[trigger] circle_offset(k).0,
                c + circle_offset(k).1,
            )) >= t,
    ensures
        is_corner(img, r, c, t),
{
    assert forall|j: int| 0 <= j < 12 implies sg * (img.at(r, c) as int - #[trigger] sample(
        img,
        r,
        c,
        (0 + j) % 16,
    )) >= t by {
        assert((0 + j) % 16 == j);
        assert(sg * (img.at(r, c) as int - at_or_zero(
            img,
            r + circle_offset(j).0,
            c + circle_offset(j).1,
        )) >= t);
    }
    assert(arc_from(img, r, c, t, 0, sg));
}

/// Raising the threshold never creates a corner: a corner for threshold `t2`
/// is a corner for every lower threshold `t1`.
pub proof fn lemma_corner_threshold_monotone(img: Grid<i32>, r: int, c: int, t1: int, t2: int)
    requires
        t1 <= t2,
        is_corner(img, r, c, t2),
    ensures
        is_corner(img, r, c, t1),
{
    let (s, sg) = choose|s: int, sg: int| 0 <= s < 16 && (sg == 1 || sg == -1) && #[trigger] arc_from(img, r, c, t2, s, sg);
    assert forall|j: int| 0 <= j < 12 implies sg * (img.at(r, c) as int - #[trigger] sample(img, r, c, (s + j) % 16)) >= t1 by {
        assert(sg * (img.at(r, c) as int - sample(img, r, c, (s + j) % 16)) >= t2);
    }
    assert(arc_from(img, r, c, t1, s, sg));
}

/// Every point of `row_features(img, t, r, n)` is a feature of row `r` left
/// of column `n`.
proof fn lemma_row_features_members(img: Grid<i32>, t: int, r: int, n: int, j: int)
    requires
        0 <= j < row_features(img, t, r, n).len(),
        0 <= r,
    ensures
        row_features(img, t, r, n)[j].y == r,
        row_features(img, t, r, n)[j].x < n,
        is_feature_at(img, t, r, row_features(img, t, r, n)[j].x as int),
    decreases n,
{
    if n > 0 {
        let prev = row_features(img, t, r, n - 1);
        if j < prev.len() {
            lemma_row_features_members(img, t, r, n - 1, j);
        }
    }
}

/// Every reported point is a feature (a corner whose strength beats that of
/// its four neighbours), given as (column, row).
pub proof fn lemma_features_are_features(img: Grid<i32>, t: int, m: int, j: int)
    requires
        0 <= j < features_in_rows(img, t, m).len(),
    ensures
        is_feature_at(
            img,
            t,
            features_in_rows(img, t, m)[j].y as int,
            features_in_rows(img, t, m)[j].x as int,
        ),
        features_in_rows(img, t, m)[j].y < m,
    decreases m,
{
    if m > 0 {
        let prev = features_in_rows(img, t, m - 1);
        if j < prev.len() {
            lemma_features_are_features(img, t, m - 1, j);
        } else {
            lemma_row_features_members(img, t, m - 1, img.cols as int, j - prev.len());
        }
    }
}

/// Non-maximum suppression: no two reported points are horizontal or
/// vertical neighbours.
pub proof fn lemma_features_not_adjacent(img: Grid<i32>, t: int, m: int, j1: int, j2: int)
    requires
        0 <= j1 < features_in_rows(img, t, m).len(),
        0 <= j2 < features_in_rows(img, t, m).len(),
    ensures
        ({
            let p = features_in_rows(img, t, m)[j1];
            let q = features_in_rows(img, t, m)[j2];
            !(p.y == q.y && p.x + 1 == q.x) && !(p.x == q.x && p.y + 1 == q.y)
        }),
{
    lemma_features_are_features(img, t, m, j1);
    lemma_features_are_features(img, t, m, j2);
}

/// `p` comes before `q` in row-major order.
pub open spec fn row_major_before(p: Point2<usize>, q: Point2<usize>) -> bool {
    p.y < q.y || (p.y == q.y && p.x < q.x)
}

proof fn lemma_row_features_sorted(img: Grid<i32>, t: int, r: int, n: int, i: int, j: int)
    requires
        0 <= r,
        0 <= i < j < row_features(img, t, r, n).len(),
    ensures
        row_major_before(row_features(img, t, r, n)[i], row_features(img, t, r, n)[j]),
    decreases n,
{
    if n > 0 {
        let prev = row_features(img, t, r, n - 1);
        if j < prev.len() {
            lemma_row_features_sorted(img, t, r, n - 1, i, j);
        } else {
            lemma_row_features_members(img, t, r, n - 1, i);
            lemma_row_features_members(img, t, r, n, j);
            lemma_row_features_members(img, t, r, n, i);
        }
    }
}

/// Features are reported in strictly increasing row-major order, so no point
/// is reported twice.
pub proof fn lemma_features_sorted(img: Grid<i32>, t: int, m: int, i: int, j: int)
    requires
        0 <= i < j < features_in_rows(img, t, m).len(),
    ensures
        row_major_before(features_in_rows(img, t, m)[i], features_in_rows(img, t, m)[j]),
    decreases m,
{
    if m > 0 {
        let prev = features_in_rows(img, t, m - 1);
        let row = row_features(img, t, m - 1, img.cols as int);
        if j < prev.len() {
            lemma_features_sorted(img, t, m - 1, i, j);
        } else if i >= prev.len() {
            lemma_row_features_sorted(img, t, m - 1, img.cols as int, i - prev.len(), j - prev.len());
        } else {
            lemma_features_are_features(img, t, m - 1, i);
            lemma_row_features_members(img, t, m - 1, img.cols as int, j - prev.len());
        }
    }
}

/// Detector over a borrowed gray image.
#[derive(Debug)]
pub struct OFast<'a> {
    pub data: &'a Grid<i32>,
}

impl<'a> OFast<'a> {
    pub fn new(data: &'a Grid<i32>) -> (o: OFast<'a>)
        ensures
            *o.data == *data,
    {
        OFast { data }
    }

    /// Corners of the image in row-major order, each as (column, row), kept
    /// where their strength beats that of their four neighbours.
    /// `threshold` is the least brightness difference that counts (10 when
    /// not given). Every pixel is a candidate: circle samples and neighbours
    /// outside the image count as zero.
    pub fn find_features(&self, threshold: Option<i64>) -> (features: Vec<Point2<usize>>)
        requires
            self.data.wf(),
        ensures
            features@ == features_in_rows(
                *self.data,
                match threshold {
                    Some(t) => t as int,
                    None => 10,
                },
                self.data.rows as int,
            ),
    {
        let t: i64 = match threshold {
            Some(thres) => thres,
            None => 10,
        };
        let img = self.data;
        let height = img.rows;
        let width = img.cols;
        let mut features: Vec<Point2<usize>> = Vec::new();
        let mut row_i: usize = 0;
        while row_i < height
            invariant
                img == self.data,
                img.wf(),
                height == img.rows,
                width == img.cols,
                row_i <= height,
                features@ == features_in_rows(*img, t as int, row_i as int),
            decreases height - row_i,
        {
            let ghost before = features@;
            let mut col_i: usize = 0;
            while col_i < width
                invariant
                    img == self.data,
                    img.wf(),
                    height == img.rows,
                    width == img.cols,
                    row_i < height,
                    col_i <= width,
                    features@ == before + row_features(*img, t as int, row_i as int, col_i as int),
                decreases width - col_i,
            {
                if self.is_feature(row_i, col_i, t) {
                    let distance = self.compute_distance(col_i, row_i);
                    let left_distance: i64 = if col_i > 0 {
                        self.compute_distance(col_i - 1, row_i)
                    } else {
                        0
                    };
                    let top_distance: i64 = if row_i > 0 {
                        self.compute_distance(col_i, row_i - 1)
                    } else {
                        0
                    };
                    let right_distance: i64 = if col_i + 1 < width {
                        self.compute_distance(col_i + 1, row_i)
                    } else {
                        0
                    };
                    let bottom_distance: i64 = if row_i + 1 < height {
                        self.compute_distance(col_i, row_i + 1)
                    } else {
                        0
                    };
                    if distance > left_distance && distance > top_distance && distance
                        > right_distance && distance > bottom_distance {
                        features.push(Point2::new(col_i, row_i));
                    }
                }
                col_i = col_i + 1;
                proof {
                    assert(features@ =~= before + row_features(
                        *img,
                        t as int,
                        row_i as int,
                        col_i as int,
                    ));
                }
            }
            row_i = row_i + 1;
            proof {
                assert(features@ =~= features_in_rows(*img, t as int, row_i as int));
            }
        }
        features
    }

    /// Value at (`row_i` + `dr`, `col_i` + `dc`), or zero outside the image.
    fn value_at_offset(&self, row_i: usize, col_i: usize, dr: i8, dc: i8) -> (v: i32)
        requires
            self.data.wf(),
            row_i < self.data.rows,
            col_i < self.data.cols,
            -3 <= dr <= 3,
            -3 <= dc <= 3,
        ensures
            v as int == at_or_zero(*self.data, row_i + dr, col_i + dc),
    {
        let img = self.data;
        let r: Option<usize> = if dr < 0 {
            let d = (-dr) as usize;
            if row_i >= d {
                Some(row_i - d)
            } else {
                None
            }
        } else {
            let d = dr as usize;
            if img.rows - row_i > d {
                Some(row_i + d)
            } else {
                None
            }
        };
        let c: Option<usize> = if dc < 0 {
            let d = (-dc) as usize;
            if col_i >= d {
                Some(col_i - d)
            } else {
                None
            }
        } else {
            let d = dc as usize;
            if img.cols - col_i > d {
                Some(col_i + d)
            } else {
                None
            }
        };
        match (r, c) {
            (Some(r), Some(c)) => *img.get(r, c),
            _ => 0,
        }
    }

    /// The sixteen circle samples around (`row_i`, `col_i`), in scan order.
    fn circle_values(&self, row_i: usize, col_i: usize) -> (values: Vec<i32>)
        requires
            self.data.wf(),
            row_i < self.data.rows,
            col_i < self.data.cols,
        ensures
            values@.len() == 16,
            forall|k: int| 0 <= k < 16 ==> values@[k] as int == sample(*self.data, row_i as int, col_i as int, k),
    {
        let mut values: Vec<i32> = Vec::new();
        values.push(self.value_at_offset(row_i, col_i, -3, 0));
        values.push(self.value_at_offset(row_i, col_i, -3, 1));
        values.push(self.value_at_offset(row_i, col_i, -2, 2));
        values.push(self.value_at_offset(row_i, col_i, -1, 3));
        values.push(self.value_at_offset(row_i, col_i, 0, 3));
        values.push(self.value_at_offset(row_i, col_i, 1, 3));
        values.push(self.value_at_offset(row_i, col_i, 2, 2));
        values.push(self.value_at_offset(row_i, col_i, 3, 1));
        values.push(self.value_at_offset(row_i, col_i, 3, 0));
        values.push(self.value_at_offset(row_i, col_i, 3, -1));
        values.push(self.value_at_offset(row_i, col_i, 2, -2));
        values.push(self.value_at_offset(row_i, col_i, 1, -3));
        values.push(self.value_at_offset(row_i, col_i, 0, -3));
        values.push(self.value_at_offset(row_i, col_i, -1, -3));
        values.push(self.value_at_offset(row_i, col_i, -2, -2));
        values.push(self.value_at_offset(row_i, col_i, -3, -1));
        let ghost r = row_i as int;
        let ghost c = col_i as int;
        assert forall|k: int| 0 <= k < 16 implies values@[k] as int == sample(*self.data, r, c, k) by {
        }
        values
    }

    /// Whether (`row_i`, `col_i`) is a corner for threshold `threshold`.
    fn is_feature(&self, row_i: usize, col_i: usize, threshold: i64) -> (b: bool)
        requires
            self.data.wf(),
            row_i < self.data.rows,
            col_i < self.data.cols,
        ensures
            b == is_corner(*self.data, row_i as int, col_i as int, threshold as int),
    {
        let img = self.data;
        let value = *img.get(row_i, col_i);
        let values = self.circle_values(row_i, col_i);
        let ghost r = row_i as int;
        let ghost c = col_i as int;
        let ghost t = threshold as int;
        let mut s: usize = 0;
        while s < 16
            invariant
                img == self.data,
                img.wf(),
                row_i < img.rows,
                col_i < img.cols,
                values@.len() == 16,
                forall|k: int| 0 <= k < 16 ==> values@[k] as int == sample(*img, r, c, k),
                value as int == img.at(r, c) as int,
                r == row_i as int,
                c == col_i as int,
                t == threshold as int,
                s <= 16,
                forall|s2: int, sg: int|
                    0 <= s2 < s && (sg == 1 || sg == -1) ==> !#[trigger] arc_from(*img, r, c, t, s2, sg),
            decreases 16 - s,
        {
            if self.arc_holds(&values, value, row_i, col_i, threshold, s, 1) {
                return true;
            }
            if self.arc_holds(&values, value, row_i, col_i, threshold, s, -1) {
                return true;
            }
            proof {
                assert forall|s2: int, sg: int|
                    0 <= s2 < s + 1 && (sg == 1 || sg == -1) implies !#[trigger] arc_from(*img, r, c, t, s2, sg) by {
                    if s2 < s {
                    }
                }
            }
            s = s + 1;
        }
        false
    }

    /// Whether the twelve circle samples from sample `s` on all lie on the
    /// side `sg` of the centre by at least `threshold`.
    fn arc_holds(
        &self,
        values: &Vec<i32>,
        value: i32,
        row_i: usize,
        col_i: usize,
        threshold: i64,
        s: usize,
        sg: i64,
    ) -> (b: bool)
        requires
            self.data.wf(),
            row_i < self.data.rows,
            col_i < self.data.cols,
            values@.len() == 16,
            forall|k: int| 0 <= k < 16 ==> values@[k] as int == sample(*self.data, row_i as int, col_i as int, k),
            value as int == self.data.at(row_i as int, col_i as int) as int,
            s < 16,
            sg == 1 || sg == -1,
        ensures
            b == arc_from(*self.data, row_i as int, col_i as int, threshold as int, s as int, sg as int),
    {
        let ghost img = *self.data;
        let ghost r = row_i as int;
        let ghost c = col_i as int;
        let mut j: usize = 0;
        while j < 12
            invariant
                img == *self.data,
                values@.len() == 16,
                forall|k: int| 0 <= k < 16 ==> values@[k] as int == sample(img, r, c, k),
                value as int == img.at(r, c) as int,
                r == row_i as int,
                c == col_i as int,
                s < 16,
                sg == 1 || sg == -1,
                j <= 12,
                forall|jj: int|
                    0 <= jj < j ==> sg * (img.at(r, c) as int - #[trigger] sample(img, r, c, (s + jj) % 16))
                        >= threshold,
            decreases 12 - j,
        {
            let k = (s + j) % 16;
            let ghost kk: int = (s as int + j as int) % 16;
            assert(k as int == kk);
            let diff: i64 = value as i64 - values[k] as i64;
            let d: i64 = if sg == 1 {
                diff
            } else {
                -diff
            };
            assert(values@[kk] as int == sample(img, r, c, kk));
            assert(d as int == (sg as int) * (img.at(r, c) as int - sample(img, r, c, kk)));
            if d < threshold {
                proof {
                    let jj: int = j as int;
                    assert(0 <= jj < 12);
                    assert(!((sg as int) * (img.at(r, c) as int - sample(img, r, c, (s as int + jj) % 16))
                        >= threshold as int));
                    if arc_from(img, r, c, threshold as int, s as int, sg as int) {
                        assert((sg as int) * (img.at(r, c) as int - sample(img, r, c, (s as int + jj) % 16))
                            >= threshold as int);
                    }
                }
                return false;
            }
            j = j + 1;
        }
        true
    }

    /// Corner strength of (`row_i`, `col_i`): the sum of the absolute
    /// differences between the pixel and its sixteen circle samples.
    fn compute_distance(&self, col_i: usize, row_i: usize) -> (d: i64)
        requires
            self.data.wf(),
            row_i < self.data.rows,
            col_i < self.data.cols,
        ensures
            d as int == circle_score(*self.data, row_i as int, col_i as int),
    {
        let img = self.data;
        let value = *img.get(row_i, col_i);
        let values = self.circle_values(row_i, col_i);
        let ghost r = row_i as int;
        let ghost c = col_i as int;
        let mut sum: i64 = 0;
        let mut n: usize = 0;
        while n < 16
            invariant
                img == self.data,
                img.wf(),
                values@.len() == 16,
                forall|k: int| 0 <= k < 16 ==> values@[k] as int == sample(*img, r, c, k),
                value as int == img.at(r, c) as int,
                n <= 16,
                sum as int == partial_score(*img, r, c, n as int),
                0 <= sum <= n * 0x1_0000_0000,
            decreases 16 - n,
        {
            let diff: i64 = value as i64 - values[n] as i64;
            let delta: i64 = if diff < 0 {
                -diff
            } else {
                diff
            };
            sum = sum + delta;
            n = n + 1;
        }
        sum
    }
}

} // verus!
