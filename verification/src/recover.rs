//! Buffers exchanged with the web front end: flattened feature points,
//! matches and colours.

use vstd::prelude::*;
use crate::matches::DMatch;
use crate::point::Point2;

verus! {

/// Coordinates of `points` as `x0, y0, x1, y1, ...`.
pub fn feature_point_coordinates(points: &Vec<Point2<usize>>) -> (v: Vec<usize>)
    ensures
        v@.len() == 2 * points@.len(),
        forall|i: int|
            0 <= i < points@.len() ==> #[trigger] v@[2 * i] == points@[i].x && v@[2 * i + 1]
                == points@[i].y,
{
    let mut v: Vec<usize> = Vec::new();
    let mut i: usize = 0;
    while i < points.len()
        invariant
            i <= points@.len(),
            v@.len() == 2 * i,
            forall|k: int|
                0 <= k < i ==> #[trigger] v@[2 * k] == points@[k].x && v@[2 * k + 1] == points@[k].y,
        decreases points@.len() - i,
    {
        let ghost prev = v@;
        v.push(points[i].x);
        v.push(points[i].y);
        proof {
            assert forall|k: int| 0 <= k < i + 1 implies #[trigger] v@[2 * k] == points@[k].x
                && v@[2 * k + 1] == points@[k].y by {
                if k < i {
                    assert(v@[2 * k] == prev[2 * k]);
                    assert(v@[2 * k + 1] == prev[2 * k + 1]);
                }
            }
        }
        i = i + 1;
    }
    v
}

/// Matches as `i1, i2, distance` triples.
pub fn match_triples(matches: &Vec<DMatch<u32>>) -> (v: Vec<usize>)
    ensures
        v@.len() == 3 * matches@.len(),
        forall|i: int|
            0 <= i < matches@.len() ==> #[trigger] v@[3 * i] == matches@[i].i1 && v@[3 * i + 1]
                == matches@[i].i2 && v@[3 * i + 2] == matches@[i].distance as usize,
{
    let mut v: Vec<usize> = Vec::new();
    let mut i: usize = 0;
    while i < matches.len()
        invariant
            i <= matches@.len(),
            v@.len() == 3 * i,
            forall|k: int|
                0 <= k < i ==> #[trigger] v@[3 * k] == matches@[k].i1 && v@[3 * k + 1]
                    == matches@[k].i2 && v@[3 * k + 2] == matches@[k].distance as usize,
        decreases matches@.len() - i,
    {
        let ghost prev = v@;
        v.push(matches[i].i1);
        v.push(matches[i].i2);
        v.push(matches[i].distance as usize);
        proof {
            assert forall|k: int| 0 <= k < i + 1 implies #[trigger] v@[3 * k] == matches@[k].i1
                && v@[3 * k + 1] == matches@[k].i2 && v@[3 * k + 2] == matches@[k].distance as usize by {
                if k < i {
                    assert(v@[3 * k] == prev[3 * k]);
                    assert(v@[3 * k + 1] == prev[3 * k + 1]);
                    assert(v@[3 * k + 2] == prev[3 * k + 2]);
                }
            }
        }
        i = i + 1;
    }
    v
}

/// The four RGBA bytes of pixel `index` of a colour buffer.
pub fn get_own_color_by_index(colors: &Vec<u8>, index: usize) -> (c: Vec<u8>)
    requires
        4 * index + 3 < colors@.len(),
    ensures
        c@ == colors@.subrange(4 * index as int, 4 * index + 4),
{
    let len = colors.len();
    let offset = 4 * index;
    let c = vec![colors[offset], colors[offset + 1], colors[offset + 2], colors[offset + 3]];
    assert(c@ =~= colors@.subrange(4 * index as int, 4 * index + 4));
    c
}

/// Consecutive pairs of `coords` as points: `(coords[0], coords[1])`,
/// `(coords[2], coords[3])`, ...; a trailing odd entry is ignored.
pub fn pair_coordinates<T: Copy>(coords: &Vec<T>) -> (ps: Vec<Point2<T>>)
    ensures
        ps@.len() == coords@.len() / 2,
        forall|i: int|
            0 <= i < ps@.len() ==> #[trigger] ps@[i] == (Point2 { x: coords@[2 * i], y: coords@[2 * i + 1] }),
{
    let mut ps: Vec<Point2<T>> = Vec::new();
    let n = coords.len();
    let mut index: usize = 0;
    while index < n
        invariant
            n == coords@.len(),
            index <= n,
            ps@.len() == index / 2,
            forall|i: int|
                0 <= i < ps@.len() ==> #[trigger] ps@[i] == (Point2 { x: coords@[2 * i], y: coords@[2 * i + 1] }),
        decreases n - index,
    {
        if index % 2 == 1 {
            ps.push(Point2 { x: coords[index - 1], y: coords[index] });
        }
        index = index + 1;
    }
    ps
}

} // verus!
