//! Pixel and space coordinates.

use vstd::prelude::*;

verus! {

/// Coordinate types of points: the unsigned and signed machine integers.
pub trait Point: Copy + Sized {
    /// The unit of the coordinate type.
    spec fn spec_one() -> Self;

    /// The unit of the coordinate type.
    fn one() -> (r: Self)
        ensures
            r == Self::spec_one(),
    ;
}

impl Point for usize {
    open spec fn spec_one() -> usize {
        1
    }

    fn one() -> (r: usize) {
        1
    }
}

impl Point for u32 {
    open spec fn spec_one() -> u32 {
        1
    }

    fn one() -> (r: u32) {
        1
    }
}

impl Point for i32 {
    open spec fn spec_one() -> i32 {
        1
    }

    fn one() -> (r: i32) {
        1
    }
}

impl Point for u64 {
    open spec fn spec_one() -> u64 {
        1
    }

    fn one() -> (r: u64) {
        1
    }
}

/// A point of the image plane.
#[derive(Debug, Clone, Copy, PartialEq, Eq)]
pub struct Point2<T> {
    pub x: T,
    pub y: T,
}

/// A point of space, or a homogeneous point of the plane.
#[derive(Debug, Clone, Copy, PartialEq, Eq)]
pub struct Point3<T> {
    pub x: T,
    pub y: T,
    pub z: T,
}

impl<T: Point> Point2<T> {
    pub fn new(x: T, y: T) -> (p: Point2<T>)
        ensures
            p.x == x,
            p.y == y,
    {
        Point2 { x, y }
    }

    /// The homogeneous coordinates `(x, y, 1)`.
    pub fn homogeneous(&self) -> (p: Point3<T>)
        ensures
            p.x == self.x,
            p.y == self.y,
            p.z == T::spec_one(),
    {
        Point3::new(self.x, self.y, T::one())
    }

    /// The first two coordinates of a space point.
    pub fn from_point3(item: Point3<T>) -> (p: Point2<T>)
        ensures
            p.x == item.x,
            p.y == item.y,
    {
        Point2::new(item.x, item.y)
    }

    /// Reads a point from the first two entries of `arr`; refused, with the
    /// message "Array1 len must >= 2", when `arr` has fewer than two entries.
    pub fn try_from_vec(arr: &Vec<T>) -> (r: Result<Point2<T>, &'static str>)
        ensures
            r.is_ok() <==> arr@.len() >= 2,
            r matches Ok(p) ==> p.x == arr@[0] && p.y == arr@[1],
            r matches Err(m) ==> m@ == "Array1 len must >= 2"@,
    {
        if arr.len() < 2 {
            Err("Array1 len must >= 2")
        } else {
            Ok(Point2::new(arr[0], arr[1]))
        }
    }
}

/// Taking the first two coordinates of the homogeneous coordinates of a
/// point gives back the point.
pub proof fn lemma_homogeneous_round_trip<T: Point>(p: Point2<T>, h: Point3<T>, q: Point2<T>)
    requires
        h.x == p.x && h.y == p.y && h.z == T::spec_one(),
        q.x == h.x && q.y == h.y,
    ensures
        q == p,
{
}

impl<T: Point> Point3<T> {
    pub fn new(x: T, y: T, z: T) -> (p: Point3<T>)
        ensures
            p.x == x,
            p.y == y,
            p.z == z,
    {
        Point3 { x, y, z }
    }

    /// Reads a point from the leading entries of `arr`; refused unless `arr`
    /// has at least three entries, with the message "Array1 len must >= 3".
    pub fn try_from_vec(arr: &Vec<T>) -> (r: Result<Point3<T>, &'static str>)
        ensures
            r.is_ok() <==> arr@.len() >= 3,
            r matches Ok(p) ==> p.x == arr@[0] && p.y == arr@[1] && p.z == arr@[2],
            r matches Err(m) ==> m@ == "Array1 len must >= 3"@,
    {
        if arr.len() < 3 {
            Err("Array1 len must >= 3")
        } else {
            Ok(Point3::new(arr[0], arr[1], arr[2]))
        }
    }
}

} // verus!
