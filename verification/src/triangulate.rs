//! Linear triangulation of matched image points.

use vstd::prelude::*;

verus! {

/// Triangulator solving the linear (DLT) system of a point pair; the solve
/// itself works on floating-point camera matrices.
#[derive(Debug, Clone, Copy, PartialEq, Eq)]
pub struct Triangulate {}

impl Triangulate {
    pub fn new() -> (t: Self)
        ensures
            t == (Triangulate {}),
    {
        Triangulate {}
    }
}

} // verus!
