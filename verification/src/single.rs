//! Single-view structure recovery.

use vstd::prelude::*;

verus! {

/// Single-view reconstruction from vanishing points; its computations work
/// on floating-point image coordinates.
#[derive(Debug, Clone, Copy, PartialEq, Eq)]
pub struct SingleViewRecover {}

} // verus!
