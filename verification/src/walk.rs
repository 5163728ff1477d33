//! What the walks have in common.

use vstd::prelude::*;

verus! {

/// The stretch of a ring that a walk is tracing.
#[derive(Clone, Copy, Debug)]
pub(crate) enum Leg {
    /// The centre itself, before any ring.
    Center,
    Right,
    Top,
    Left,
    Bottom,
}

/// The number of rings, the centre among them, that a walk bounded by
/// `max_distance` visits: the rings `0` to `max_distance - 1`.
///
/// The centre is always visited: a bound below one stands for one.
pub open spec fn rings(max_distance: int) -> nat {
    if max_distance >= 1 {
        max_distance as nat
    } else {
        1
    }
}

} // verus!
