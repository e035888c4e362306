//! Finite-difference stencils for estimating the height gradient.
use vstd::prelude::*;

verus! {

/// The derivative along an axis at some index is
/// `(h[ahead] - h[behind])`, halved when `halved` holds.
#[derive(Clone, Copy, Debug, PartialEq, Eq, Structural)]
pub struct Stencil {
    pub ahead: usize,
    pub behind: usize,
    pub halved: bool,
}

/// Forward difference at the first index, backward difference at the last,
/// central difference in between; no wrap-around.
pub open spec fn stencil_at(size: int, index: int) -> Stencil {
    if index == 0 {
        Stencil { ahead: 1, behind: 0, halved: false }
    } else if index == size - 1 {
        Stencil { ahead: index as usize, behind: (index - 1) as usize, halved: false }
    } else {
        Stencil { ahead: (index + 1) as usize, behind: (index - 1) as usize, halved: true }
    }
}

/// The difference stencil at `index` along an axis of `size` cells.
pub fn difference_stencil(size: usize, index: usize) -> (r: Stencil)
    requires
        size >= 2,
        index < size,
    ensures
        r == stencil_at(size as int, index as int),
        r.ahead < size,
        r.behind < r.ahead,
        r.ahead - r.behind == if r.halved {
            2int
        } else {
            1int
        },
{
    if index == 0 {
        Stencil { ahead: 1, behind: 0, halved: false }
    } else if index == size - 1 {
        Stencil { ahead: index, behind: index - 1, halved: false }
    } else {
        Stencil { ahead: index + 1, behind: index - 1, halved: true }
    }
}

} // verus!
