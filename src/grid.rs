//! Parameterisation of a square grid: each index along an axis maps to the
//! fraction `index / (size - 1)` of the unit interval.
use vstd::prelude::*;

use crate::error::TerrainError;

verus! {

/// The rational number `num / den`.
#[derive(Clone, Copy, Debug, PartialEq, Eq, Structural)]
pub struct Fraction {
    pub num: usize,
    pub den: usize,
}

/// Where index `index` of a grid of edge length `size` sits in `[0, 1]`.
pub open spec fn axis_fraction(size: int, index: int) -> Fraction {
    Fraction { num: index as usize, den: (size - 1) as usize }
}

/// The numerator over `den` of the world coordinate `f * 2 - 1`, in units
/// of the axis scale: a position is `scale * world_numerator(f) / f.den`.
pub open spec fn world_numerator(f: Fraction) -> int {
    2 * f.num - f.den
}

/// The axis parameterisation of a `size x size` grid: entry `i` is
/// `i / (size - 1)`. A cell `(i, j)` has world position
/// `(entry_i * 2 - 1) * scale_x, (entry_j * 2 - 1) * scale_y` and texel
/// `(entry_i, entry_j)`. Refused when `size < 2`.
pub fn init_grid(size: usize) -> (r: Result<Vec<Fraction>, TerrainError>)
    ensures
        r is Err <==> size < 2,
        r is Err ==> r == Err::<Vec<Fraction>, TerrainError>(TerrainError::InvalidDimension { size }),
        r matches Ok(v) ==> v@.len() == size && forall|i: int|
            0 <= i < size ==> #[trigger] v@[i] == axis_fraction(size as int, i),
{
    if size < 2 {
        return Err(TerrainError::InvalidDimension { size });
    }
    let mut v: Vec<Fraction> = Vec::new();
    let mut i: usize = 0;
    while i < size
        invariant
            2 <= size,
            i <= size,
            v@.len() == i,
            forall|k: int| 0 <= k < i ==> #[trigger] v@[k] == axis_fraction(size as int, k),
        decreases size - i,
    {
        v.push(Fraction { num: i, den: size - 1 });
        i = i + 1;
    }
    Ok(v)
}

/// Every texel coordinate lies in `[0, 1]`: it is `0` at the first index
/// and `1` at the last; correspondingly positions run from `-scale` at the
/// first index to `+scale` at the last.
pub proof fn lemma_texel_range(size: int, index: int)
    requires
        2 <= size <= usize::MAX,
        0 <= index < size,
    ensures
        axis_fraction(size, index).den > 0,
        axis_fraction(size, index).num <= axis_fraction(size, index).den,
        axis_fraction(size, 0).num == 0,
        axis_fraction(size, size - 1).num == axis_fraction(size, size - 1).den,
        world_numerator(axis_fraction(size, 0)) == -(size - 1),
        world_numerator(axis_fraction(size, size - 1)) == size - 1,
{
}

} // verus!
