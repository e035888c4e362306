//! Lattice side of two-dimensional gradient noise: the fixed hash
//! table, the hash of each lattice corner, and its diagonal gradient.
use vstd::prelude::*;

verus! {

/// The fixed 256-byte table that hashes lattice corners.
pub open spec fn permutation_table() -> Seq<u8> {
    seq![
        51u8, 160, 137, 91, 90, 15, 131, 13, 201, 95, 96, 53, 194, 233, 7, 225,
        140, 36, 103, 30, 69, 142, 8, 99, 37, 240, 21, 10, 23, 190, 6, 148,
        247, 120, 234, 75, 0, 26, 197, 62, 94, 252, 219, 203, 117, 35, 11, 32,
        57, 177, 33, 88, 237, 149, 56, 87, 174, 20, 125, 136, 171, 168, 68, 175,
        74, 165, 71, 134, 139, 48, 27, 166, 77, 146, 158, 231, 83, 111, 229, 122,
        60, 211, 133, 230, 220, 105, 92, 41, 55, 46, 245, 40, 244, 102, 143, 54,
        65, 25, 63, 161, 1, 216, 80, 73, 209, 76, 132, 187, 208, 89, 18, 169,
        200, 196, 135, 130, 116, 188, 159, 86, 164, 100, 109, 198, 173, 186, 3, 64,
        52, 217, 226, 250, 124, 123, 5, 202, 38, 147, 118, 126, 255, 82, 85, 212,
        207, 206, 59, 227, 47, 16, 58, 17, 182, 189, 28, 42, 223, 183, 170, 213,
        119, 248, 152, 2, 44, 154, 163, 70, 221, 153, 101, 155, 167, 43, 172, 9,
        129, 22, 39, 253, 19, 98, 108, 110, 79, 113, 224, 232, 178, 185, 112, 104,
        218, 246, 97, 228, 251, 34, 242, 193, 238, 210, 144, 12, 191, 179, 162, 241,
        81, 51, 145, 235, 249, 14, 239, 107, 49, 192, 214, 31, 181, 199, 106, 157,
        184, 84, 204, 176, 115, 121, 50, 45, 127, 4, 150, 254, 138, 236, 205, 93,
        222, 114, 67, 29, 24, 72, 243, 141, 128, 195, 78, 66, 215, 61, 156, 180,
    ]
}

/// A diagonal gradient direction; each component is 1 or -1.
#[derive(Clone, Copy, Debug, PartialEq, Eq, Structural)]
pub struct Gradient {
    pub x: i8,
    pub y: i8,
}

/// The gradients at the four corners of a lattice cell. "Bottom" and "left"
/// are the corners at the cell's own coordinates, "top" and "right" one
/// further along `y` and `x`.
#[derive(Clone, Copy, Debug, PartialEq, Eq, Structural)]
pub struct CornerGradients {
    pub top_right: Gradient,
    pub top_left: Gradient,
    pub bottom_right: Gradient,
    pub bottom_left: Gradient,
}

/// The gradient chosen by a hash byte: by its value modulo 4, `(1, 1)`,
/// `(-1, 1)`, `(-1, -1)` or `(1, -1)`.
pub open spec fn gradient_for(value: u8) -> Gradient {
    let m = value % 4;
    if m == 0 {
        Gradient { x: 1i8, y: 1i8 }
    } else if m == 1 {
        Gradient { x: -1i8, y: 1i8 }
    } else if m == 2 {
        Gradient { x: -1i8, y: -1i8 }
    } else {
        Gradient { x: 1i8, y: -1i8 }
    }
}

/// The hash byte of lattice corner `(cx, cy)`; both coordinates wrap modulo 256.
pub open spec fn corner_hash(cx: int, cy: int) -> u8 {
    permutation_table()[(permutation_table()[cx % 256] as int + cy % 256) % 256]
}

pub open spec fn corner_gradient(cx: int, cy: int) -> Gradient {
    gradient_for(corner_hash(cx, cy))
}

/// The gradients of the lattice cell whose lower corner is `(x, y)`.
pub open spec fn cell_gradients(x: int, y: int) -> CornerGradients {
    CornerGradients {
        top_right: corner_gradient(x + 1, y + 1),
        top_left: corner_gradient(x, y + 1),
        bottom_right: corner_gradient(x + 1, y),
        bottom_left: corner_gradient(x, y),
    }
}

fn permutation(index: usize) -> (r: u8)
    requires
        index < 256,
    ensures
        r == permutation_table()[index as int],
{
    let table: [u8; 256] = [
        51, 160, 137, 91, 90, 15, 131, 13, 201, 95, 96, 53, 194, 233, 7, 225,
        140, 36, 103, 30, 69, 142, 8, 99, 37, 240, 21, 10, 23, 190, 6, 148,
        247, 120, 234, 75, 0, 26, 197, 62, 94, 252, 219, 203, 117, 35, 11, 32,
        57, 177, 33, 88, 237, 149, 56, 87, 174, 20, 125, 136, 171, 168, 68, 175,
        74, 165, 71, 134, 139, 48, 27, 166, 77, 146, 158, 231, 83, 111, 229, 122,
        60, 211, 133, 230, 220, 105, 92, 41, 55, 46, 245, 40, 244, 102, 143, 54,
        65, 25, 63, 161, 1, 216, 80, 73, 209, 76, 132, 187, 208, 89, 18, 169,
        200, 196, 135, 130, 116, 188, 159, 86, 164, 100, 109, 198, 173, 186, 3, 64,
        52, 217, 226, 250, 124, 123, 5, 202, 38, 147, 118, 126, 255, 82, 85, 212,
        207, 206, 59, 227, 47, 16, 58, 17, 182, 189, 28, 42, 223, 183, 170, 213,
        119, 248, 152, 2, 44, 154, 163, 70, 221, 153, 101, 155, 167, 43, 172, 9,
        129, 22, 39, 253, 19, 98, 108, 110, 79, 113, 224, 232, 178, 185, 112, 104,
        218, 246, 97, 228, 251, 34, 242, 193, 238, 210, 144, 12, 191, 179, 162, 241,
        81, 51, 145, 235, 249, 14, 239, 107, 49, 192, 214, 31, 181, 199, 106, 157,
        184, 84, 204, 176, 115, 121, 50, 45, 127, 4, 150, 254, 138, 236, 205, 93,
        222, 114, 67, 29, 24, 72, 243, 141, 128, 195, 78, 66, 215, 61, 156, 180,
    ];
    table[index]
}

/// The gradient for a hash byte.
pub fn get_constant_vector(value: u8) -> (r: Gradient)
    ensures
        r == gradient_for(value),
{
    let m = value % 4;
    if m == 0 {
        Gradient { x: 1, y: 1 }
    } else if m == 1 {
        Gradient { x: -1, y: 1 }
    } else if m == 2 {
        Gradient { x: -1, y: -1 }
    } else {
        Gradient { x: 1, y: -1 }
    }
}

/// A lattice coordinate reduced modulo 256, negative ones included.
pub fn wrap_coordinate(c: i64) -> (r: usize)
    ensures
        r < 256,
        r as int == c as int % 256,
{
    let m = c % 256;
    if m < 0 {
        (m + 256) as usize
    } else {
        m as usize
    }
}

fn hash_wrapped(xi: usize, yi: usize) -> (r: u8)
    requires
        xi < 256,
        yi < 256,
    ensures
        r == permutation_table()[(permutation_table()[xi as int] as int + yi) % 256],
{
    let p = permutation(xi) as usize;
    permutation((p + yi) % 256)
}

/// The corner gradients of the lattice cell whose lower corner is
/// `(cell_x, cell_y)`, i.e. the floors of the sample point's coordinates.
pub fn lattice_gradients(cell_x: i64, cell_y: i64) -> (r: CornerGradients)
    ensures
        r == cell_gradients(cell_x as int, cell_y as int),
{
    let xi = wrap_coordinate(cell_x);
    let yi = wrap_coordinate(cell_y);
    let xn = (xi + 1) % 256;
    let yn = (yi + 1) % 256;
    assert(xn as int == (cell_x + 1) % 256);
    assert(yn as int == (cell_y + 1) % 256);
    CornerGradients {
        top_right: get_constant_vector(hash_wrapped(xn, yn)),
        top_left: get_constant_vector(hash_wrapped(xi, yn)),
        bottom_right: get_constant_vector(hash_wrapped(xn, yi)),
        bottom_left: get_constant_vector(hash_wrapped(xi, yi)),
    }
}

/// The lattice repeats every 256 cells along each axis, so noise is periodic
/// with period 256 in both coordinates.
pub proof fn lemma_lattice_period(x: int, y: int)
    ensures
        cell_gradients(x + 256, y) == cell_gradients(x, y),
        cell_gradients(x, y + 256) == cell_gradients(x, y),
{
    vstd::arithmetic::div_mod::lemma_mod_add_multiples_vanish(x, 256);
    vstd::arithmetic::div_mod::lemma_mod_add_multiples_vanish(x + 1, 256);
    vstd::arithmetic::div_mod::lemma_mod_add_multiples_vanish(y, 256);
    vstd::arithmetic::div_mod::lemma_mod_add_multiples_vanish(y + 1, 256);
    assert(x + 1 + 256 == x + 256 + 1);
    assert(y + 1 + 256 == y + 256 + 1);
}

} // verus!
