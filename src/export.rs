//! Mesh connectivity and raster channel encoding for a `size x size` grid.
use vstd::prelude::*;

verus! {

/// A triangle given by three 1-based vertex indices into the row-major vertex list.
#[derive(Clone, Copy, Debug, PartialEq, Eq, Structural)]
pub struct Face {
    pub a: usize,
    pub b: usize,
    pub c: usize,
}

/// 1-based row-major index of the vertex at row `i`, column `j`.
pub open spec fn vertex_index(size: int, i: int, j: int) -> int {
    i * size + j + 1
}

/// The `k`-th face of the mesh: the quad with lower-right corner `(i, j)`,
/// `i, j >= 1`, is split into `(current, top, top_left)` and
/// `(current, left, top_left)`, quads taken in row-major order.
pub open spec fn face_at(size: int, k: int) -> Face {
    let q = k / 2;
    let i = q / (size - 1) + 1;
    let j = q % (size - 1) + 1;
    let current = vertex_index(size, i, j);
    let top_left = vertex_index(size, i - 1, j - 1);
    if k % 2 == 0 {
        Face { a: current as usize, b: vertex_index(size, i - 1, j) as usize, c: top_left as usize }
    } else {
        Face { a: current as usize, b: vertex_index(size, i, j - 1) as usize, c: top_left as usize }
    }
}

proof fn lemma_face_position(size: int, i: int, j: int)
    requires
        size >= 2,
        1 <= i < size,
        1 <= j < size,
    ensures
        (2 * ((i - 1) * (size - 1) + (j - 1))) / 2 == (i - 1) * (size - 1) + (j - 1),
        (2 * ((i - 1) * (size - 1) + (j - 1)) + 1) / 2 == (i - 1) * (size - 1) + (j - 1),
        (2 * ((i - 1) * (size - 1) + (j - 1))) % 2 == 0,
        (2 * ((i - 1) * (size - 1) + (j - 1)) + 1) % 2 == 1,
        ((i - 1) * (size - 1) + (j - 1)) / (size - 1) == i - 1,
        ((i - 1) * (size - 1) + (j - 1)) % (size - 1) == j - 1,
{
    let q = (i - 1) * (size - 1) + (j - 1);
    assert(0 <= q) by (nonlinear_arith)
        requires
            1 <= i,
            1 <= j,
            size >= 2,
            q == (i - 1) * (size - 1) + (j - 1),
    ;
    vstd::arithmetic::div_mod::lemma_fundamental_div_mod_converse(q, size - 1, i - 1, j - 1);
    vstd::arithmetic::div_mod::lemma_fundamental_div_mod_converse(2 * q, 2, q, 0);
    vstd::arithmetic::div_mod::lemma_fundamental_div_mod_converse(2 * q + 1, 2, q, 1);
}

/// Two triangles for every unit quad of a `size x size` grid, in row-major quad order.
pub fn mesh_faces(size: usize) -> (r: Vec<Face>)
    requires
        size * size <= usize::MAX,
    ensures
        size >= 2 ==> r@.len() == 2 * (size - 1) * (size - 1),
        size < 2 ==> r@.len() == 0,
        forall|k: int| 0 <= k < r@.len() ==> r@[k] == face_at(size as int, k),
{
    let mut r: Vec<Face> = Vec::new();
    if size < 2 {
        return r;
    }
    let mut i: usize = 1;
    assert(2 * (i - 1) * (size - 1) == 0) by (nonlinear_arith)
        requires
            i == 1,
    ;
    while i < size
        invariant
            2 <= size,
            size * size <= usize::MAX,
            1 <= i <= size,
            r@.len() == 2 * (i - 1) * (size - 1),
            forall|k: int| 0 <= k < r@.len() ==> r@[k] == face_at(size as int, k),
        decreases size - i,
    {
        let mut j: usize = 1;
        assert(2 * (i - 1) * (size - 1) == 2 * ((i - 1) * (size - 1) + (j - 1))) by (nonlinear_arith)
            requires
                j == 1,
        ;
        while j < size
            invariant
                2 <= size,
                size * size <= usize::MAX,
                1 <= i < size,
                1 <= j <= size,
                r@.len() == 2 * ((i - 1) * (size - 1) + (j - 1)),
                forall|k: int| 0 <= k < r@.len() ==> r@[k] == face_at(size as int, k),
            decreases size - j,
        {
            proof {
                assert(i * size + j + 1 <= size * size) by (nonlinear_arith)
                    requires
                        i < size,
                        j < size,
                ;
                assert((i - 1) * size + j + 1 <= i * size + j + 1) by (nonlinear_arith)
                    requires
                        i >= 1,
                ;
                lemma_face_position(size as int, i as int, j as int);
            }
            let current = i * size + j + 1;
            let left = i * size + j;
            let top = (i - 1) * size + j + 1;
            let top_left = (i - 1) * size + j;
            r.push(Face { a: current, b: top, c: top_left });
            r.push(Face { a: current, b: left, c: top_left });
            proof {
                assert((i - 1) * size + j == i * size + j - size) by (nonlinear_arith);
            }
            j = j + 1;
        }
        proof {
            assert(2 * ((i - 1) * (size - 1) + (size - 1)) == 2 * i * (size - 1)) by (nonlinear_arith);
        }
        i = i + 1;
    }
    r
}

/// A raster channel byte: a value already scaled by 127 and rounded, offset
/// by 127 and clipped to `0..=255`.
pub fn encode_channel(scaled: i64) -> (r: u8)
    ensures
        r as int == if scaled + 127 < 0 {
            0
        } else if scaled + 127 > 255 {
            255
        } else {
            scaled + 127
        },
{
    if scaled < -127 {
        0
    } else if scaled > 128 {
        255
    } else {
        (scaled + 127) as u8
    }
}

} // verus!
