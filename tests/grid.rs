use terrain_generator::error::TerrainError;
use terrain_generator::grid::{init_grid, Fraction};
use terrain_generator::normals::{difference_stencil, Stencil};

#[test]
fn grid_of_three_spans_unit_interval() {
    let v = init_grid(3).unwrap();
    assert_eq!(
        v,
        vec![Fraction { num: 0, den: 2 }, Fraction { num: 1, den: 2 }, Fraction { num: 2, den: 2 }]
    );
}

#[test]
fn end_to_end_grid_corners_and_centre_texel() {
    let v = init_grid(3).unwrap();
    // positions[0][0].xy = (-1, -1) and positions[2][2].xy = (1, 1) at unit scale
    let world = |f: &Fraction| (2.0 * f.num as f64 - f.den as f64) / f.den as f64;
    assert_eq!(world(&v[0]), -1.0);
    assert_eq!(world(&v[2]), 1.0);
    // texel[1][1] = (0.5, 0.5)
    assert_eq!(v[1].num as f64 / v[1].den as f64, 0.5);
}

#[test]
fn texels_stay_in_unit_square() {
    for size in 2..20usize {
        let v = init_grid(size).unwrap();
        assert_eq!(v.len(), size);
        for f in &v {
            assert!(f.den > 0 && f.num <= f.den);
        }
        assert_eq!(v[0].num, 0);
        assert_eq!(v[size - 1].num, v[size - 1].den);
    }
}

#[test]
fn grid_needs_two_cells() {
    assert_eq!(init_grid(1), Err(TerrainError::InvalidDimension { size: 1 }));
    assert_eq!(init_grid(0), Err(TerrainError::InvalidDimension { size: 0 }));
    assert!(init_grid(2).is_ok());
}

#[test]
fn stencils_use_one_sided_differences_at_borders() {
    assert_eq!(difference_stencil(4, 0), Stencil { ahead: 1, behind: 0, halved: false });
    assert_eq!(difference_stencil(4, 1), Stencil { ahead: 2, behind: 0, halved: true });
    assert_eq!(difference_stencil(4, 2), Stencil { ahead: 3, behind: 1, halved: true });
    assert_eq!(difference_stencil(4, 3), Stencil { ahead: 3, behind: 2, halved: false });
    assert_eq!(difference_stencil(2, 0), Stencil { ahead: 1, behind: 0, halved: false });
    assert_eq!(difference_stencil(2, 1), Stencil { ahead: 1, behind: 0, halved: false });
}
