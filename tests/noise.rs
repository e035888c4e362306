use terrain_generator::noise::{get_constant_vector, lattice_gradients, wrap_coordinate, CornerGradients, Gradient};

fn g(x: i8, y: i8) -> Gradient {
    Gradient { x, y }
}

#[test]
fn constant_vectors_follow_value_mod_four() {
    assert_eq!(get_constant_vector(0), g(1, 1));
    assert_eq!(get_constant_vector(1), g(-1, 1));
    assert_eq!(get_constant_vector(2), g(-1, -1));
    assert_eq!(get_constant_vector(3), g(1, -1));
    assert_eq!(get_constant_vector(4), g(1, 1));
    assert_eq!(get_constant_vector(255), g(1, -1));
}

#[test]
fn coordinates_wrap_modulo_256() {
    assert_eq!(wrap_coordinate(0), 0);
    assert_eq!(wrap_coordinate(255), 255);
    assert_eq!(wrap_coordinate(256), 0);
    assert_eq!(wrap_coordinate(257), 1);
    assert_eq!(wrap_coordinate(-1), 255);
    assert_eq!(wrap_coordinate(-256), 0);
    assert_eq!(wrap_coordinate(i64::MIN), 0);
}

#[test]
fn gradients_at_origin_cell() {
    assert_eq!(
        lattice_gradients(0, 0),
        CornerGradients { top_right: g(1, 1), top_left: g(-1, 1), bottom_right: g(1, -1), bottom_left: g(1, 1) }
    );
}

#[test]
fn gradients_of_an_inner_cell() {
    assert_eq!(
        lattice_gradients(3, 5),
        CornerGradients { top_right: g(-1, 1), top_left: g(-1, 1), bottom_right: g(-1, -1), bottom_left: g(-1, 1) }
    );
}

#[test]
fn gradients_wrap_at_the_table_boundary() {
    let expected =
        CornerGradients { top_right: g(1, 1), top_left: g(1, -1), bottom_right: g(-1, 1), bottom_left: g(-1, 1) };
    assert_eq!(lattice_gradients(255, 255), expected);
    assert_eq!(lattice_gradients(-1, -1), expected);
}

#[test]
fn lattice_is_periodic() {
    assert_eq!(lattice_gradients(3, 5), lattice_gradients(259, 5));
    assert_eq!(lattice_gradients(3, 5), lattice_gradients(3, 261));
    assert_eq!(lattice_gradients(3, 5), lattice_gradients(-253, -251));
}

#[test]
fn lattice_is_deterministic() {
    for x in -3..3 {
        for y in -3..3 {
            assert_eq!(lattice_gradients(x, y), lattice_gradients(x, y));
        }
    }
}

#[test]
fn extreme_coordinates_do_not_overflow() {
    assert_eq!(lattice_gradients(i64::MAX, i64::MAX), lattice_gradients(255, 255));
}
