use terrain_generator::export::{encode_channel, mesh_faces, Face};

#[test]
fn faces_of_three_by_three_grid() {
    let f = mesh_faces(3);
    assert_eq!(f.len(), 8);
    assert_eq!(f[0], Face { a: 5, b: 2, c: 1 });
    assert_eq!(f[1], Face { a: 5, b: 4, c: 1 });
    assert_eq!(f[2], Face { a: 6, b: 3, c: 2 });
    assert_eq!(f[3], Face { a: 6, b: 5, c: 2 });
    assert_eq!(f[6], Face { a: 9, b: 6, c: 5 });
    assert_eq!(f[7], Face { a: 9, b: 8, c: 5 });
}

#[test]
fn face_count_is_two_per_quad() {
    for size in 2..12usize {
        assert_eq!(mesh_faces(size).len(), 2 * (size - 1) * (size - 1));
    }
    assert!(mesh_faces(1).is_empty());
    assert!(mesh_faces(0).is_empty());
}

#[test]
fn channel_is_offset_and_clipped() {
    assert_eq!(encode_channel(0), 127);
    assert_eq!(encode_channel(127), 254);
    assert_eq!(encode_channel(128), 255);
    assert_eq!(encode_channel(500), 255);
    assert_eq!(encode_channel(-127), 0);
    assert_eq!(encode_channel(-100), 27);
    assert_eq!(encode_channel(-500), 0);
}
