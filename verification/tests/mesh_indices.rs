use sample_range::meshes::{cylinder_indices, quad_indices, sphere_indices};

#[test]
fn sphere_index_layout() {
    let idx = sphere_indices(2, 3);
    assert_eq!(idx.len(), 6 * 2 * 3);
    assert_eq!(&idx[0..6], &[0, 4, 1, 4, 5, 1]);
    assert_eq!(&idx[30..36], &[6, 10, 7, 10, 11, 7]);
    assert!(idx.iter().all(|&i| i < 3 * 4));
}

#[test]
fn sphere_of_scene_ball() {
    let idx = sphere_indices(16, 32);
    assert_eq!(idx.len(), 6 * 16 * 32);
    assert_eq!(*idx.iter().max().unwrap(), 17 * 33 - 1);
}

#[test]
fn cylinder_index_layout() {
    let idx = cylinder_indices(4);
    assert_eq!(idx.len(), 48);
    assert_eq!(&idx[0..6], &[0, 2, 1, 1, 2, 3]);
    assert_eq!(&idx[24..27], &[10, 11, 12]);
    assert_eq!(&idx[33..36], &[10, 14, 11]);
    assert_eq!(&idx[36..39], &[15, 17, 16]);
    assert_eq!(&idx[45..48], &[15, 16, 19]);
    assert!(idx.iter().all(|&i| i < 4 * 4 + 4));
}

#[test]
fn cylinder_without_segments_is_empty() {
    assert!(cylinder_indices(0).is_empty());
}

#[test]
fn ground_quad() {
    assert_eq!(quad_indices(), vec![0, 1, 2, 0, 2, 3]);
}
