use particle_life::mesh::{triangle_indices, MAX_TRIANGLES};

#[test]
fn triangle_indices_count_up() {
    assert_eq!(triangle_indices(0), Vec::<u16>::new());
    assert_eq!(triangle_indices(1), vec![0, 1, 2]);
    assert_eq!(triangle_indices(3), vec![0, 1, 2, 3, 4, 5, 6, 7, 8]);
}

#[test]
fn triangle_indices_fill_sixteen_bits() {
    let indices = triangle_indices(MAX_TRIANGLES);
    assert_eq!(indices.len(), 65_535);
    assert_eq!(indices[0], 0);
    assert_eq!(indices[65_534], 65_534);
    assert!(indices.iter().enumerate().all(|(k, v)| *v as usize == k));
}
