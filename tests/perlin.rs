use raytracer::perlin::{generate_perlin, PerlinHash, POINT_COUNT};

#[test]
fn generate_perlin_is_a_permutation() {
    let mut p = generate_perlin();
    assert_eq!(p.len(), POINT_COUNT);
    p.sort();
    let expected: Vec<usize> = (0..POINT_COUNT).collect();
    assert_eq!(p, expected);
}

#[test]
fn generate_perlin_is_shuffled() {
    let ordered: Vec<usize> = (0..POINT_COUNT).collect();
    let a = generate_perlin();
    let b = generate_perlin();
    // both staying in order has probability 1 / 256! per table
    assert!(a != ordered || b != ordered);
}

#[test]
fn corner_is_a_gradient_slot() {
    let h = PerlinHash::new();
    for i in -3..3 {
        for d in 0..2 {
            assert!(h.corner(i, i * 7, -i, d, 1 - d, d) < POINT_COUNT);
        }
    }
}

#[test]
fn corner_adds_the_offset() {
    let h = PerlinHash::new();
    assert_eq!(h.corner(0, 0, 0, 1, 1, 1), h.corner(1, 1, 1, 0, 0, 0));
    assert_eq!(h.corner(4, -9, 17, 1, 0, 1), h.corner(5, -9, 18, 0, 0, 0));
}

#[test]
fn corner_wraps_with_period_256() {
    let h = PerlinHash::new();
    assert_eq!(h.corner(-1, 0, 0, 1, 0, 0), h.corner(0, 0, 0, 0, 0, 0));
    assert_eq!(h.corner(255, 3, 4, 1, 0, 0), h.corner(0, 3, 4, 0, 0, 0));
    assert_eq!(h.corner(-256, 3, 4, 0, 0, 0), h.corner(0, 3, 4, 0, 0, 0));
    assert_eq!(h.corner(-255, 2, 1, 0, 0, 0), h.corner(1, 2, 1, 0, 0, 0));
}

#[test]
fn corner_does_not_overflow_at_the_largest_cell() {
    let h = PerlinHash::new();
    // 2^31 is a multiple of 256
    assert_eq!(h.corner(i32::MAX, i32::MAX, i32::MAX, 1, 1, 1), h.corner(0, 0, 0, 0, 0, 0));
    assert_eq!(h.corner(i32::MIN, 0, 0, 0, 0, 0), h.corner(0, 0, 0, 0, 0, 0));
}
