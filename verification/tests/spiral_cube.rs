use spiral_cube::cube_to_spiral;
use spiral_cube::growing_trunc_tri;
use spiral_cube::modulo;
use spiral_cube::spiral_to_cube;
use spiral_cube::MAX_SPIRAL;

#[test]
fn test_spiral_to_cube() {
    // A few input values in spiral coordinates
    let spiral_vals: Vec<usize> = vec![0, 1, 4, 7, 45];

    let result = spiral_vals
        .into_iter()
        .map(|x| spiral_to_cube(x))
        .collect::<Vec<(i8, i8, i8)>>();

    // The cube coordinates they should map to
    let expected: Vec<(i8, i8, i8)> =
        vec![(0, 0, 0), (0, -1, 1), (0, 1, -1), (0, -2, 2), (4, 0, -4)];

    assert_eq!(expected, result);
}

#[test]
fn test_round_trip() {
    for x in 0..10000usize {
        let cube = spiral_to_cube(x);
        assert_eq!(cube_to_spiral(cube), Some(x));
    }
}

#[test]
fn test_round_trip_last_supported_index() {
    let cube = spiral_to_cube(MAX_SPIRAL);
    assert_eq!(cube_to_spiral(cube), Some(MAX_SPIRAL));
}

#[test]
fn test_sum_invariant() {
    for x in 0..10000usize {
        let (q, r, s) = spiral_to_cube(x);
        assert_eq!(q as i32 + r as i32 + s as i32, 0);
    }
}

#[test]
fn test_ring_invariant() {
    for x in 0..10000usize {
        let (q, r, s) = spiral_to_cube(x);
        let max_abs = (q as i32).abs().max((r as i32).abs()).max((s as i32).abs());
        assert_eq!(max_abs as usize, hex_spiral::ring(x));
    }
}

#[test]
fn test_origin() {
    assert_eq!(spiral_to_cube(0), (0, 0, 0));
    assert_eq!(cube_to_spiral((0, 0, 0)), Some(0));
}

#[test]
fn test_modulo() {
    assert_eq!(modulo(-1, 6), 5);
    assert_eq!(modulo(7, 6), 1);
    assert_eq!(modulo(0, 6), 0);
}

#[test]
fn test_cube_to_spiral_examples() {
    assert_eq!(cube_to_spiral((0, -1, 1)), Some(1));
    assert_eq!(cube_to_spiral((0, 1, -1)), Some(4));
    assert_eq!(cube_to_spiral((0, -2, 2)), Some(7));
    assert_eq!(cube_to_spiral((4, 0, -4)), Some(45));
}

// One full trip around ring 2 (spiral indices 7 through 18): each
// coordinate rises, holds a plateau at the ring number, and falls,
// including the truncated crests where the raw wave overshoots.
#[test]
fn test_ring_two_traversal() {
    let expected: Vec<(i8, i8, i8)> = vec![
        (0, -2, 2),
        (1, -2, 1),
        (2, -2, 0),
        (2, -1, -1),
        (2, 0, -2),
        (1, 1, -2),
        (0, 2, -2),
        (-1, 2, -1),
        (-2, 2, 0),
        (-2, 1, 1),
        (-2, 0, 2),
        (-1, -1, 2),
    ];
    for (k, want) in expected.into_iter().enumerate() {
        assert_eq!(spiral_to_cube(7 + k), want);
    }
}

// Boundary values of the wave itself on ring 2 (cycle start 7):
// the raw wave value equals the amplitude exactly at the plateau
// edges and overshoots in the middle of a plateau.
#[test]
fn test_wave_truncation_boundaries() {
    // Phase 0 (the q axis) over one cycle of ring 2
    let q_wave: Vec<i8> = (7..19).map(|x| growing_trunc_tri(x, 2, 7, 0)).collect();
    assert_eq!(q_wave, vec![0, 1, 2, 2, 2, 1, 0, -1, -2, -2, -2, -1]);

    // Phase 4 (the r axis) over the same cycle
    let r_wave: Vec<i8> = (7..19).map(|x| growing_trunc_tri(x, 2, 7, 4)).collect();
    assert_eq!(r_wave, vec![-2, -2, -2, -1, 0, 1, 2, 2, 2, 1, 0, -1]);
}

// The wave on ring 1, where the plateaus shrink to single hexagons and
// every value lies exactly on an integer boundary.
#[test]
fn test_wave_ring_one() {
    let q_wave: Vec<i8> = (1..7).map(|x| growing_trunc_tri(x, 1, 1, 0)).collect();
    assert_eq!(q_wave, vec![0, 1, 1, 0, -1, -1]);
}
