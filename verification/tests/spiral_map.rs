use video_to_df::spiral::index_to_spiral_coords;

#[test]
fn spiral_starts_at_origin() {
    assert_eq!(index_to_spiral_coords(0), (0, 0));
}

#[test]
fn spiral_first_ring() {
    // Ring 1 walks up the right edge, left along the top, down the left
    // edge, and right along the bottom.
    assert_eq!(index_to_spiral_coords(1), (1, 0));
    assert_eq!(index_to_spiral_coords(2), (1, 1));
    assert_eq!(index_to_spiral_coords(3), (0, 1));
    assert_eq!(index_to_spiral_coords(4), (-1, 1));
    assert_eq!(index_to_spiral_coords(5), (-1, 0));
    assert_eq!(index_to_spiral_coords(6), (-1, -1));
    assert_eq!(index_to_spiral_coords(7), (0, -1));
    assert_eq!(index_to_spiral_coords(8), (1, -1));
}

#[test]
fn spiral_second_ring_start_and_end() {
    // Ring 2 starts at (2, -1) (index 9 = 3*3) and ends at (2, -2)
    // (index 24).
    assert_eq!(index_to_spiral_coords(9), (2, -1));
    assert_eq!(index_to_spiral_coords(10), (2, 0));
    assert_eq!(index_to_spiral_coords(12), (2, 2));
    assert_eq!(index_to_spiral_coords(13), (1, 2));
    assert_eq!(index_to_spiral_coords(16), (-2, 2));
    assert_eq!(index_to_spiral_coords(20), (-2, -2));
    assert_eq!(index_to_spiral_coords(21), (-1, -2));
    assert_eq!(index_to_spiral_coords(24), (2, -2));
    assert_eq!(index_to_spiral_coords(25), (3, -2));
}

#[test]
fn spiral_injective_over_prefix() {
    // Injectivity, checked exhaustively on 0..300.
    let coords: Vec<(isize, isize)> = (0..300).map(index_to_spiral_coords).collect();
    for i in 0..coords.len() {
        for j in (i + 1)..coords.len() {
            assert_ne!(coords[i], coords[j], "indices {i} and {j} collide");
        }
    }
}

#[test]
fn spiral_large_index() {
    // Index 1_000_000 sits on ring 500: layer = (999 - 1)/2 + 1 = 500,
    // ring start 999^2 = 998001, offset 1999 of side 1000, so leg 1
    // (top edge): (500 - 1 - (1999 - 1000), 500).
    assert_eq!(index_to_spiral_coords(1_000_000), (-500, 500));
}
