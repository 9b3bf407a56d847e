use video_to_df::error::ImplError;
use video_to_df::monoframe::MonoFrame;

fn frame(data: Vec<u8>, w: u16, h: u16) -> MonoFrame {
    MonoFrame::new(data, w, h)
}

#[test]
fn solid_color_fills_every_pixel() {
    let f = MonoFrame::solid_color(3, 2, 99);
    assert_eq!(f.width, 3);
    assert_eq!(f.height, 2);
    assert_eq!(f.data, vec![99u8; 6]);
}

#[test]
fn add_border_area_and_layout() {
    // A 2x2 frame with border 1: area grows from 4 to (2+2)*(2+2) = 16.
    let f = frame(vec![1, 2, 3, 4], 2, 2);
    let b = f.add_border(1, 7);
    assert_eq!(b.width, 4);
    assert_eq!(b.height, 4);
    assert_eq!(b.data.len(), 16);
    // Original pixel (x, y) is at (x + 1, y + 1).
    assert_eq!(b.data[1 * 4 + 1], 1);
    assert_eq!(b.data[1 * 4 + 2], 2);
    assert_eq!(b.data[2 * 4 + 1], 3);
    assert_eq!(b.data[2 * 4 + 2], 4);
    // Everything else is the border color.
    for y in 0..4usize {
        for x in 0..4usize {
            if !(1..3).contains(&x) || !(1..3).contains(&y) {
                assert_eq!(b.data[y * 4 + x], 7, "border pixel at ({x}, {y})");
            }
        }
    }
}

#[test]
fn add_border_zero_width_is_identity() {
    let f = frame(vec![10, 20, 30, 40, 50, 60], 3, 2);
    let b = f.add_border(0, 255);
    assert_eq!(b.width, 3);
    assert_eq!(b.height, 2);
    assert_eq!(b.data, vec![10, 20, 30, 40, 50, 60]);
}

#[test]
fn add_border_wide_border() {
    let f = frame(vec![128], 1, 1);
    let b = f.add_border(2, 3);
    assert_eq!((b.width, b.height), (5, 5));
    assert_eq!(b.data[2 * 5 + 2], 128);
    assert_eq!(b.data.iter().filter(|&&p| p == 3).count(), 24);
}

#[test]
fn magnitude_transform_all_above_is_uniform_255() {
    // Every pixel strictly above the threshold: every pixel is a seed, the
    // maximum distance is zero, and the output is uniformly 255.
    let f = frame(vec![200; 9], 3, 3);
    let out = video_to_df::sdf::magnitude_sdf(&f).unwrap();
    assert_eq!(out.data, vec![255u8; 9]);
}

#[test]
fn dual_transform_all_below_is_uniform_255() {
    // Every pixel at or below the threshold: every pixel is a below-side
    // seed, and the dual-sided output is uniformly 255.
    let f = frame(vec![10; 6], 2, 3);
    let out = video_to_df::sdf::binary_sdf(&f).unwrap();
    assert_eq!(out.data, vec![255u8; 6]);
}

#[test]
fn dual_transform_2x2_example() {
    // The 2x2 checker frame: above pixels keep the below-derived byte 255
    // (distance 1 to the below region at maximum 1); below pixels are
    // below-side seeds (byte 128), so the tie-break takes the above-derived
    // byte, 0 (distance 1 to the above region at maximum 1).
    let f = frame(vec![0, 255, 0, 255], 2, 2);
    let out = video_to_df::sdf::binary_sdf(&f).unwrap();
    assert_eq!(out.data, vec![0, 255, 0, 255]);
    assert_eq!((out.width, out.height), (2, 2));
}

#[test]
fn dual_transform_1x3_exact_values() {
    // Above field: distances [0, 1, 2], max 2; below field: [1, 0, 0], max 1.
    // Pixel 0: below byte 128 + round(127 * 1/1) = 255.
    // Pixel 1: below byte 128, masked to above byte round((1 - 1/2)*127) = 64.
    // Pixel 2: below byte 128, masked to above byte round((1 - 2/2)*127) = 0.
    let f = frame(vec![200, 0, 0], 3, 1);
    let out = video_to_df::sdf::binary_sdf(&f).unwrap();
    assert_eq!(out.data, vec![255, 64, 0]);
}

#[test]
fn magnitude_transform_1x3_exact_values() {
    // Distances to the above seed: [0, 1, 2], max 2; bytes are
    // round((1 - d/2) * 255): [255, 128, 0] (127.5 rounds up).
    let f = frame(vec![200, 0, 0], 3, 1);
    let out = video_to_df::sdf::magnitude_sdf(&f).unwrap();
    assert_eq!(out.data, vec![255, 128, 0]);
}

#[test]
fn zero_area_frame_is_rejected() {
    let f = frame(Vec::new(), 0, 5);
    assert!(matches!(
        video_to_df::sdf::binary_sdf(&f),
        Err(ImplError::EmptyDistanceField)
    ));
    assert!(matches!(
        video_to_df::sdf::magnitude_sdf(&f),
        Err(ImplError::EmptyDistanceField)
    ));
}

#[test]
fn chebyshev_distances_two_pass() {
    // A single above seed in the corner of a 3x3 frame: Chebyshev (king
    // move) distances radiate from it.
    let mut data = vec![0u8; 9];
    data[0] = 255;
    let above = video_to_df::sdf::chebyshev_sdf_above(&data, 3, 3, 127);
    assert_eq!(above, vec![0, 1, 2, 1, 1, 2, 2, 2, 2]);
    let below = video_to_df::sdf::chebyshev_sdf_below(&data, 3, 3, 127);
    assert_eq!(below, vec![1, 0, 0, 0, 0, 0, 0, 0, 0]);
}

#[test]
fn chebyshev_no_seed_leaves_sentinel() {
    // No pixel above the threshold: the sentinel width + height survives
    // both passes.
    let data = vec![0u8; 4];
    let above = video_to_df::sdf::chebyshev_sdf_above(&data, 2, 2, 127);
    assert_eq!(above, vec![4, 4, 4, 4]);
}

#[test]
fn threshold_is_127_boundary() {
    // 127 is below-or-equal; 128 is above.
    let f = frame(vec![127, 128], 2, 1);
    let above = video_to_df::sdf::chebyshev_sdf_above(&f.data, 2, 1, 127);
    assert_eq!(above, vec![1, 0]);
    let below = video_to_df::sdf::chebyshev_sdf_below(&f.data, 2, 1, 127);
    assert_eq!(below, vec![0, 1]);
}
