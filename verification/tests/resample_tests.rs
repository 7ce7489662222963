use ambilight_player::resample::{resample_frame, rotate_led_frame, source_index};

#[test]
fn identity_mapping_when_counts_match() {
    let raw = vec![10, 20, 30, 40, 50, 60];
    let out = resample_frame(&raw, 2, 2, 3);
    assert_eq!(out, raw);
}

#[test]
fn doubling_reads_each_source_twice() {
    let raw = vec![1, 2, 3, 4, 5, 6];
    let out = resample_frame(&raw, 2, 4, 3);
    assert_eq!(out, vec![1, 2, 3, 1, 2, 3, 4, 5, 6, 4, 5, 6]);
}

#[test]
fn downsampling_picks_nearest_source() {
    let raw = vec![1, 2, 3, 4, 5, 6, 7, 8, 9];
    // Targets 0, 1, 2 read sources floor(0*3/3)=0 ... identity at 3;
    // with one target, only source 0 remains.
    let out = resample_frame(&raw, 3, 1, 3);
    assert_eq!(out, vec![1, 2, 3]);
}

#[test]
fn source_index_is_floor_of_scaled_position() {
    assert_eq!(source_index(0, 3, 2), 0);
    assert_eq!(source_index(1, 3, 2), 1);
    assert_eq!(source_index(5, 10, 20), 2);
    assert_eq!(source_index(7, 10, 20), 3);
    assert_eq!(source_index(0, 10, 0), 0);
}

#[test]
fn rotation_shifts_zones_forward() {
    let frame = vec![1, 2, 3, 4, 5, 6, 7, 8, 9, 10, 11, 12];
    let out = rotate_led_frame(&frame, 1, 4, 3);
    assert_eq!(out, vec![4, 5, 6, 7, 8, 9, 10, 11, 12, 1, 2, 3]);
}

#[test]
fn zero_rotation_copies_the_frame() {
    let frame = vec![9, 8, 7, 6, 5, 4];
    let out = rotate_led_frame(&frame, 0, 2, 3);
    assert_eq!(out, frame);
}

#[test]
fn complementary_rotations_cancel() {
    let frame: Vec<u8> = (0..24).collect();
    for n in 0..=8usize {
        let once = rotate_led_frame(&frame, n, 8, 3);
        let back = rotate_led_frame(&once, 8 - n, 8, 3);
        assert_eq!(back, frame, "rotation {} did not cancel", n);
    }
}

#[test]
fn rotation_wraps_rgbw_zones() {
    let frame = vec![1, 2, 3, 4, 5, 6, 7, 8];
    let out = rotate_led_frame(&frame, 1, 2, 4);
    assert_eq!(out, vec![5, 6, 7, 8, 1, 2, 3, 4]);
}
