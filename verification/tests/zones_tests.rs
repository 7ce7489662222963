use ambilight_player::util::clamp;
use ambilight_player::zones::compute_led_zones;

#[test]
fn clamp_orders_bounds() {
    assert_eq!(clamp(5, 0, 10), 5);
    assert_eq!(clamp(-5, 0, 10), 0);
    assert_eq!(clamp(15, 0, 10), 10);
    // When the bounds cross, the upper cap is applied last and wins.
    assert_eq!(clamp(5, 12, 1), 1);
}

/// Floating-point reference for the zone layout, the arithmetic written
/// exactly as the band and span formulas read: spacings and spans computed
/// in `f64`, truncated or rounded to `i32`.
fn reference_zones(width: u32, height: u32, counts: (u16, u16, u16, u16)) -> Vec<(i32, i32, i32, i32)> {
    let w = width as i32;
    let h = height as i32;
    let (top_count, bottom_count, left_count, right_count) = counts;

    let top_spacing = if top_count > 0 { w as f64 / top_count as f64 } else { w as f64 };
    let bottom_spacing = if bottom_count > 0 { w as f64 / bottom_count as f64 } else { w as f64 };
    let left_spacing = if left_count > 0 { h as f64 / left_count as f64 } else { h as f64 };
    let right_spacing = if right_count > 0 { h as f64 / right_count as f64 } else { h as f64 };

    let top_h = clamp((top_spacing * 2.0).round() as i32, 12, (h as f64 * 0.12) as i32);
    let bottom_h = clamp((bottom_spacing * 2.0).round() as i32, 12, (h as f64 * 0.12) as i32);
    let left_w = clamp((left_spacing * 2.0).round() as i32, 12, (w as f64 * 0.12) as i32);
    let right_w = clamp((right_spacing * 2.0).round() as i32, 12, (w as f64 * 0.12) as i32);

    let mut zones = Vec::new();
    for i in 0..top_count {
        let x1 = (i as f64 * w as f64 / top_count as f64) as i32;
        let x2 = ((i + 1) as f64 * w as f64 / top_count as f64) as i32;
        zones.push((x1, 0, x2, top_h));
    }
    for i in 0..right_count {
        let y1 = (i as f64 * h as f64 / right_count as f64) as i32;
        let y2 = ((i + 1) as f64 * h as f64 / right_count as f64) as i32;
        zones.push((w - right_w, y1, w, y2));
    }
    for i in 0..bottom_count {
        let x2 = (w as f64 - i as f64 * w as f64 / bottom_count as f64) as i32;
        let x1 = (w as f64 - (i + 1) as f64 * w as f64 / bottom_count as f64) as i32;
        zones.push((x1, h - bottom_h, x2, h));
    }
    for i in 0..left_count {
        let y2 = (h as f64 - i as f64 * h as f64 / left_count as f64) as i32;
        let y1 = (h as f64 - (i + 1) as f64 * h as f64 / left_count as f64) as i32;
        zones.push((0, y1, left_w, y2));
    }
    zones
}

#[test]
fn matches_floating_point_reference_full_hd() {
    let counts = (10, 10, 5, 5);
    assert_eq!(compute_led_zones(1920, 1080, counts), reference_zones(1920, 1080, counts));
}

#[test]
fn matches_floating_point_reference_odd_sizes() {
    for &(w, h, counts) in &[
        (1279u32, 719u32, (7u16, 9u16, 3u16, 4u16)),
        (640, 480, (150, 150, 85, 85)),
        (99, 77, (1, 1, 1, 1)),
        (3840, 2160, (60, 60, 34, 34)),
        (10, 10, (3, 3, 3, 3)),
    ] {
        assert_eq!(
            compute_led_zones(w, h, counts),
            reference_zones(w, h, counts),
            "layout diverged for {}x{} {:?}",
            w,
            h,
            counts
        );
    }
}

#[test]
fn zone_count_and_walk_order() {
    let zones = compute_led_zones(1920, 1080, (4, 4, 2, 2));
    assert_eq!(zones.len(), 12);
    // Top edge runs left to right along y = 0.
    assert_eq!(zones[0].0, 0);
    assert_eq!(zones[0].1, 0);
    assert_eq!(zones[3].2, 1920);
    // Right edge hugs x = 1920.
    assert_eq!(zones[4].2, 1920);
    // Bottom edge runs right to left along y = 1080.
    assert_eq!(zones[6].2, 1920);
    assert_eq!(zones[6].3, 1080);
    // Left edge hugs x = 0, walked bottom to top.
    assert_eq!(zones[10].0, 0);
    assert_eq!(zones[11].1, 0);
}

#[test]
fn empty_edges_yield_no_zones() {
    assert_eq!(compute_led_zones(1920, 1080, (0, 0, 0, 0)), vec![]);
    assert_eq!(compute_led_zones(1920, 1080, (2, 0, 0, 0)).len(), 2);
}
