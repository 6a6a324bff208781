use angler::{detect_edges, Aperture, DetectionError, EdgeConfig, EdgeMap, Frame};

/// A frame whose rows all hold `row`.
fn striped(row: &[u8], height: u32) -> Frame {
    let mut pixels = Vec::new();
    for _ in 0..height {
        pixels.extend_from_slice(row);
    }
    Frame::new(row.len() as u32, height, pixels, 0).unwrap()
}

fn edge_columns(map: &EdgeMap, y: u32) -> Vec<u32> {
    (0..map.width()).filter(|x| map.get(*x, y) == Some(true)).collect()
}

fn config(low: u32, high: u32, aperture: Aperture) -> EdgeConfig {
    EdgeConfig { low, high, aperture }
}

/// The gradient at `(x, y)`, read off by moving a single threshold.
fn gradient_at(frame: &Frame, aperture: Aperture, x: u32, y: u32) -> u32 {
    let mut low = 0u32;
    let mut high = 4_000_000u32;
    if detect_edges(frame, &config(0, 0, aperture)).get(x, y) != Some(true) {
        return 0;
    }
    while high - low > 1 {
        let mid = low + (high - low) / 2;
        if detect_edges(frame, &config(mid, mid, aperture)).get(x, y) == Some(true) {
            low = mid;
        } else {
            high = mid;
        }
    }
    high
}

#[test]
fn the_filter_gives_the_same_map_twice() {
    let row = [0, 0, 0, 20, 50, 50, 50, 50, 50, 50, 65, 65, 65, 65, 65, 65];
    let frame = striped(&row, 6);
    let first = detect_edges(&frame, &EdgeConfig::standard());
    let second = detect_edges(&frame, &EdgeConfig::standard());
    assert!(first.same_as(&second));
    assert_eq!(first.width(), 16);
    assert_eq!(first.height(), 6);
}

#[test]
fn a_blank_frame_has_no_edges() {
    let frame = Frame::new(12, 9, vec![200; 108], 0).unwrap();
    let map = detect_edges(&frame, &EdgeConfig::standard());
    for y in 0..9 {
        assert_eq!(edge_columns(&map, y), Vec::<u32>::new());
    }
}

#[test]
fn a_step_is_an_edge_on_both_of_its_sides() {
    let row = [0, 0, 0, 0, 255, 255, 255, 255];
    let frame = striped(&row, 5);
    let map = detect_edges(&frame, &EdgeConfig::standard());
    for y in 0..5 {
        assert_eq!(edge_columns(&map, y), vec![3, 4]);
    }
}

#[test]
fn a_weak_gradient_is_an_edge_only_next_to_a_strong_one() {
    // Per column the gradient is four times the difference of the two
    // neighbours: 80 at column 2, 200 at 3, 120 at 4, 60 at 9 and 10.
    let row = [0, 0, 0, 20, 50, 50, 50, 50, 50, 50, 65, 65, 65, 65, 65, 65];
    let frame = striped(&row, 6);
    let map = detect_edges(&frame, &EdgeConfig::standard());
    for y in 0..6 {
        assert_eq!(edge_columns(&map, y), vec![2, 3, 4]);
    }
}

#[test]
fn a_weak_gradient_alone_is_no_edge() {
    let row = [50, 50, 50, 50, 65, 65, 65, 65];
    let frame = striped(&row, 4);
    let map = detect_edges(&frame, &EdgeConfig::standard());
    for y in 0..4 {
        assert_eq!(edge_columns(&map, y), Vec::<u32>::new());
    }
    let lower = detect_edges(&frame, &config(50, 59, Aperture::Three));
    for y in 0..4 {
        assert_eq!(edge_columns(&lower, y), vec![3, 4]);
    }
}

#[test]
fn a_weak_line_hangs_on_its_strong_end() {
    // The lower half is a little brighter than the upper one, which gives
    // a weak line along rows 5 and 6. At its left end two columns are much
    // brighter: there the line is strong.
    let mut pixels = vec![0u8; 12 * 12];
    for y in 0..12 {
        for x in 0..12 {
            pixels[y * 12 + x] = if y >= 6 { 20 } else { 0 };
        }
    }
    for y in 6..12 {
        pixels[y * 12] = 60;
        pixels[y * 12 + 1] = 60;
    }
    let frame = Frame::new(12, 12, pixels, 0).unwrap();
    let map = detect_edges(&frame, &EdgeConfig::standard());
    let strong = detect_edges(&frame, &config(100, 100, Aperture::Three));
    let weak = detect_edges(&frame, &config(50, 50, Aperture::Three));
    let mut strong_count = 0;
    for y in 0..12 {
        for x in 0..12 {
            let s = strong.get(x, y) == Some(true);
            let w = weak.get(x, y) == Some(true);
            let e = map.get(x, y) == Some(true);
            if s {
                strong_count += 1;
            }
            assert!(!s || e);
            assert!(!e || w);
        }
    }
    assert!(strong_count > 0);
    assert_eq!(strong.get(8, 5), Some(false));
    assert_eq!(gradient_at(&frame, Aperture::Three, 8, 5), 80);
    assert_eq!(map.get(8, 5), Some(true));
    assert_eq!(map.get(11, 6), Some(true));
    assert_eq!(map.get(8, 2), Some(false));
}

#[test]
fn the_gradient_of_aperture_three_is_the_sobel_sum() {
    let row = [0, 0, 0, 0, 255, 255, 255, 255];
    let frame = striped(&row, 5);
    assert_eq!(gradient_at(&frame, Aperture::Three, 2, 2), 0);
    assert_eq!(gradient_at(&frame, Aperture::Three, 3, 2), 1020);
    assert_eq!(gradient_at(&frame, Aperture::Three, 4, 2), 1020);
    assert_eq!(gradient_at(&frame, Aperture::Three, 5, 2), 0);
    assert_eq!(gradient_at(&frame, Aperture::Three, 3, 0), 1020);
}

#[test]
fn the_gradient_of_aperture_five_weighs_two_columns_each_side() {
    let row = [0, 0, 0, 0, 0, 255, 255, 255, 255, 255];
    let frame = striped(&row, 7);
    assert_eq!(gradient_at(&frame, Aperture::Five, 2, 3), 0);
    assert_eq!(gradient_at(&frame, Aperture::Five, 3, 3), 4080);
    assert_eq!(gradient_at(&frame, Aperture::Five, 4, 3), 12240);
    assert_eq!(gradient_at(&frame, Aperture::Five, 5, 3), 12240);
    assert_eq!(gradient_at(&frame, Aperture::Five, 6, 3), 4080);
    assert_eq!(gradient_at(&frame, Aperture::Five, 7, 3), 0);
}

#[test]
fn the_gradient_of_aperture_seven_weighs_three_columns_each_side() {
    let row = [0, 0, 0, 0, 0, 0, 255, 255, 255, 255, 255, 255];
    let frame = striped(&row, 9);
    // Differencing weights -1 -4 -5 0 5 4 1, averaging weights sum to 64.
    assert_eq!(gradient_at(&frame, Aperture::Seven, 2, 4), 0);
    assert_eq!(gradient_at(&frame, Aperture::Seven, 3, 4), 64 * 255);
    assert_eq!(gradient_at(&frame, Aperture::Seven, 4, 4), 64 * 255 * 5);
    assert_eq!(gradient_at(&frame, Aperture::Seven, 5, 4), 64 * 255 * 10);
    assert_eq!(gradient_at(&frame, Aperture::Seven, 6, 4), 64 * 255 * 10);
    assert_eq!(gradient_at(&frame, Aperture::Seven, 7, 4), 64 * 255 * 5);
    assert_eq!(gradient_at(&frame, Aperture::Seven, 8, 4), 64 * 255);
    assert_eq!(gradient_at(&frame, Aperture::Seven, 9, 4), 0);
}

#[test]
fn both_derivatives_add_up_at_a_corner() {
    // A bright quadrant at the lower right: at its corner the horizontal
    // and the vertical derivative are 3 * 255 each.
    let mut pixels = vec![0u8; 8 * 8];
    for y in 4..8 {
        for x in 4..8 {
            pixels[y * 8 + x] = 255;
        }
    }
    let frame = Frame::new(8, 8, pixels, 0).unwrap();
    assert_eq!(gradient_at(&frame, Aperture::Three, 4, 4), 6 * 255);
    assert_eq!(gradient_at(&frame, Aperture::Three, 3, 3), 2 * 255);
    assert_eq!(gradient_at(&frame, Aperture::Three, 4, 6), 4 * 255);
    assert_eq!(gradient_at(&frame, Aperture::Three, 6, 4), 4 * 255);
}

#[test]
fn the_rim_of_the_frame_is_repeated_outward() {
    // With the rim repeated, a frame whose columns differ only inside has
    // no gradient on its outer columns.
    let row = [10, 10, 200, 200];
    let frame = striped(&row, 3);
    assert_eq!(gradient_at(&frame, Aperture::Three, 0, 1), 0);
    assert_eq!(gradient_at(&frame, Aperture::Three, 1, 1), 4 * 190);
    assert_eq!(gradient_at(&frame, Aperture::Three, 2, 1), 4 * 190);
    assert_eq!(gradient_at(&frame, Aperture::Three, 3, 1), 0);
    let single = Frame::new(1, 1, vec![255], 0).unwrap();
    let map = detect_edges(&single, &config(0, 0, Aperture::Seven));
    assert_eq!(map.get(0, 0), Some(false));
}

#[test]
fn an_upper_threshold_below_the_lower_one_still_starts_edges() {
    let row = [50, 50, 50, 50, 65, 65, 65, 65];
    let frame = striped(&row, 4);
    let map = detect_edges(&frame, &config(1000, 59, Aperture::Three));
    for y in 0..4 {
        assert_eq!(edge_columns(&map, y), vec![3, 4]);
    }
}

#[test]
fn an_empty_frame_has_an_empty_edge_map() {
    let frame = Frame::new(0, 0, vec![], 0).unwrap();
    let map = detect_edges(&frame, &EdgeConfig::standard());
    assert_eq!(map.width(), 0);
    assert_eq!(map.height(), 0);
    assert_eq!(map.get(0, 0), None);
}

#[test]
fn the_shipped_edge_settings_are_50_100_and_3() {
    let config = EdgeConfig::standard();
    assert_eq!(config.low, 50);
    assert_eq!(config.high, 100);
    assert_eq!(config.aperture, Aperture::Three);
    assert_eq!(EdgeConfig::default(), config);
}

#[test]
fn apertures_are_three_five_and_seven() {
    assert_eq!(Aperture::from_size(3), Some(Aperture::Three));
    assert_eq!(Aperture::from_size(5), Some(Aperture::Five));
    assert_eq!(Aperture::from_size(7), Some(Aperture::Seven));
    for size in [0, 1, 2, 4, 6, 8, 9] {
        assert_eq!(Aperture::from_size(size), None);
    }
    assert_eq!(Aperture::Three.size(), 3);
    assert_eq!(Aperture::Five.size(), 5);
    assert_eq!(Aperture::Seven.size(), 7);
    assert_eq!(Aperture::Three.radius(), 1);
    assert_eq!(Aperture::Five.radius(), 2);
    assert_eq!(Aperture::Seven.radius(), 3);
}

#[test]
fn an_edge_map_needs_one_flag_per_position() {
    assert!(EdgeMap::new(2, 2, vec![true, false, false, true]).is_ok());
    assert_eq!(
        EdgeMap::new(2, 2, vec![true, false, false]).unwrap_err(),
        DetectionError::BufferSizeMismatch
    );
    let map = EdgeMap::new(2, 2, vec![true, false, false, true]).unwrap();
    assert_eq!(map.get(0, 0), Some(true));
    assert_eq!(map.get(1, 0), Some(false));
    assert_eq!(map.get(0, 1), Some(false));
    assert_eq!(map.get(1, 1), Some(true));
    assert_eq!(map.get(2, 0), None);
    assert_eq!(map.get(0, 2), None);
}

#[test]
fn an_edge_map_is_read_out_of_an_image() {
    let frame = Frame::new(3, 2, vec![0, 255, 0, 1, 0, 200], 0).unwrap();
    let map = EdgeMap::from_frame(&frame);
    let expected = EdgeMap::new(3, 2, vec![false, true, false, true, false, true]).unwrap();
    assert!(map.same_as(&expected));
    let other = EdgeMap::new(3, 2, vec![false, true, false, true, false, false]).unwrap();
    assert!(!map.same_as(&other));
    let reshaped = EdgeMap::new(2, 3, vec![false, true, false, true, false, true]).unwrap();
    assert!(!map.same_as(&reshaped));
}
