use angler::{
    aim_point, detect_edges, find_bobber, locate, locate_in_frame, DetectionError, EdgeConfig,
    EdgeMap, Frame, MatchResult, PointerOffset, Region,
};

fn map_of(width: u32, height: u32, rows: &[&str]) -> EdgeMap {
    let mut cells = Vec::new();
    for row in rows {
        for c in row.chars() {
            cells.push(c == '#');
        }
    }
    EdgeMap::new(width, height, cells).unwrap()
}

fn blank(width: u32, height: u32) -> Vec<bool> {
    vec![false; (width * height) as usize]
}

fn paste(cells: &mut [bool], width: u32, tpl: &EdgeMap, x0: u32, y0: u32) {
    for j in 0..tpl.height() {
        for i in 0..tpl.width() {
            cells[((y0 + j) * width + x0 + i) as usize] = tpl.get(i, j).unwrap();
        }
    }
}

fn ring() -> EdgeMap {
    map_of(4, 4, &["####", "#..#", "#..#", "####"])
}

#[test]
fn a_pasted_template_is_found_where_it_was_pasted() {
    let tpl = ring();
    for (x0, y0) in [(0, 0), (5, 3), (16, 0), (0, 11), (16, 11), (7, 7)] {
        let mut cells = blank(20, 15);
        paste(&mut cells, 20, &tpl, x0, y0);
        let frame = EdgeMap::new(20, 15, cells).unwrap();
        let found = locate(&frame, &tpl).unwrap();
        assert_eq!((found.x, found.y), (x0, y0));
        assert!(found.score_ppm as f64 / 1_000_000.0 > 0.99);
        assert_eq!(found.score_ppm, 1_000_000);
    }
}

#[test]
fn a_template_larger_than_the_frame_is_refused() {
    let frame = EdgeMap::new(4, 4, blank(4, 4)).unwrap();
    let wider = EdgeMap::new(5, 2, blank(5, 2)).unwrap();
    let taller = EdgeMap::new(2, 5, blank(2, 5)).unwrap();
    let both = EdgeMap::new(5, 5, blank(5, 5)).unwrap();
    assert_eq!(locate(&frame, &wider), Err(DetectionError::TemplateLargerThanFrame));
    assert_eq!(locate(&frame, &taller), Err(DetectionError::TemplateLargerThanFrame));
    assert_eq!(locate(&frame, &both), Err(DetectionError::TemplateLargerThanFrame));
    let same = EdgeMap::new(4, 4, blank(4, 4)).unwrap();
    assert!(locate(&frame, &same).is_ok());
}

#[test]
fn of_two_equal_matches_the_first_row_by_row_wins() {
    let tpl = ring();
    let mut cells = blank(20, 15);
    paste(&mut cells, 20, &tpl, 12, 2);
    paste(&mut cells, 20, &tpl, 3, 9);
    let frame = EdgeMap::new(20, 15, cells).unwrap();
    let found = locate(&frame, &tpl).unwrap();
    assert_eq!((found.x, found.y, found.score_ppm), (12, 2, 1_000_000));

    let mut cells = blank(20, 15);
    paste(&mut cells, 20, &tpl, 12, 5);
    paste(&mut cells, 20, &tpl, 3, 5);
    let frame = EdgeMap::new(20, 15, cells).unwrap();
    let found = locate(&frame, &tpl).unwrap();
    assert_eq!((found.x, found.y, found.score_ppm), (3, 5, 1_000_000));
}

#[test]
fn a_match_is_returned_however_low_the_score() {
    let tpl = ring();
    let frame = EdgeMap::new(9, 9, blank(9, 9)).unwrap();
    let found = locate(&frame, &tpl).unwrap();
    assert_eq!(found, MatchResult { x: 0, y: 0, score_ppm: 0 });
    assert!(!found.reaches(1));
    assert!(found.reaches(0));
}

#[test]
fn a_template_without_variance_scores_zero_everywhere() {
    let full = map_of(2, 2, &["##", "##"]);
    let none = map_of(2, 2, &["..", ".."]);
    let frame = map_of(4, 3, &["##..", "##..", "...."]);
    assert_eq!(locate(&frame, &full).unwrap(), MatchResult { x: 0, y: 0, score_ppm: 0 });
    assert_eq!(locate(&frame, &none).unwrap(), MatchResult { x: 0, y: 0, score_ppm: 0 });
}

#[test]
fn the_score_is_the_normalized_correlation_in_millionths() {
    // Four cells, two edges in the template, one in the window, one shared:
    // (4 * 1 - 2 * 1) / sqrt(2 * 2 * 1 * 3) = 0.577350...
    let tpl = map_of(4, 1, &["##.."]);
    let frame = map_of(4, 1, &["#..."]);
    assert_eq!(locate(&frame, &tpl).unwrap(), MatchResult { x: 0, y: 0, score_ppm: 577_350 });
    // Three of four cells agree: (4 * 2 - 2 * 3) / sqrt(4 * 3) as well.
    let frame = map_of(4, 1, &["###."]);
    assert_eq!(locate(&frame, &tpl).unwrap().score_ppm, 577_350);
    // Nine cells, three edges each, two shared: (18 - 9) / 18 = 0.5.
    let tpl = map_of(3, 3, &["###", "...", "..."]);
    let frame = map_of(3, 3, &["##.", "#..", "..."]);
    assert_eq!(locate(&frame, &tpl).unwrap().score_ppm, 500_000);
}

#[test]
fn the_opposite_pattern_scores_minus_one() {
    let tpl = map_of(4, 1, &["##.."]);
    let frame = map_of(4, 1, &["..##"]);
    assert_eq!(locate(&frame, &tpl).unwrap(), MatchResult { x: 0, y: 0, score_ppm: -1_000_000 });
    let frame = map_of(4, 1, &[".#.#"]);
    assert_eq!(locate(&frame, &tpl).unwrap().score_ppm, 0);
    let frame = map_of(4, 1, &["...#"]);
    assert_eq!(locate(&frame, &tpl).unwrap().score_ppm, -577_350);
}

#[test]
fn the_best_of_several_partial_matches_is_taken() {
    let tpl = map_of(3, 1, &["##."]);
    // The windows score 0.5, -0.5, -0.5, 1 and -0.5.
    let frame = map_of(7, 1, &[".#.##.."]);
    let found = locate(&frame, &tpl).unwrap();
    assert_eq!((found.x, found.y, found.score_ppm), (3, 0, 1_000_000));
    // The windows score 0.5, -0.5 and 0.5: the first of the two best wins.
    let frame = map_of(5, 1, &[".#.#."]);
    let found = locate(&frame, &tpl).unwrap();
    assert_eq!((found.x, found.y, found.score_ppm), (0, 0, 500_000));
}

#[test]
fn a_negative_best_score_is_still_the_largest() {
    let tpl = map_of(2, 1, &["#."]);
    // The first window is the opposite of the template, the second the
    // template itself.
    let frame = map_of(3, 1, &[".#."]);
    let found = locate(&frame, &tpl).unwrap();
    assert_eq!((found.x, found.y, found.score_ppm), (1, 0, 1_000_000));
    // With the opposite alone, minus one is the best there is.
    let frame = map_of(2, 1, &[".#"]);
    let found = locate(&frame, &tpl).unwrap();
    assert_eq!((found.x, found.y, found.score_ppm), (0, 0, -1_000_000));
}

#[test]
fn an_empty_template_matches_at_the_origin() {
    let tpl = EdgeMap::new(0, 0, vec![]).unwrap();
    let frame = map_of(3, 2, &["#.#", ".#."]);
    assert_eq!(locate(&frame, &tpl).unwrap(), MatchResult { x: 0, y: 0, score_ppm: 0 });
    let nothing = EdgeMap::new(0, 0, vec![]).unwrap();
    assert_eq!(locate(&nothing, &tpl).unwrap(), MatchResult { x: 0, y: 0, score_ppm: 0 });
}

#[test]
fn a_sparse_template_of_millions_of_cells_is_matched() {
    let mut cells = blank(2048, 1024);
    cells[5] = true;
    cells[9000] = true;
    let tpl = EdgeMap::new(2048, 1024, cells.clone()).unwrap();
    let frame = EdgeMap::new(2048, 1024, cells).unwrap();
    assert_eq!(locate(&frame, &tpl).unwrap(), MatchResult { x: 0, y: 0, score_ppm: 1_000_000 });
}

/// A dark frame with one bright square.
fn scene(width: u32, height: u32, x0: u32, y0: u32, side: u32) -> Frame {
    let mut pixels = vec![0u8; (width * height) as usize];
    for y in y0..y0 + side {
        for x in x0..x0 + side {
            pixels[(y * width + x) as usize] = 255;
        }
    }
    Frame::new(width, height, pixels, 0).unwrap()
}

#[test]
fn the_bobber_is_found_in_a_grayscale_frame() {
    let config = EdgeConfig::standard();
    let template = detect_edges(&scene(18, 18, 4, 4, 10), &config);
    let frame = scene(40, 40, 15, 12, 10);
    let found = locate_in_frame(&frame, &template, &config).unwrap();
    assert_eq!(found, MatchResult { x: 11, y: 8, score_ppm: 1_000_000 });
    let templates = vec![template];
    assert_eq!(find_bobber(&frame, &templates, &config), Ok(found));
}

#[test]
fn only_the_first_template_takes_part() {
    let config = EdgeConfig::standard();
    let square = detect_edges(&scene(18, 18, 4, 4, 10), &config);
    let other = detect_edges(&scene(12, 12, 4, 4, 4), &config);
    let frame = scene(40, 40, 15, 12, 10);
    let found = find_bobber(&frame, &vec![other, square], &config).unwrap();
    assert!(found.score_ppm < 1_000_000);
    let huge = EdgeMap::new(50, 50, blank(50, 50)).unwrap();
    let square = detect_edges(&scene(18, 18, 4, 4, 10), &config);
    assert_eq!(
        find_bobber(&frame, &vec![huge, square], &config),
        Err(DetectionError::TemplateLargerThanFrame)
    );
}

#[test]
fn without_a_template_nothing_is_found() {
    let frame = scene(40, 40, 15, 12, 10);
    assert_eq!(
        find_bobber(&frame, &Vec::new(), &EdgeConfig::standard()),
        Err(DetectionError::EmptyTemplateSet)
    );
}

#[test]
fn the_region_of_a_match_has_the_size_of_the_template() {
    let found = MatchResult { x: 11, y: 8, score_ppm: 1_000_000 };
    assert_eq!(found.region(18, 17), Region { x: 11, y: 8, width: 18, height: 17 });
    assert!(found.reaches(990_000));
    assert!(found.reaches(1_000_000));
    assert!(!found.reaches(1_000_001));
}

#[test]
fn the_pointer_goes_to_the_centre_of_the_region_plus_the_offset() {
    let region = Region::new(10, 20, 30, 40);
    assert_eq!(aim_point(region, PointerOffset::standard()), (25, 109));
    assert_eq!(aim_point(region, PointerOffset { dx: 0, dy: 0 }), (25, 40));
    assert_eq!(aim_point(region, PointerOffset { dx: -30, dy: -50 }), (-5, -10));
    assert_eq!(aim_point(Region::new(0, 0, 5, 7), PointerOffset { dx: 0, dy: 0 }), (2, 3));
    assert_eq!(
        aim_point(
            Region::new(u32::MAX, u32::MAX, u32::MAX, u32::MAX),
            PointerOffset { dx: i32::MAX, dy: i32::MIN }
        ),
        (4294967295 + 2147483647 + 2147483647, 4294967295 + 2147483647 - 2147483648)
    );
    assert_eq!(PointerOffset::standard(), PointerOffset { dx: 0, dy: 69 });
}

/// A reproducible scatter of flags.
fn scatter(len: usize, seed: u64, one_in: u64) -> Vec<bool> {
    let mut state = seed;
    let mut cells = Vec::with_capacity(len);
    for _ in 0..len {
        state = state.wrapping_mul(6364136223846793005).wrapping_add(1442695040888963407);
        cells.push((state >> 33) % one_in == 0);
    }
    cells
}

/// The correlation of the template with the window at `(x, y)`, from the
/// textbook formula in floating point.
fn reference_score(frame: &EdgeMap, tpl: &EdgeMap, x: u32, y: u32) -> f64 {
    let n = (tpl.width() * tpl.height()) as f64;
    let value = |b: bool| if b { 1.0 } else { 0.0 };
    let mut mean_t = 0.0;
    let mut mean_w = 0.0;
    for j in 0..tpl.height() {
        for i in 0..tpl.width() {
            mean_t += value(tpl.get(i, j).unwrap()) / n;
            mean_w += value(frame.get(x + i, y + j).unwrap()) / n;
        }
    }
    let mut cov = 0.0;
    let mut var_t = 0.0;
    let mut var_w = 0.0;
    for j in 0..tpl.height() {
        for i in 0..tpl.width() {
            let t = value(tpl.get(i, j).unwrap()) - mean_t;
            let w = value(frame.get(x + i, y + j).unwrap()) - mean_w;
            cov += t * w;
            var_t += t * t;
            var_w += w * w;
        }
    }
    if var_t * var_w < 1e-12 {
        0.0
    } else {
        cov / (var_t * var_w).sqrt()
    }
}

#[test]
fn the_search_agrees_with_the_textbook_formula() {
    for seed in 1..6u64 {
        let frame = EdgeMap::new(37, 23, scatter(37 * 23, seed, 3)).unwrap();
        let tpl = EdgeMap::new(5, 4, scatter(20, seed + 100, 2)).unwrap();
        let found = locate(&frame, &tpl).unwrap();
        let mut best = (0u32, 0u32, f64::NEG_INFINITY);
        for y in 0..=23 - 4 {
            for x in 0..=37 - 5 {
                let score = reference_score(&frame, &tpl, x, y);
                if score > best.2 + 1e-9 {
                    best = (x, y, score);
                }
            }
        }
        assert_eq!((found.x, found.y), (best.0, best.1));
        let got = found.score_ppm as f64 / 1_000_000.0;
        assert!((got - best.2).abs() < 2e-6);
        assert!(got <= best.2 + 1e-9);
    }
}

#[test]
fn a_copy_is_found_among_scattered_edges_of_a_large_frame() {
    let width = 640;
    let height = 360;
    let tpl = EdgeMap::new(24, 24, scatter(24 * 24, 7, 4)).unwrap();
    let mut cells = scatter((width * height) as usize, 11, 9);
    paste(&mut cells, width, &tpl, 411, 203);
    let frame = EdgeMap::new(width, height, cells).unwrap();
    let found = locate(&frame, &tpl).unwrap();
    assert_eq!(found, MatchResult { x: 411, y: 203, score_ppm: 1_000_000 });
}

#[test]
fn a_dense_template_of_millions_of_cells_is_found_where_it_was_pasted() {
    let tpl = EdgeMap::new(2048, 1025, scatter(2048 * 1025, 21, 2)).unwrap();
    let mut cells = scatter(2050 * 1027, 22, 2);
    paste(&mut cells, 2050, &tpl, 1, 2);
    let frame = EdgeMap::new(2050, 1027, cells).unwrap();
    assert_eq!(locate(&frame, &tpl).unwrap(), MatchResult { x: 1, y: 2, score_ppm: 1_000_000 });
}

#[test]
fn a_dense_template_of_millions_of_cells_scores_as_the_formula_says() {
    let width = 2048;
    let height = 1025;
    let tpl_cells = scatter((width * height) as usize, 31, 2);
    // The frame agrees with the template in three cells of four.
    let noise = scatter((width * height) as usize, 32, 4);
    let frame_cells: Vec<bool> =
        tpl_cells.iter().zip(noise.iter()).map(|(t, flip)| *t != *flip).collect();
    let n = (width * height) as f64;
    let own = tpl_cells.iter().filter(|c| **c).count() as f64;
    let other = frame_cells.iter().filter(|c| **c).count() as f64;
    let shared = tpl_cells.iter().zip(frame_cells.iter()).filter(|(t, f)| **t && **f).count() as f64;
    let expected = (n * shared - own * other)
        / ((own * (n - own)).sqrt() * (other * (n - other)).sqrt());
    assert!(expected > 0.4 && expected < 0.6);
    let tpl = EdgeMap::new(width, height, tpl_cells).unwrap();
    let frame = EdgeMap::new(width, height, frame_cells).unwrap();
    let found = locate(&frame, &tpl).unwrap();
    assert_eq!((found.x, found.y), (0, 0));
    assert!((found.score_ppm as f64 - expected * 1_000_000.0).abs() <= 1.0);

    // The inverted frame gives the same score with the other sign.
    let inverted: Vec<bool> = (0..(width * height) as usize)
        .map(|k| frame.get(k as u32 % width, k as u32 / width) == Some(false))
        .collect();
    let inverted = EdgeMap::new(width, height, inverted).unwrap();
    assert_eq!(locate(&inverted, &tpl).unwrap().score_ppm, -found.score_ppm);
}

#[test]
fn of_two_large_windows_the_better_one_wins() {
    // Two windows of a template of more than four million cells: the
    // second is the template itself, the first differs from it in one cell.
    let width = 2100;
    let height = 2000;
    let tpl_cells = scatter((width * height) as usize, 41, 2);
    let tpl = EdgeMap::new(width, height, tpl_cells.clone()).unwrap();
    let mut cells = vec![false; ((width + 1) * height) as usize];
    for y in 0..height {
        for x in 0..width {
            cells[(y * (width + 1) + x + 1) as usize] = tpl_cells[(y * width + x) as usize];
        }
    }
    let frame = EdgeMap::new(width + 1, height, cells).unwrap();
    let found = locate(&frame, &tpl).unwrap();
    assert_eq!(found, MatchResult { x: 1, y: 0, score_ppm: 1_000_000 });
}
