use angler::{detect_splash, DetectionError, Frame, Region, SplashConfig, SplashEvidence};

fn uniform(width: u32, height: u32, value: u8, stamp: u64) -> Frame {
    Frame::new(width, height, vec![value; (width * height) as usize], stamp).unwrap()
}

/// A frame of the given value in which the first `changed` samples of
/// `region`, row by row, hold `other` instead.
fn with_changes(
    width: u32,
    height: u32,
    value: u8,
    other: u8,
    region: Region,
    changed: u32,
) -> Frame {
    let mut pixels = vec![value; (width * height) as usize];
    let mut left = changed;
    for j in 0..region.height {
        for i in 0..region.width {
            if left > 0 {
                let x = region.x + i;
                let y = region.y + j;
                pixels[(y * width + x) as usize] = other;
                left -= 1;
            }
        }
    }
    Frame::new(width, height, pixels, 1).unwrap()
}

#[test]
fn identical_frames_show_no_splash() {
    let a = uniform(40, 30, 120, 0);
    let b = uniform(40, 30, 120, 1);
    let region = Region::new(5, 5, 20, 20);
    let evidence = detect_splash(&a, &b, region, &SplashConfig::standard()).unwrap();
    assert_eq!(evidence, SplashEvidence { changed: 0, threshold: 250 });
    assert!(!evidence.is_splash());
}

#[test]
fn flipped_region_counts_every_sample() {
    let region = Region::new(3, 4, 20, 15);
    let a = uniform(40, 30, 0, 0);
    let b = with_changes(40, 30, 0, 255, region, 300);
    let evidence = detect_splash(&a, &b, region, &SplashConfig::standard()).unwrap();
    assert_eq!(evidence.changed, 300);
    assert_eq!(evidence.changed, region.area());
    assert!(evidence.is_splash());
}

#[test]
fn flipped_small_region_is_counted_but_is_no_splash() {
    let region = Region::new(0, 0, 10, 10);
    let a = uniform(40, 30, 255, 0);
    let b = with_changes(40, 30, 255, 0, region, 100);
    let evidence = detect_splash(&a, &b, region, &SplashConfig::standard()).unwrap();
    assert_eq!(evidence.changed, 100);
    assert!(!evidence.is_splash());
}

#[test]
fn exactly_250_changed_samples_are_no_splash() {
    let region = Region::new(2, 2, 30, 20);
    let a = uniform(40, 30, 10, 0);
    let b = with_changes(40, 30, 10, 200, region, 250);
    let evidence = detect_splash(&a, &b, region, &SplashConfig::standard()).unwrap();
    assert_eq!(evidence.changed, 250);
    assert!(!evidence.is_splash());
}

#[test]
fn changed_samples_251_are_a_splash() {
    let region = Region::new(2, 2, 30, 20);
    let a = uniform(40, 30, 10, 0);
    let b = with_changes(40, 30, 10, 200, region, 251);
    let evidence = detect_splash(&a, &b, region, &SplashConfig::standard()).unwrap();
    assert_eq!(evidence.changed, 251);
    assert!(evidence.is_splash());
}

#[test]
fn a_difference_of_49_is_no_change_and_50_is() {
    let region = Region::new(0, 0, 20, 20);
    let a = uniform(20, 20, 100, 0);
    let below = uniform(20, 20, 149, 1);
    let at = uniform(20, 20, 150, 1);
    let darker = uniform(20, 20, 50, 1);
    let config = SplashConfig::standard();
    assert_eq!(detect_splash(&a, &below, region, &config).unwrap().changed, 0);
    assert_eq!(detect_splash(&a, &at, region, &config).unwrap().changed, 400);
    assert_eq!(detect_splash(&a, &darker, region, &config).unwrap().changed, 400);
    assert_eq!(detect_splash(&darker, &a, region, &config).unwrap().changed, 400);
}

#[test]
fn changes_outside_the_region_are_not_counted() {
    let whole = Region::new(0, 0, 40, 30);
    let part = Region::new(0, 0, 40, 5);
    let a = uniform(40, 30, 0, 0);
    let b = with_changes(40, 30, 0, 255, whole, 400);
    let config = SplashConfig::standard();
    assert_eq!(detect_splash(&a, &b, whole, &config).unwrap().changed, 400);
    assert_eq!(detect_splash(&a, &b, part, &config).unwrap().changed, 200);
}

#[test]
fn thresholds_can_be_overridden() {
    let region = Region::new(0, 0, 10, 10);
    let a = uniform(10, 10, 0, 0);
    let b = with_changes(10, 10, 0, 5, region, 7);
    let config = SplashConfig { pixel_threshold: 5, count_threshold: 6 };
    let evidence = detect_splash(&a, &b, region, &config).unwrap();
    assert_eq!(evidence, SplashEvidence { changed: 7, threshold: 6 });
    assert!(evidence.is_splash());
    let stricter = SplashConfig { pixel_threshold: 6, count_threshold: 6 };
    assert_eq!(detect_splash(&a, &b, region, &stricter).unwrap().changed, 0);
}

#[test]
fn frames_of_different_size_are_refused() {
    let a = uniform(40, 30, 0, 0);
    let wider = uniform(41, 30, 0, 1);
    let taller = uniform(40, 31, 0, 1);
    let region = Region::new(0, 0, 10, 10);
    let config = SplashConfig::standard();
    assert_eq!(
        detect_splash(&a, &wider, region, &config),
        Err(DetectionError::FrameSizeMismatch)
    );
    assert_eq!(
        detect_splash(&a, &taller, region, &config),
        Err(DetectionError::FrameSizeMismatch)
    );
}

#[test]
fn a_region_outside_the_frames_is_refused() {
    let a = uniform(40, 30, 0, 0);
    let b = uniform(40, 30, 0, 1);
    let config = SplashConfig::standard();
    for region in [
        Region::new(31, 0, 10, 10),
        Region::new(0, 21, 10, 10),
        Region::new(40, 30, 1, 1),
        Region::new(u32::MAX, 0, 2, 2),
        Region::new(0, 0, 41, 1),
    ] {
        assert_eq!(
            detect_splash(&a, &b, region, &config),
            Err(DetectionError::RegionOutsideFrame)
        );
    }
    let touching = Region::new(30, 20, 10, 10);
    assert!(detect_splash(&a, &b, touching, &config).is_ok());
}

#[test]
fn a_size_mismatch_is_reported_before_the_region() {
    let a = uniform(40, 30, 0, 0);
    let b = uniform(20, 30, 0, 1);
    let region = Region::new(35, 0, 10, 10);
    assert_eq!(
        detect_splash(&a, &b, region, &SplashConfig::standard()),
        Err(DetectionError::FrameSizeMismatch)
    );
}

#[test]
fn an_empty_region_shows_nothing() {
    let a = uniform(4, 4, 0, 0);
    let b = uniform(4, 4, 255, 1);
    let evidence =
        detect_splash(&a, &b, Region::new(4, 4, 0, 0), &SplashConfig::standard()).unwrap();
    assert_eq!(evidence.changed, 0);
}

#[test]
fn a_frame_needs_one_sample_per_position() {
    assert!(Frame::new(3, 2, vec![0; 6], 0).is_ok());
    assert_eq!(
        Frame::new(3, 2, vec![0; 5], 0).unwrap_err(),
        DetectionError::BufferSizeMismatch
    );
    assert_eq!(
        Frame::new(3, 2, vec![0; 7], 0).unwrap_err(),
        DetectionError::BufferSizeMismatch
    );
    assert!(Frame::new(0, 5, vec![], 0).is_ok());
}

#[test]
fn a_frame_hands_its_samples_back() {
    let frame = Frame::new(3, 2, vec![1, 2, 3, 4, 5, 6], 77).unwrap();
    assert_eq!(frame.width(), 3);
    assert_eq!(frame.height(), 2);
    assert_eq!(frame.stamp(), 77);
    assert_eq!(frame.get(0, 0), Some(1));
    assert_eq!(frame.get(2, 0), Some(3));
    assert_eq!(frame.get(0, 1), Some(4));
    assert_eq!(frame.get(2, 1), Some(6));
    assert_eq!(frame.get(3, 0), None);
    assert_eq!(frame.get(0, 2), None);
}

#[test]
fn a_region_knows_its_area_and_whether_it_fits() {
    let region = Region::new(2, 3, 4, 5);
    assert_eq!(region.area(), 20);
    assert!(region.fits_within(6, 8));
    assert!(!region.fits_within(5, 8));
    assert!(!region.fits_within(6, 7));
    assert_eq!(Region::new(0, 0, u32::MAX, u32::MAX).area(), 18446744065119617025);
}

#[test]
fn the_shipped_thresholds_are_50_and_250() {
    let config = SplashConfig::standard();
    assert_eq!(config.pixel_threshold, 50);
    assert_eq!(config.count_threshold, 250);
    assert_eq!(SplashConfig::default(), config);
}
