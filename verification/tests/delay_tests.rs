use angler::{random_delay, DelayKind, DelayPolicy, DelayRange};

const KINDS: [DelayKind; 7] = [
    DelayKind::CastHold,
    DelayKind::Settle,
    DelayKind::Aim,
    DelayKind::Poll,
    DelayKind::ReactLead,
    DelayKind::ReactHold,
    DelayKind::Rest,
];

fn documented(kind: DelayKind) -> (u64, u64) {
    match kind {
        DelayKind::CastHold => (150, 350),
        DelayKind::Settle => (1800, 2200),
        DelayKind::Aim => (400, 600),
        DelayKind::Poll => (50, 50),
        DelayKind::ReactLead => (50, 189),
        DelayKind::ReactHold => (184, 483),
        DelayKind::Rest => (684, 4833),
    }
}

#[test]
fn every_draw_lies_within_the_documented_bounds() {
    let policy = DelayPolicy::standard();
    for kind in KINDS {
        let (low, high) = documented(kind);
        for _ in 0..10_000 {
            let ms = policy.sample(kind);
            assert!(low <= ms && ms <= high);
        }
    }
}

#[test]
fn the_shipped_ranges_are_the_documented_ones() {
    let policy = DelayPolicy::standard();
    for kind in KINDS {
        let range = policy.range(kind);
        assert_eq!((range.min_ms(), range.max_ms()), documented(kind));
    }
    assert_eq!(DelayPolicy::default(), policy);
}

#[test]
fn draws_reach_both_ends_of_a_small_range() {
    let range = DelayRange::new(10, 12).unwrap();
    let mut seen = [false; 3];
    for _ in 0..10_000 {
        let ms = random_delay(&range);
        assert!(range.contains(ms));
        seen[(ms - 10) as usize] = true;
    }
    assert_eq!(seen, [true, true, true]);
}

#[test]
fn draws_differ_from_one_another() {
    let policy = DelayPolicy::standard();
    let first = policy.sample(DelayKind::Rest);
    let mut differs = false;
    let mut above_min = false;
    let mut below_max = false;
    for _ in 0..10_000 {
        let ms = policy.sample(DelayKind::Rest);
        differs = differs || ms != first;
        above_min = above_min || ms > 684;
        below_max = below_max || ms < 4833;
    }
    assert!(differs && above_min && below_max);
}

#[test]
fn a_range_of_one_value_gives_that_value() {
    let range = DelayRange::fixed(50);
    assert_eq!((range.min_ms(), range.max_ms()), (50, 50));
    for _ in 0..100 {
        assert_eq!(random_delay(&range), 50);
    }
    let whole = DelayRange::new(0, u64::MAX).unwrap();
    let ms = random_delay(&whole);
    assert!(whole.contains(ms));
    let top = DelayRange::new(u64::MAX, u64::MAX).unwrap();
    assert_eq!(random_delay(&top), u64::MAX);
}

#[test]
fn a_range_needs_its_bounds_in_order() {
    assert_eq!(DelayRange::new(5, 3), None);
    assert_eq!(DelayRange::new(1, 0), None);
    let range = DelayRange::new(3, 5).unwrap();
    assert_eq!((range.min_ms(), range.max_ms()), (3, 5));
    assert_eq!(DelayRange::new(4, 4), Some(DelayRange::fixed(4)));
    assert!(!range.contains(2));
    assert!(range.contains(3));
    assert!(range.contains(5));
    assert!(!range.contains(6));
}

#[test]
fn a_policy_can_be_overridden_kind_by_kind() {
    let range = DelayRange::new(1, 2).unwrap();
    let policy = DelayPolicy::standard().with_range(DelayKind::Aim, range);
    for kind in KINDS {
        let got = policy.range(kind);
        if kind == DelayKind::Aim {
            assert_eq!(got, range);
        } else {
            assert_eq!((got.min_ms(), got.max_ms()), documented(kind));
        }
    }
    for _ in 0..1000 {
        let ms = policy.sample(DelayKind::Aim);
        assert!(ms == 1 || ms == 2);
    }
}

#[test]
fn the_immediate_policy_never_waits() {
    let policy = DelayPolicy::immediate();
    for kind in KINDS {
        assert_eq!(policy.range(kind), DelayRange::fixed(0));
        assert_eq!(policy.sample(kind), 0);
    }
}
