use angler::wide::{product, scale, Double, Triple};

#[test]
fn the_product_of_two_limbs_has_two_limbs() {
    assert_eq!(product(0, 0), Double { high: 0, low: 0 });
    assert_eq!(product(7, 6), Double { high: 0, low: 42 });
    assert_eq!(product(u128::MAX, 0), Double { high: 0, low: 0 });
    assert_eq!(product(u128::MAX, 1), Double { high: 0, low: u128::MAX });
    assert_eq!(product(1 << 64, 1 << 64), Double { high: 1, low: 0 });
    assert_eq!(product(u128::MAX, u128::MAX), Double { high: u128::MAX - 1, low: 1 });
    assert_eq!(
        product(12345678901234567890, 98765432109876543210),
        Double { high: 3, low: 198479210607402561847339978815958892532 }
    );
    assert_eq!(
        product(0x0123456789abcdef0fedcba987654321, 0xfedcba98765432100123456789abcdef),
        Double {
            high: 0x121fa00ad77d7423213d0003e234949,
            low: 0xaaa6c876160ec6a522236d88fe5618cf,
        }
    );
}

#[test]
fn a_number_of_two_limbs_times_a_limb_has_three_limbs() {
    let all = Double { high: u128::MAX, low: u128::MAX };
    assert_eq!(scale(all, 0), Triple { high: 0, mid: 0, low: 0 });
    assert_eq!(scale(all, 1), Triple { high: 0, mid: u128::MAX, low: u128::MAX });
    assert_eq!(scale(all, u128::MAX), Triple { high: u128::MAX - 1, mid: u128::MAX, low: 1 });
    let x = product(0x0123456789abcdef0fedcba987654321, 0xfedcba98765432100123456789abcdef);
    assert_eq!(
        scale(x, 0xdeadbeefdeadbeefdeadbeefdeadbeef),
        Triple {
            high: 0xfc3b9ad02449a393f2675ecede5d1d,
            mid: 0x69fd2e7c943fa350d0de54049273d7a1,
            low: 0x950695e89b9c130b9b2f449c9eadcb41,
        }
    );
    assert_eq!(scale(Double { high: 0, low: 5 }, 4), Triple { high: 0, mid: 0, low: 20 });
    assert_eq!(scale(Double { high: 1, low: 0 }, 1 << 127), Triple { high: 0, mid: 1 << 127, low: 0 });
    assert_eq!(scale(Double { high: 2, low: 0 }, 1 << 127), Triple { high: 1, mid: 0, low: 0 });
}

#[test]
fn numbers_of_three_limbs_compare_from_the_top() {
    let t = |high, mid, low| Triple { high, mid, low };
    assert!(t(0, 0, 0).at_most(&t(0, 0, 0)));
    assert!(t(0, 0, 5).at_most(&t(0, 0, 5)));
    assert!(t(0, 0, 5).at_most(&t(0, 0, 6)));
    assert!(!t(0, 0, 6).at_most(&t(0, 0, 5)));
    assert!(t(0, 1, 9).at_most(&t(0, 2, 0)));
    assert!(!t(0, 2, 0).at_most(&t(0, 1, 9)));
    assert!(t(1, 9, 9).at_most(&t(2, 0, 0)));
    assert!(!t(2, 0, 0).at_most(&t(1, u128::MAX, u128::MAX)));
    assert!(t(0, u128::MAX, u128::MAX).at_most(&t(1, 0, 0)));
    assert!(t(3, 4, 5).at_most(&t(3, 4, 5)));
    assert!(!t(3, 4, 6).at_most(&t(3, 4, 5)));
}
