use ovl::compare::compare_versions;
use ovl::version::version_order;
use std::cmp::Ordering;

#[test]
fn compares_pieces_as_numbers() {
    assert_eq!(compare_versions("1.2.0", "1.10.0"), Ordering::Less);
    assert_eq!(compare_versions("1.10.0", "1.2.0"), Ordering::Greater);
}

#[test]
fn missing_pieces_count_as_zero() {
    assert_eq!(compare_versions("21", "21.0.0"), Ordering::Equal);
    assert_eq!(compare_versions("21.0.0", "21"), Ordering::Equal);
    assert_eq!(compare_versions("21", "21.0.1"), Ordering::Less);
}

#[test]
fn unreadable_pieces_count_as_zero() {
    assert_eq!(compare_versions("1.beta.3", "1.0.3"), Ordering::Equal);
    assert_eq!(compare_versions("1.x", "1.1"), Ordering::Less);
    assert_eq!(compare_versions("", "0"), Ordering::Equal);
    assert_eq!(compare_versions("4294967296", "0"), Ordering::Equal);
    assert_eq!(compare_versions("4294967295", "4294967294"), Ordering::Greater);
    assert_eq!(compare_versions("+7", "7"), Ordering::Equal);
    assert_eq!(compare_versions("-7", "0"), Ordering::Equal);
}

#[test]
fn order_sign_matches_comparator() {
    assert_eq!(version_order("9.1", "9.6"), -1);
    assert_eq!(version_order("9.6", "9.1"), 1);
    assert_eq!(version_order("9.6", "9.6.0"), 0);
}

#[test]
fn order_is_a_total_preorder() {
    let versions = ["", "0", "1", "1.0", "1.0.0", "1.2", "1.10", "1.x.3", "2", "9.6", "9.6.0.0", "10", "+3", "a.b"];
    for a in versions {
        assert_eq!(version_order(a, a), 0);
        for b in versions {
            assert_eq!(version_order(a, b), -version_order(b, a), "{:?} {:?}", a, b);
            for c in versions {
                if version_order(a, b) <= 0 && version_order(b, c) <= 0 {
                    assert!(version_order(a, c) <= 0, "{:?} {:?} {:?}", a, b, c);
                    if version_order(a, b) < 0 || version_order(b, c) < 0 {
                        assert!(version_order(a, c) < 0, "{:?} {:?} {:?}", a, b, c);
                    }
                }
            }
        }
    }
}
