use sst_file::time::{TimeRange, Timestamp};

fn range(start: i64, end: i64) -> TimeRange {
    TimeRange::new(Timestamp::new(start), Timestamp::new(end)).unwrap()
}

#[test]
fn range_needs_its_ends_in_order() {
    assert!(TimeRange::new(Timestamp::new(2), Timestamp::new(1)).is_none());
    let empty = range(2, 2);
    assert_eq!(empty.inclusive_start(), Timestamp::new(2));
    assert_eq!(empty.exclusive_end().as_i64(), 2);
    assert_eq!(range(-3, 4).inclusive_start().as_i64(), -3);
}

#[test]
fn ranges_intersect_where_they_share_a_timestamp() {
    for a in 0i64..6 {
        for b in a + 1..7 {
            for c in 0i64..6 {
                for d in c + 1..7 {
                    let shared = (0i64..7).any(|t| a <= t && t < b && c <= t && t < d);
                    assert_eq!(range(a, b).intersect_with(range(c, d)), shared);
                    assert_eq!(range(c, d).intersect_with(range(a, b)), shared);
                }
            }
        }
    }
    assert!(!range(0, 10).intersect_with(range(10, 20)));
    assert!(range(0, 10).intersect_with(range(9, 20)));
}

#[test]
fn range_expires_with_its_end() {
    let r = range(10, 20);
    assert!(!r.is_expired(None));
    assert!(!r.is_expired(Some(Timestamp::new(19))));
    assert!(r.is_expired(Some(Timestamp::new(20))));
    assert!(r.is_expired(Some(Timestamp::new(21))));
    assert!(!range(i64::MIN, i64::MIN).is_expired(None));
}
