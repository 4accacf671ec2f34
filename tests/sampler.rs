use statvec::sampler::{check_score_len, BoundedCollector, StatsError};

#[test]
fn score_needs_two_points() {
    assert_eq!(check_score_len(0), Err(StatsError::InsufficientData));
    assert_eq!(check_score_len(1), Err(StatsError::InsufficientData));
    assert_eq!(check_score_len(2), Ok(()));
    assert_eq!(check_score_len(1000), Ok(()));
}

#[test]
fn collector_keeps_only_draws_in_range() {
    let mut c: BoundedCollector<i32> = BoundedCollector::new(3);
    assert_eq!(c.remaining(), 3);
    assert!(!c.offer(10, true));
    assert!(!c.offer(-4, false));
    assert_eq!(c.remaining(), 2);
    assert!(!c.offer(11, true));
    assert!(!c.offer(99, false));
    assert!(c.offer(12, true));
    assert!(c.is_complete());
    assert_eq!(c.into_items(), vec![10, 11, 12]);
}

#[test]
fn collector_for_nothing_is_complete() {
    let c: BoundedCollector<i32> = BoundedCollector::new(0);
    assert!(c.is_complete());
    assert_eq!(c.remaining(), 0);
    assert!(c.into_items().is_empty());
}

#[test]
fn collector_with_bounds_check() {
    let (min, max) = (0.0f64, 1.0f64);
    let draws = [0.5f64, -0.1, 1.2, 0.0, 1.0, 0.7];
    let mut c: BoundedCollector<f64> = BoundedCollector::new(4);
    for &x in draws.iter() {
        if c.offer(x, x >= min && x <= max) {
            break;
        }
    }
    let kept = c.into_items();
    assert_eq!(kept, vec![0.5, 0.0, 1.0, 0.7]);
    assert!(kept.iter().all(|&x| x >= min && x <= max));
}
