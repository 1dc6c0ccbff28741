use wikidata_extract::progress::{advances, promille, remaining_millis};

#[test]
fn promille_rounds_down() {
    assert_eq!(promille(0, 1000), 0);
    assert_eq!(promille(1, 1000), 1);
    assert_eq!(promille(999, 1_000_000), 0);
    assert_eq!(promille(1000, 1_000_000), 1);
    assert_eq!(promille(500, 1000), 500);
    assert_eq!(promille(1000, 1000), 1000);
    assert_eq!(promille(1, 3), 333);
    assert_eq!(promille(2, 3), 666);
    assert_eq!(promille(1500, 1000), 1500);
}

#[test]
fn promille_of_an_empty_dump_is_zero() {
    assert_eq!(promille(0, 0), 0);
    assert_eq!(promille(17, 0), 0);
}

#[test]
fn promille_does_not_overflow() {
    assert_eq!(promille(u64::MAX, u64::MAX), 1000);
    assert_eq!(promille(u64::MAX, 1), u64::MAX);
    assert_eq!(promille(u64::MAX / 2, u64::MAX), 499);
    assert_eq!(promille(u64::MAX, 1000), u64::MAX);
    assert_eq!(promille(18_446_744_073_709_551, 1), 18_446_744_073_709_551_000);
}

#[test]
fn progress_is_reported_when_it_advances() {
    assert!(advances(1, 0));
    assert!(advances(1000, 999));
    assert!(!advances(0, 0));
    assert!(!advances(5, 5));
    assert!(!advances(4, 5));
}

#[test]
fn remaining_time_is_extrapolated() {
    assert_eq!(remaining_millis(10_000, 500), 10_000);
    assert_eq!(remaining_millis(10_000, 250), 30_000);
    assert_eq!(remaining_millis(10_000, 1), 9_990_000);
    assert_eq!(remaining_millis(10_000, 999), 10);
    assert_eq!(remaining_millis(1, 999), 0);
    assert_eq!(remaining_millis(7, 3), 2326);
}

#[test]
fn remaining_time_is_zero_at_both_ends() {
    assert_eq!(remaining_millis(10_000, 0), 0);
    assert_eq!(remaining_millis(10_000, 1000), 0);
    assert_eq!(remaining_millis(10_000, 1500), 0);
    assert_eq!(remaining_millis(0, 500), 0);
}

#[test]
fn remaining_time_does_not_overflow() {
    assert_eq!(remaining_millis(u64::MAX, 1), u64::MAX);
    assert_eq!(remaining_millis(u64::MAX, 500), u64::MAX);
    assert_eq!(remaining_millis(u64::MAX, 999), u64::MAX / 999);
}
