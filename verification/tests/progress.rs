use gdown::progress::Progress;

#[test]
fn position_follows_the_chunks() {
    let mut progress = Progress::new(Some(100), 0);
    assert_eq!(progress.position(), 0);
    assert_eq!(progress.total(), Some(100));
    assert_eq!(progress.record(30, 10), None);
    assert_eq!(progress.position(), 30);
    assert_eq!(progress.record(30, 20), None);
    assert_eq!(progress.position(), 60);
}

#[test]
fn position_stops_at_the_total() {
    let mut progress = Progress::new(Some(100), 0);
    progress.record(60, 1);
    progress.record(60, 2);
    assert_eq!(progress.position(), 100);
    progress.record(u64::MAX, 3);
    assert_eq!(progress.position(), 100);
}

#[test]
fn position_without_total_stops_at_the_top() {
    let mut progress = Progress::new(None, 0);
    assert_eq!(progress.total(), None);
    progress.record(u64::MAX - 1, 1);
    assert_eq!(progress.position(), u64::MAX - 1);
    progress.record(5, 2);
    assert_eq!(progress.position(), u64::MAX);
}

#[test]
fn rate_is_taken_once_a_second() {
    let mut progress = Progress::new(Some(1_000_000), 0);
    assert_eq!(progress.record(1000, 400), None);
    assert_eq!(progress.record(1000, 999), None);
    // 3048 bytes in 2000 ms are 1524 bytes a second.
    assert_eq!(progress.record(1048, 2000), Some(1524));
    // The count begins anew.
    assert_eq!(progress.record(500, 2500), None);
    assert_eq!(progress.record(500, 3000), Some(1000));
}

#[test]
fn rate_is_rounded_down() {
    let mut progress = Progress::new(None, 0);
    // 10 bytes in 3000 ms are 3 bytes a second and a third.
    assert_eq!(progress.record(10, 3000), Some(3));
}

#[test]
fn clock_that_goes_back_gives_no_rate() {
    let mut progress = Progress::new(None, 5000);
    assert_eq!(progress.record(10, 1000), None);
    assert_eq!(progress.record(10, 5999), None);
    assert_eq!(progress.record(10, 6000), Some(30));
}
