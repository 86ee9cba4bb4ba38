use realm::health::FailoverHealth;

#[test]
fn fresh_health_knows_nothing() {
    let h = FailoverHealth::new(3, 6_000, 500, 30_000);
    assert_eq!(h.peer_count(), 3);
    for idx in 0..3u8 {
        assert!(!h.should_skip_at(idx, 0));
        assert!(!h.is_recent_ok_at(idx, 0));
        let s = h.peer_snapshot_at(idx, 10).unwrap();
        assert_eq!((s.down_until_ms, s.last_ok_ms, s.fail_count), (0, 0, 0));
        assert!(!s.should_skip);
        assert!(!s.ok_recent);
    }
    // a peer that does not exist is never skipped, and has no snapshot
    assert!(!h.should_skip_at(3, 0));
    assert!(!h.is_recent_ok_at(3, 0));
    assert!(h.peer_snapshot_at(3, 0).is_none());
    assert!(!h.should_skip(200));
    assert!(h.peer_snapshot(200).is_none());
}

#[test]
fn failures_back_off_exponentially() {
    let mut h = FailoverHealth::new(1, 6_000, 500, 30_000);
    // min(500 * 2^k, 30000) after the k-th failure in a row
    let expected = [1_000u64, 2_000, 4_000, 8_000, 16_000, 30_000, 30_000];
    for (k, backoff) in expected.iter().enumerate() {
        let now = 100 + k as u64;
        h.mark_fail_at(0, now);
        let s = h.peer_snapshot_at(0, now).unwrap();
        assert_eq!(s.fail_count, k as u32 + 1);
        assert_eq!(s.down_until_ms - now, *backoff);
        assert_eq!(s.last_ok_ms, 0);
        assert!(s.should_skip);
        assert!(!s.ok_recent);
    }
}

#[test]
fn the_exponent_stops_at_sixteen() {
    let mut h = FailoverHealth::new(1, 6_000, 1, u64::MAX);
    for _ in 0..40 {
        h.mark_fail_at(0, 5);
    }
    let s = h.peer_snapshot_at(0, 5).unwrap();
    assert_eq!(s.fail_count, 16);
    assert_eq!(s.down_until_ms, 5 + 65_536);
}

#[test]
fn backoff_does_not_wrap() {
    let mut h = FailoverHealth::new(1, 6_000, u64::MAX, u64::MAX);
    h.mark_fail_at(0, 10);
    assert_eq!(h.peer_snapshot_at(0, 10).unwrap().down_until_ms, u64::MAX);
    let mut h = FailoverHealth::new(1, 6_000, u64::MAX / 2, 1_000);
    h.mark_fail_at(0, u64::MAX - 1);
    assert_eq!(h.peer_snapshot_at(0, 0).unwrap().down_until_ms, u64::MAX);
}

#[test]
fn a_peer_is_skipped_until_its_backoff_ends() {
    let mut h = FailoverHealth::new(2, 6_000, 500, 30_000);
    h.mark_fail_at(1, 1_000);
    assert!(h.should_skip_at(1, 1_000));
    assert!(h.should_skip_at(1, 1_999));
    assert!(!h.should_skip_at(1, 2_000));
    // the other peer is untouched
    assert!(!h.should_skip_at(0, 1_000));
}

#[test]
fn success_clears_the_breaker() {
    let mut h = FailoverHealth::new(1, 6_000, 500, 30_000);
    h.mark_fail_at(0, 10);
    h.mark_fail_at(0, 20);
    h.mark_ok_at(0, 30);
    let s = h.peer_snapshot_at(0, 30).unwrap();
    assert_eq!((s.down_until_ms, s.last_ok_ms, s.fail_count), (0, 30, 0));
    assert!(!s.should_skip);
    assert!(s.ok_recent);
    // recent within the TTL, the bound included
    assert!(h.is_recent_ok_at(0, 6_030));
    assert!(!h.is_recent_ok_at(0, 6_031));
    // a clock that reads earlier than the success does not wrap
    assert!(h.is_recent_ok_at(0, 0));
    // the next failure starts from the base again
    h.mark_fail_at(0, 40);
    assert_eq!(h.peer_snapshot_at(0, 40).unwrap().down_until_ms, 1_040);
    assert!(!h.is_recent_ok_at(0, 40));
}

#[test]
fn a_success_in_the_first_millisecond_is_no_success() {
    let mut h = FailoverHealth::new(1, 6_000, 500, 30_000);
    h.mark_ok_at(0, 0);
    assert!(!h.is_recent_ok_at(0, 0));
    assert!(!h.should_skip_at(0, 0));
}

#[test]
fn marks_on_the_clock() {
    let mut h = FailoverHealth::new(2, 60_000, 500, 30_000);
    h.mark_fail(0);
    assert!(h.should_skip(0));
    assert!(!h.is_recent_ok(0));
    assert!(!h.should_skip(1));
    let s = h.peer_snapshot(0).unwrap();
    assert_eq!(s.fail_count, 1);
    assert!(s.down_until_ms >= 1_000);
    h.mark_ok(0);
    assert!(!h.should_skip(0));
    // out of range: nothing happens
    h.mark_fail(9);
    h.mark_ok(9);
    assert_eq!(h.peer_count(), 2);
    let _ = h.now_ms();
}
