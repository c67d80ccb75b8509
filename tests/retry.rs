use pair_harvest::RetryPolicy;

#[test]
fn delays_double_until_the_ceiling() {
    let p = RetryPolicy { max_attempts: 6, base_delay_ms: 500, max_delay_ms: 3000 };
    assert_eq!(p.after_failure(1), Some(500));
    assert_eq!(p.after_failure(2), Some(1000));
    assert_eq!(p.after_failure(3), Some(2000));
    assert_eq!(p.after_failure(4), Some(3000));
    assert_eq!(p.after_failure(5), Some(3000));
}

#[test]
fn gives_up_after_the_last_attempt() {
    let p = RetryPolicy { max_attempts: 3, base_delay_ms: 100, max_delay_ms: 1000 };
    assert_eq!(p.after_failure(2), Some(200));
    assert_eq!(p.after_failure(3), None);
    assert_eq!(p.after_failure(9), None);
    let once = RetryPolicy { max_attempts: 1, base_delay_ms: 100, max_delay_ms: 1000 };
    assert_eq!(once.after_failure(1), None);
}

#[test]
fn base_above_ceiling_is_capped() {
    let p = RetryPolicy { max_attempts: 4, base_delay_ms: 9000, max_delay_ms: 2000 };
    assert_eq!(p.after_failure(1), Some(2000));
    assert_eq!(p.after_failure(2), Some(2000));
}

#[test]
fn large_delays_do_not_overflow() {
    let p = RetryPolicy { max_attempts: u32::MAX, base_delay_ms: u64::MAX / 2 + 1, max_delay_ms: u64::MAX };
    assert_eq!(p.after_failure(1), Some(u64::MAX / 2 + 1));
    assert_eq!(p.after_failure(2), Some(u64::MAX));
}
