use resc_client::clocksync::ClockSync;

#[test]
fn responder_clock_far_behind_still_yields_small_delay() {
    let mut cs = ClockSync::new();
    let t1 = 10_000_000u64;
    let t2 = 500u64;
    let t3 = 550u64;
    let t4 = 10_000_100u64;
    let sample = cs.on_pong(t1, t2, t3, t4, 1).expect("valid sample");
    assert_eq!(sample.delay_us, 50);
    assert_eq!(sample.offset_us, ((t2 as i64 - t1 as i64) + (t3 as i64 - t4 as i64)) / 2);
    assert!(sample.offset_us < -9_000_000);
}

#[test]
fn responder_clock_far_ahead_still_yields_small_delay() {
    let mut cs = ClockSync::new();
    let t1 = 500u64;
    let t2 = 10_000_050u64;
    let t3 = 10_000_100u64;
    let t4 = 600u64;
    let sample = cs.on_pong(t1, t2, t3, t4, 2).expect("valid sample");
    assert_eq!(sample.delay_us, 50);
    assert!(sample.offset_us > 9_000_000);
}

#[test]
fn negative_delay_rejected() {
    let mut cs = ClockSync::new();
    let sample = cs.on_pong(0, 10, 200, 100, 1);
    assert_eq!(sample, None);
    assert_eq!(cs.best(), None);
}

#[test]
fn delay_at_or_above_5ms_rejected() {
    let mut cs = ClockSync::new();
    assert_eq!(cs.on_pong(0, 0, 0, 5000, 1), None);
    assert!(cs.on_pong(0, 0, 0, 4999, 2).is_some());
}

#[test]
fn min_delay_sample_is_retained_as_best() {
    let mut cs = ClockSync::new();
    cs.on_pong(0, 0, 0, 200, 1);
    assert_eq!(cs.best().unwrap().delay_us, 200);
    cs.on_pong(0, 0, 0, 50, 2);
    assert_eq!(cs.best().unwrap().seq, 2);
    assert_eq!(cs.best().unwrap().delay_us, 50);
    cs.on_pong(0, 0, 0, 100, 3);
    assert_eq!(cs.best().unwrap().seq, 2);
    assert_eq!(cs.best().unwrap().delay_us, 50);
}

#[test]
fn i128_intermediate_avoids_u64_underflow_near_max() {
    let mut cs = ClockSync::new();
    let t1 = u64::MAX - 1000;
    let t2 = u64::MAX - 900;
    let t3 = u64::MAX - 850;
    let t4 = u64::MAX - 800;
    let sample = cs.on_pong(t1, t2, t3, t4, 7).expect("valid sample");
    assert_eq!(sample.delay_us, 150);
    assert_eq!(sample.offset_us, 25);
}

#[test]
fn equal_delay_keeps_the_first_sample() {
    let mut cs = ClockSync::new();
    cs.on_pong(0, 0, 0, 80, 1);
    cs.on_pong(0, 0, 0, 80, 2);
    assert_eq!(cs.best().unwrap().seq, 1);
}

#[test]
fn odd_negative_offset_rounds_toward_zero_and_uncertainty_halves_delay() {
    let mut cs = ClockSync::new();
    // sum = (0 - 3) + (0 - 6) = -9, halved toward zero: -4; delay = (6 - 3) - 0 = 3.
    let s = cs.on_pong(3, 0, 0, 6, 9).unwrap();
    assert_eq!(s.offset_us, -4);
    assert_eq!(s.delay_us, 3);
    assert_eq!(s.uncertainty_us, 1);
    assert_eq!(s.seq, 9);
}

#[test]
fn offset_outside_i64_is_rejected_not_wrapped() {
    let mut cs = ClockSync::new();
    assert_eq!(cs.on_pong(0, u64::MAX, u64::MAX, 0, 1), None);
    assert_eq!(cs.best(), None);
    let s = cs.on_pong(0, i64::MAX as u64, i64::MAX as u64, 0, 2).expect("offset fits");
    assert_eq!(s.offset_us, i64::MAX);
}
