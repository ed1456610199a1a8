use winsen_co2_sensor::timing::Deadline;

#[test]
fn budget_is_a_tenth_of_the_frequency() {
    assert_eq!(Deadline::new(7, 1000), Deadline { start: 7, budget: 100 });
    assert_eq!(Deadline::new(0, 32_768), Deadline { start: 0, budget: 3276 });
    assert_eq!(Deadline::new(0, u32::MAX), Deadline { start: 0, budget: 429_496_729 });
}

#[test]
fn budget_rounds_down() {
    assert_eq!(Deadline::new(0, 19).budget, 1);
    assert_eq!(Deadline::new(0, 10).budget, 1);
    assert_eq!(Deadline::new(0, 9).budget, 0);
}

#[test]
fn expires_at_the_threshold_and_not_one_tick_before() {
    let deadline = Deadline::new(500, 1000);
    assert!(!deadline.expired(500));
    assert!(!deadline.expired(599));
    assert!(deadline.expired(600));
    assert!(deadline.expired(601));
}

#[test]
fn counter_that_wrapped_counts_forward() {
    let deadline = Deadline::new(u32::MAX - 10, 1000);
    assert!(!deadline.expired(u32::MAX));
    assert!(!deadline.expired(0));
    assert!(!deadline.expired(88));
    assert!(deadline.expired(89));
    assert!(deadline.expired(90));
}

#[test]
fn counter_that_wrapped_matches_one_that_did_not() {
    for start in [0u32, 1, 99, 1 << 31, u32::MAX - 100, u32::MAX - 99, u32::MAX - 1, u32::MAX] {
        let deadline = Deadline::new(start, 1000);
        for ticks in [0u32, 1, 50, 99, 100, 101, 200, 1 << 20, u32::MAX] {
            assert_eq!(deadline.expired(start.wrapping_add(ticks)), ticks >= 100);
        }
    }
}

#[test]
fn slow_clock_leaves_no_time() {
    let deadline = Deadline::new(42, 9);
    assert!(deadline.expired(42));
    assert!(deadline.expired(43));
    assert!(deadline.expired(0));
}
