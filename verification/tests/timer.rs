use tetris::gate::MoveTimer;

#[test]
fn a_new_timer_starts_at_zero() {
    assert_eq!(MoveTimer::new(150), MoveTimer { elapsed: 0, interval: 150 });
}

#[test]
fn advance_adds_the_time() {
    let mut timer = MoveTimer::new(50);
    timer.advance(16);
    timer.advance(17);
    assert_eq!(timer, MoveTimer { elapsed: 33, interval: 50 });
}

#[test]
fn advance_stops_at_the_largest_value() {
    let mut timer = MoveTimer { elapsed: u64::MAX - 5, interval: 50 };
    timer.advance(5);
    assert_eq!(timer.elapsed, u64::MAX);
    timer.advance(1);
    assert_eq!(timer.elapsed, u64::MAX);
    let mut other = MoveTimer { elapsed: 10, interval: 50 };
    other.advance(u64::MAX);
    assert_eq!(other.elapsed, u64::MAX);
}

#[test]
fn poll_waits_for_the_interval() {
    let mut timer = MoveTimer { elapsed: 49, interval: 50 };
    assert!(!timer.poll(true));
    assert_eq!(timer.elapsed, 49);
    timer.advance(1);
    assert!(timer.poll(true));
    assert_eq!(timer, MoveTimer { elapsed: 0, interval: 50 });
    assert!(!timer.poll(true));
}

#[test]
fn poll_wants_the_input_held() {
    let mut timer = MoveTimer { elapsed: 500, interval: 50 };
    assert!(!timer.poll(false));
    assert_eq!(timer.elapsed, 500);
    assert!(timer.poll(true));
    assert_eq!(timer.elapsed, 0);
}

#[test]
fn a_held_input_fires_no_more_often_than_time_allows() {
    // 100 frames of 16 ms are 1600 ms: at most 32 attempts every 50 ms.
    // The timer is asked once a frame, so it fires every fourth frame.
    let mut timer = MoveTimer::new(50);
    let mut fired = 0;
    for _ in 0..100 {
        timer.advance(16);
        if timer.poll(true) {
            fired += 1;
        }
    }
    assert_eq!(fired, 25);
    assert!(fired <= 100 * 16 / 50);
}

#[test]
fn frames_as_long_as_the_interval_fire_every_time() {
    let mut timer = MoveTimer::new(50);
    let mut fired = 0;
    for _ in 0..10 {
        timer.advance(50);
        if timer.poll(true) {
            fired += 1;
        }
    }
    assert_eq!(fired, 10);
}
