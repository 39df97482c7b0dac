use esp_examples::clock::{Time, Timer};

fn timer_after(ticks: u32) -> Timer {
    let mut t = Timer::default();
    for _ in 0..ticks {
        t.tick();
    }
    t
}

fn time_after(ticks: u32) -> Time {
    let mut t = Time::default();
    for _ in 0..ticks {
        t.tick();
    }
    t
}

#[test]
fn timer_starts_at_midnight() {
    assert_eq!(Timer::default().to_string(), "00:00:00");
}

#[test]
fn timer_counts_seconds() {
    assert_eq!(timer_after(5).to_string(), "00:00:05");
}

#[test]
fn timer_wraps_seconds_into_minutes() {
    assert_eq!(timer_after(59).to_string(), "00:00:59");
    assert_eq!(timer_after(60).to_string(), "00:01:00");
}

#[test]
fn timer_wraps_minutes_into_hours() {
    assert_eq!(timer_after(3600).to_string(), "01:00:00");
    assert_eq!(timer_after(3661).to_string(), "01:01:01");
}

#[test]
fn timer_runs_up_to_hour_twenty_four_then_resets() {
    let last = 25 * 3600 - 1;
    assert_eq!(timer_after(last).to_string(), "24:59:59");
    let t = timer_after(last + 1);
    assert_eq!((t.hours, t.minutes, t.seconds), (0, 0, 0));
}

#[test]
fn timer_tick_from_a_set_time() {
    let mut t = Timer { seconds: 59, minutes: 59, hours: 12 };
    t.tick();
    assert_eq!(t.to_string(), "13:00:00");
}

#[test]
fn time_counts_seconds_past_fifty_nine() {
    let t = time_after(60);
    assert_eq!((t.hours, t.minutes, t.seconds), (0, 1, 60));
    let t = time_after(61);
    assert_eq!((t.hours, t.minutes, t.seconds), (0, 2, 61));
}

#[test]
fn time_prints_three_digit_fields_in_full() {
    assert_eq!(time_after(119).to_string(), "01:60:119");
}

#[test]
fn time_returns_to_midnight_after_143_ticks() {
    let t = time_after(142);
    assert_eq!((t.hours, t.minutes, t.seconds), (24, 83, 142));
    let t = time_after(143);
    assert_eq!((t.hours, t.minutes, t.seconds), (0, 0, 0));
    let t = time_after(143 * 3 + 7);
    assert_eq!(t.to_string(), "00:00:07");
}

#[test]
fn time_keeps_ticking_for_many_cycles() {
    let t = time_after(100_000);
    assert_eq!(t.to_string(), time_after(100_000 % 143).to_string());
}

#[test]
fn can_tick_guards_overflow() {
    assert!(Timer::default().can_tick());
    assert!(!Timer { seconds: 255, minutes: 0, hours: 0 }.can_tick());
    assert!(!Timer { seconds: 59, minutes: 255, hours: 0 }.can_tick());
    assert!(!Timer { seconds: 59, minutes: 59, hours: 255 }.can_tick());
    assert!(!Timer { seconds: 58, minutes: 255, hours: 255 }.can_tick());
    assert!(Timer { seconds: 58, minutes: 30, hours: 255 }.can_tick());
    assert!(Time::default().can_tick());
    assert!(!Time { seconds: 100, minutes: 255, hours: 0 }.can_tick());
    assert!(!Time { seconds: 100, minutes: 80, hours: 255 }.can_tick());
    assert!(Time { seconds: 10, minutes: 50, hours: 255 }.can_tick());
}

#[test]
fn timer_comes_back_after_exactly_one_day_of_ticks() {
    let start = Timer { seconds: 7, minutes: 30, hours: 23 };
    let mut t = Timer { seconds: 7, minutes: 30, hours: 23 };
    for n in 1..=90_000u32 {
        t.tick();
        let back = (t.hours, t.minutes, t.seconds) == (start.hours, start.minutes, start.seconds);
        assert_eq!(back, n == 90_000);
    }
}
