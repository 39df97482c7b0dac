use esp_examples::controls::{
    on_press, on_tick, toggle_due, BarStep, BlinkDelay, BlinkPhase, EventFlag, LedBar, LedSelector,
    LedSwitch, PressCounter,
};

#[test]
fn flag_starts_lowered() {
    let mut f = EventFlag::new();
    assert!(!f.take());
}

#[test]
fn press_is_seen_once() {
    let mut f = EventFlag::new();
    on_press(&mut f);
    on_press(&mut f);
    assert!(f.take());
    assert!(!f.take());
}

#[test]
fn tick_is_seen_once() {
    let mut f = EventFlag { raised: false };
    on_tick(&mut f);
    assert!(f.raised);
    assert!(f.take());
    assert!(!f.raised);
}

#[test]
fn counter_counts_presses() {
    let mut c = PressCounter::new();
    assert_eq!(c.step(false), None);
    assert_eq!(c.step(true), Some(1));
    assert_eq!(c.step(false), None);
    assert_eq!(c.step(true), Some(2));
    assert_eq!(c.count, 2);
}

#[test]
fn blink_delay_grows_by_a_second_per_press() {
    let mut b = BlinkDelay::new();
    assert_eq!(b.step(false), BlinkPhase { on_ms: 200, off_ms: 200 });
    assert_eq!(b.step(true), BlinkPhase { on_ms: 1200, off_ms: 200 });
    assert_eq!(b.step(true), BlinkPhase { on_ms: 2200, off_ms: 200 });
    assert_eq!(b.step(false), BlinkPhase { on_ms: 2200, off_ms: 200 });
}

#[test]
fn bar_walks_its_leds_and_slows_on_press() {
    let mut bar = LedBar::new(10);
    let first = bar.step(false);
    assert_eq!(first, BarStep { led: 0, on_ms: 100, off_ms: 100, rearm: false });
    for led in 1..10 {
        let s = bar.step(led == 4);
        assert_eq!(s.led, led);
        assert_eq!(s.on_ms, if led < 4 { 100 } else { 300 });
        assert_eq!(s.rearm, led == 4);
    }
    assert_eq!(bar.step(true), BarStep { led: 0, on_ms: 500, off_ms: 100, rearm: true });
}

#[test]
fn selector_moves_light_and_wraps() {
    let mut s = LedSelector::new(3);
    assert_eq!(s.step(false), None);
    assert_eq!(s.step(true), Some(LedSwitch { off: 0, on: 1 }));
    assert_eq!(s.step(true), Some(LedSwitch { off: 1, on: 2 }));
    assert_eq!(s.step(true), Some(LedSwitch { off: 2, on: 0 }));
    assert_eq!(s.active, 0);
}

#[test]
fn single_led_selector_stays() {
    let mut s = LedSelector::new(1);
    assert_eq!(s.step(true), Some(LedSwitch { off: 0, on: 0 }));
}

#[test]
fn toggle_after_more_than_five_seconds() {
    assert!(!toggle_due(0));
    assert!(!toggle_due(5));
    assert!(toggle_due(6));
    assert!(toggle_due(u64::MAX));
}
