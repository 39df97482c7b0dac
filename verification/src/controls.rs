use vstd::prelude::*;

verus! {

/// Counting on by one from `i` among `n` places goes to `i + 1`, or back to
/// 0 from the last.
proof fn lemma_next_place(i: int, n: int)
    requires
        0 <= i < n,
    ensures
        (i + 1) % n == (if i + 1 == n { 0 } else { i + 1 }),
{
    if i + 1 == n {
        vstd::arithmetic::div_mod::lemma_mod_self_0(n);
    } else {
        vstd::arithmetic::div_mod::lemma_small_mod((i + 1) as nat, n as nat);
    }
}

/// A latch that an interrupt handler raises and the main loop consumes:
/// the programs' `FLAG`.
pub struct EventFlag {
    pub raised: bool,
}

impl EventFlag {
    /// A lowered flag.
    pub fn new() -> (f: EventFlag)
        ensures
            !f.raised,
    {
        EventFlag { raised: false }
    }

    /// Whether the flag was raised, lowering it: the main loop's look at the
    /// flag, followed by clearing it when it was set.
    pub fn take(&mut self) -> (was_raised: bool)
        ensures
            was_raised == old(self).raised,
            !final(self).raised,
    {
        let was_raised = self.raised;
        self.raised = false;
        was_raised
    }
}

/// The button's interrupt handler: records the press.
pub fn on_press(flag: &mut EventFlag)
    ensures
        final(flag).raised,
{
    flag.raised = true;
}

/// The timer's interrupt handler: records that a second has passed.
pub fn on_tick(flag: &mut EventFlag)
    ensures
        final(flag).raised,
{
    flag.raised = true;
}

/// The button press counters' state: the presses counted so far.
pub struct PressCounter {
    pub count: u32,
}

impl PressCounter {
    /// No press counted yet.
    pub fn new() -> (c: PressCounter)
        ensures
            c.count == 0,
    {
        PressCounter { count: 0 }
    }

    /// One turn of the main loop: a press counts, and the new count is
    /// returned to be printed (after which the program listens for the
    /// button again); without a press nothing changes.
    pub fn step(&mut self, pressed: bool) -> (shown: Option<u32>)
        requires
            pressed ==> old(self).count < u32::MAX,
        ensures
            pressed ==> final(self).count == old(self).count + 1 && shown == Some(
                final(self).count,
            ),
            !pressed ==> final(self).count == old(self).count && shown is None,
    {
        if pressed {
            self.count = self.count + 1;
            Some(self.count)
        } else {
            None
        }
    }
}

/// How long the LED of the button-controlled blinker starts lit, in
/// milliseconds; also how long it stays dark.
pub const BLINK_INITIAL_MS: u32 = 200;

/// How much longer the LED stays lit after each press, in milliseconds.
pub const BLINK_STEP_MS: u32 = 1000;

/// One blink: lit for `on_ms`, then dark for `off_ms`.
#[derive(Debug, PartialEq, Eq)]
pub struct BlinkPhase {
    pub on_ms: u32,
    pub off_ms: u32,
}

/// The button-controlled blinker's state: how long the LED stays lit.
pub struct BlinkDelay {
    pub on_ms: u32,
}

impl BlinkDelay {
    /// Lit for the initial delay.
    pub fn new() -> (b: BlinkDelay)
        ensures
            b.on_ms == BLINK_INITIAL_MS,
    {
        BlinkDelay { on_ms: BLINK_INITIAL_MS }
    }

    /// One turn of the main loop: a press lengthens the lit time by one
    /// step; then the LED blinks once, lit for the lit time and dark for the
    /// initial delay.
    pub fn step(&mut self, pressed: bool) -> (phase: BlinkPhase)
        requires
            pressed ==> old(self).on_ms + BLINK_STEP_MS <= u32::MAX,
        ensures
            final(self).on_ms == old(self).on_ms + (if pressed {
                BLINK_STEP_MS
            } else {
                0
            }),
            phase.on_ms == final(self).on_ms,
            phase.off_ms == BLINK_INITIAL_MS,
    {
        if pressed {
            self.on_ms = self.on_ms + BLINK_STEP_MS;
        }
        BlinkPhase { on_ms: self.on_ms, off_ms: BLINK_INITIAL_MS }
    }
}

/// How long each LED of the bar starts lit, in milliseconds; also how long
/// it stays dark.
pub const BAR_INITIAL_MS: u32 = 100;

/// How much longer each LED of the bar stays lit after each press, in
/// milliseconds.
pub const BAR_STEP_MS: u32 = 200;

/// One turn of the LED bar: LED `led` lit for `on_ms`, then dark for
/// `off_ms`; `rearm` says whether to listen for the button again first.
#[derive(Debug, PartialEq, Eq)]
pub struct BarStep {
    pub led: usize,
    pub on_ms: u32,
    pub off_ms: u32,
    pub rearm: bool,
}

/// The LED bar's state: the LED whose turn is next and how long each LED
/// stays lit.
pub struct LedBar {
    pub led_count: usize,
    pub next_led: usize,
    pub on_ms: u32,
}

impl LedBar {
    /// The state's invariant: the next LED is one of the bar's.
    pub open spec fn wf(&self) -> bool {
        self.next_led < self.led_count
    }

    /// A bar of `led_count` LEDs, starting with the first, lit for the
    /// initial delay.
    pub fn new(led_count: usize) -> (b: LedBar)
        requires
            led_count > 0,
        ensures
            b.wf(),
            b.led_count == led_count,
            b.next_led == 0,
            b.on_ms == BAR_INITIAL_MS,
    {
        LedBar { led_count, next_led: 0, on_ms: BAR_INITIAL_MS }
    }

    /// One LED's turn: a press lengthens the lit time by one step (and the
    /// program listens for the button again); then the next LED blinks
    /// once, and the turn passes to the LED after it, the first after the
    /// last.
    pub fn step(&mut self, pressed: bool) -> (s: BarStep)
        requires
            old(self).wf(),
            pressed ==> old(self).on_ms + BAR_STEP_MS <= u32::MAX,
        ensures
            final(self).wf(),
            final(self).led_count == old(self).led_count,
            final(self).on_ms == old(self).on_ms + (if pressed {
                BAR_STEP_MS
            } else {
                0
            }),
            final(self).next_led == (old(self).next_led + 1) % (old(self).led_count as int),
            s.led == old(self).next_led,
            s.on_ms == final(self).on_ms,
            s.off_ms == BAR_INITIAL_MS,
            s.rearm == pressed,
    {
        if pressed {
            self.on_ms = self.on_ms + BAR_STEP_MS;
        }
        let led: usize = self.next_led;
        proof {
            lemma_next_place(led as int, self.led_count as int);
        }
        self.next_led = if led + 1 == self.led_count {
            0
        } else {
            led + 1
        };
        BarStep { led, on_ms: self.on_ms, off_ms: BAR_INITIAL_MS, rearm: pressed }
    }
}

/// A press moves the light from LED `off` to LED `on`.
#[derive(Debug, PartialEq, Eq)]
pub struct LedSwitch {
    pub off: usize,
    pub on: usize,
}

/// The weather station's state: which of its LEDs is lit, and so which
/// day's temperature the page shows.
pub struct LedSelector {
    pub led_count: usize,
    pub active: usize,
}

impl LedSelector {
    /// The state's invariant: the lit LED is one of the station's.
    pub open spec fn wf(&self) -> bool {
        self.active < self.led_count
    }

    /// `led_count` LEDs, the first lit.
    pub fn new(led_count: usize) -> (s: LedSelector)
        requires
            led_count > 0,
        ensures
            s.wf(),
            s.led_count == led_count,
            s.active == 0,
    {
        LedSelector { led_count, active: 0 }
    }

    /// One turn of the main loop: a press moves the light to the next LED,
    /// the first after the last (after which the program listens for the
    /// button again); without a press nothing changes.
    pub fn step(&mut self, pressed: bool) -> (switch: Option<LedSwitch>)
        requires
            old(self).wf(),
        ensures
            final(self).wf(),
            final(self).led_count == old(self).led_count,
            pressed ==> final(self).active == (old(self).active + 1) % (
            old(self).led_count as int) && switch == Some(
                LedSwitch { off: old(self).active, on: final(self).active },
            ),
            !pressed ==> final(self).active == old(self).active && switch is None,
    {
        if pressed {
            let off: usize = self.active;
            proof {
                lemma_next_place(off as int, self.led_count as int);
            }
            self.active = if off + 1 == self.led_count {
                0
            } else {
                off + 1
            };
            Some(LedSwitch { off, on: self.active })
        } else {
            None
        }
    }
}

/// The LED lit after `presses` presses, starting from LED `active` of
/// `led_count`.
pub open spec fn lit_after(active: int, led_count: int, presses: nat) -> int {
    (active + presses) % led_count
}

/// Each press moves the light one LED on, round the bar: one more press
/// after `presses` presses lights the LED lit after `presses + 1` presses
/// (the step that `LedSelector::step` takes), and `led_count` presses bring
/// the light back to where it started.
pub proof fn lemma_presses_go_round(active: int, led_count: int, presses: nat)
    requires
        0 <= active < led_count,
    ensures
        (lit_after(active, led_count, presses) + 1) % led_count == lit_after(
            active,
            led_count,
            presses + 1,
        ),
        lit_after(active, led_count, led_count as nat) == active,
{
    vstd::arithmetic::div_mod::lemma_add_mod_noop(active + presses, 1, led_count);
    if led_count > 1 {
        vstd::arithmetic::div_mod::lemma_small_mod(1, led_count as nat);
    } else {
        vstd::arithmetic::div_mod::lemma_mod_self_0(1);
    }
    vstd::arithmetic::div_mod::lemma_mod_multiples_vanish(1, active, led_count);
    vstd::arithmetic::div_mod::lemma_small_mod(active as nat, led_count as nat);
}

/// How many whole seconds the timer-based blinker lets pass before it
/// toggles its LED: it toggles once more than this many have passed.
pub const TOGGLE_AFTER_SECS: u64 = 5;

/// Whether the timer-based blinker toggles its LED (and starts counting
/// again) after `elapsed_secs` whole seconds.
pub fn toggle_due(elapsed_secs: u64) -> (due: bool)
    ensures
        due == (elapsed_secs > TOGGLE_AFTER_SECS),
{
    elapsed_secs > TOGGLE_AFTER_SECS
}

} // verus!
