use vstd::prelude::*;
use crate::text::{is_ascii_digit, lemma_padded2_reads_back, padded2, push_padded2, read_decimal};

verus! {

/// `hours:minutes:seconds`, each padded with zeros to two digits, as the
/// clocks print themselves.
pub open spec fn clock_text(hours: u8, minutes: u8, seconds: u8) -> Seq<char> {
    padded2(hours as nat) + seq![':'] + padded2(minutes as nat) + seq![':'] + padded2(
        seconds as nat,
    )
}

/// `cs` is a field of a printed clock: at least two ASCII digits.
pub open spec fn is_clock_field(cs: Seq<char>) -> bool {
    cs.len() >= 2 && forall|i: int| 0 <= i < cs.len() ==> is_ascii_digit(#[trigger] cs[i])
}

/// A printed clock reads back as the time it shows: three fields of at
/// least two digits, separated by `:`, that read as the hours, the minutes
/// and the seconds.
pub proof fn lemma_clock_text_reads_back(hours: u8, minutes: u8, seconds: u8)
    ensures
        exists|a: Seq<char>, b: Seq<char>, c: Seq<char>|
            #![trigger read_decimal(a), read_decimal(b), read_decimal(c)]
            clock_text(hours, minutes, seconds) == a + seq![':'] + b + seq![':'] + c
                && is_clock_field(a) && is_clock_field(b) && is_clock_field(c) && read_decimal(a)
                == hours && read_decimal(b) == minutes && read_decimal(c) == seconds,
{
    lemma_padded2_reads_back(hours as nat);
    lemma_padded2_reads_back(minutes as nat);
    lemma_padded2_reads_back(seconds as nat);
    let a = padded2(hours as nat);
    let b = padded2(minutes as nat);
    let c = padded2(seconds as nat);
    assert(is_clock_field(a) && is_clock_field(b) && is_clock_field(c));
    assert(read_decimal(a) == hours && read_decimal(b) == minutes && read_decimal(c) == seconds);
}

fn format_clock(hours: u8, minutes: u8, seconds: u8) -> (s: String)
    ensures
        s@ == clock_text(hours, minutes, seconds),
{
    let mut s = String::new();
    push_padded2(&mut s, hours);
    proof {
        reveal_strlit(":");
    }
    s.append(":");
    push_padded2(&mut s, minutes);
    s.append(":");
    push_padded2(&mut s, seconds);
    s
}

/// The clock that the bare-metal timer program advances once a second.
///
/// Its `tick` counts on past 59 seconds instead of wrapping them: once the
/// seconds pass 59 every tick also advances the minutes, once the minutes
/// pass 59 every tick also advances the hours, and the clock goes back to
/// midnight when the hours pass 24.
pub struct Time {
    pub seconds: u8,
    pub minutes: u8,
    pub hours: u8,
}

/// Whether `tick` can advance `t` without an overflow.
pub open spec fn time_can_tick(t: Time) -> bool {
    let s: int = t.seconds + 1;
    let m: int = if s > 59 { t.minutes + 1 } else { t.minutes as int };
    &&& t.seconds < 255
    &&& s > 59 ==> t.minutes < 255
    &&& m > 59 ==> t.hours < 255
}

/// What `tick` makes of `t`.
pub open spec fn time_after_tick(t: Time) -> Time {
    let s: int = t.seconds + 1;
    let m: int = if s > 59 { t.minutes + 1 } else { t.minutes as int };
    let h: int = if m > 59 { t.hours + 1 } else { t.hours as int };
    if h > 24 {
        Time { seconds: 0, minutes: 0, hours: 0 }
    } else {
        Time { seconds: s as u8, minutes: m as u8, hours: h as u8 }
    }
}

/// The states that `tick` reaches from midnight: the minutes have advanced
/// once for every second past 59, the hours once for every minute past 59,
/// and the hours have not passed 24.
pub open spec fn time_reachable(t: Time) -> bool {
    &&& t.minutes == (if t.seconds >= 60 { t.seconds - 59 } else { 0 })
    &&& t.hours == (if t.minutes >= 60 { t.minutes - 59 } else { 0 })
    &&& t.hours <= 24
}

impl Default for Time {
    /// Midnight.
    fn default() -> (t: Time)
        ensures
            t == (Time { seconds: 0, minutes: 0, hours: 0 }),
    {
        Time { seconds: 0, minutes: 0, hours: 0 }
    }
}

impl Time {
    /// Whether `tick` can advance the clock without an overflow.
    pub fn can_tick(&self) -> (b: bool)
        ensures
            b == time_can_tick(*self),
    {
        self.seconds < 255 && (self.seconds + 1 <= 59 || self.minutes < 255) && (
        (if self.seconds + 1 > 59 {
            self.minutes as u16 + 1
        } else {
            self.minutes as u16
        }) <= 59 || self.hours < 255)
    }

    /// Advances the clock by one second.
    pub fn tick(&mut self)
        requires
            time_can_tick(*old(self)),
        ensures
            *final(self) == time_after_tick(*old(self)),
            final(self).seconds == old(self).seconds + 1 || (final(self).seconds == 0
                && final(self).minutes == 0 && final(self).hours == 0 && old(self).hours >= 24),
    {
        self.seconds += 1;
        if self.seconds > 59 {
            self.minutes += 1;
        }
        if self.minutes > 59 {
            self.hours += 1;
        }
        if self.hours > 24 {
            self.seconds = 0;
            self.minutes = 0;
            self.hours = 0;
        }
    }

    /// The clock as `HH:MM:SS`.
    pub fn to_string(&self) -> (s: String)
        ensures
            s@ == clock_text(self.hours, self.minutes, self.seconds),
    {
        format_clock(self.hours, self.minutes, self.seconds)
    }
}

/// The clock starts at a state that `tick` reaches.
pub proof fn lemma_time_starts_reachable()
    ensures
        time_reachable(Time { seconds: 0, minutes: 0, hours: 0 }),
{
}

/// Ticking from a reachable state never overflows and reaches a reachable
/// state again: started at midnight, the clock can tick for ever.
pub proof fn lemma_time_tick_keeps_reachable(t: Time)
    requires
        time_reachable(t),
    ensures
        time_can_tick(t),
        time_reachable(time_after_tick(t)),
{
}

/// One tick either advances the seconds by exactly one, leaving the minutes
/// and the hours as they were or one more, or, only once the hours have
/// reached 24, goes back to midnight.
pub proof fn lemma_time_tick_advances(t: Time)
    requires
        time_can_tick(t),
    ensures
        ({
            let r = time_after_tick(t);
            ||| r.seconds == t.seconds + 1 && (r.minutes == t.minutes || r.minutes == t.minutes
                + 1) && (r.hours == t.hours || r.hours == t.hours + 1)
            ||| r.seconds == 0 && r.minutes == 0 && r.hours == 0 && t.hours >= 24
        }),
{
}

/// The bare-metal clock after `n` ticks from `t`.
pub open spec fn time_after_ticks(t: Time, n: nat) -> Time
    decreases n,
{
    if n == 0 {
        t
    } else {
        time_after_tick(time_after_ticks(t, (n - 1) as nat))
    }
}

/// Started at midnight, the bare-metal clock shows `k` seconds after `k`
/// ticks, for every `k` up to 142; its minutes count the seconds past 59 and
/// its hours the minutes past 59; the 143rd tick brings it back to midnight.
pub proof fn lemma_time_counts_from_midnight(k: nat)
    requires
        k <= 143,
    ensures
        k < 143 ==> ({
            let t = time_after_ticks(Time { seconds: 0, minutes: 0, hours: 0 }, k);
            let m: int = if k >= 60 { k - 59 } else { 0 };
            &&& t.seconds == k
            &&& t.minutes == m
            &&& t.hours == (if m >= 60 { m - 59 } else { 0 })
        }),
        k == 143 ==> time_after_ticks(Time { seconds: 0, minutes: 0, hours: 0 }, k) == (Time {
            seconds: 0,
            minutes: 0,
            hours: 0,
        }),
    decreases k,
{
    if k > 0 {
        lemma_time_counts_from_midnight((k - 1) as nat);
    }
}

/// The clock that the ESP-IDF timer program advances once a second: a
/// clock of seconds and minutes that wrap at 60 and of hours that go back
/// to zero when they pass 24.
pub struct Timer {
    pub seconds: u8,
    pub minutes: u8,
    pub hours: u8,
}

/// Whether `tick` can advance `t` without an overflow.
pub open spec fn timer_can_tick(t: Timer) -> bool {
    let s: int = t.seconds + 1;
    let m: int = if s > 59 { t.minutes + 1 } else { t.minutes as int };
    &&& t.seconds < 255
    &&& s > 59 ==> t.minutes < 255
    &&& m > 59 ==> t.hours < 255
}

/// What `tick` makes of `t`.
pub open spec fn timer_after_tick(t: Timer) -> Timer {
    let s: int = t.seconds + 1;
    let m: int = if s > 59 { t.minutes + 1 } else { t.minutes as int };
    let h: int = if m > 59 { t.hours + 1 } else { t.hours as int };
    let s2: int = if s > 59 { 0 } else { s };
    let m2: int = if m > 59 { 0 } else { m };
    if h > 24 {
        Timer { seconds: 0, minutes: 0, hours: 0 }
    } else {
        Timer { seconds: s2 as u8, minutes: m2 as u8, hours: h as u8 }
    }
}

/// A time of the timer's day: seconds and minutes below 60, hours up to 24.
pub open spec fn timer_valid(t: Timer) -> bool {
    t.seconds < 60 && t.minutes < 60 && t.hours <= 24
}

/// The seconds since midnight that the timer shows.
pub open spec fn timer_seconds(t: Timer) -> int {
    t.hours * 3600 + t.minutes * 60 + t.seconds
}

/// The length of the timer's day in seconds: its hours run from 0 to 24.
pub open spec fn timer_day() -> int {
    25 * 3600int
}

impl Default for Timer {
    /// Midnight.
    fn default() -> (t: Timer)
        ensures
            t == (Timer { seconds: 0, minutes: 0, hours: 0 }),
    {
        Timer { seconds: 0, minutes: 0, hours: 0 }
    }
}

impl Timer {
    /// Whether `tick` can advance the clock without an overflow.
    pub fn can_tick(&self) -> (b: bool)
        ensures
            b == timer_can_tick(*self),
    {
        self.seconds < 255 && (self.seconds + 1 <= 59 || self.minutes < 255) && (
        (if self.seconds + 1 > 59 {
            self.minutes as u16 + 1
        } else {
            self.minutes as u16
        }) <= 59 || self.hours < 255)
    }

    /// Advances the clock by one second.
    pub fn tick(&mut self)
        requires
            timer_can_tick(*old(self)),
        ensures
            *final(self) == timer_after_tick(*old(self)),
    {
        self.seconds += 1;
        if self.seconds > 59 {
            self.minutes += 1;
            self.seconds = 0;
        }
        if self.minutes > 59 {
            self.hours += 1;
            self.minutes = 0;
        }
        if self.hours > 24 {
            self.seconds = 0;
            self.minutes = 0;
            self.hours = 0;
        }
    }

    /// The clock as `HH:MM:SS`.
    pub fn to_string(&self) -> (s: String)
        ensures
            s@ == clock_text(self.hours, self.minutes, self.seconds),
    {
        format_clock(self.hours, self.minutes, self.seconds)
    }
}

/// A valid time ticks without an overflow to a valid time one second
/// later, modulo the timer's day of 25 hours.
pub proof fn lemma_timer_tick_advances_one_second(t: Timer)
    requires
        timer_valid(t),
    ensures
        timer_can_tick(t),
        timer_valid(timer_after_tick(t)),
        timer_seconds(timer_after_tick(t)) == (timer_seconds(t) + 1) % timer_day(),
{
    let n: int = timer_seconds(t) + 1;
    assert(0 < n <= timer_day());
    if n < timer_day() {
        assert(n % timer_day() == n);
    } else {
        assert(n % timer_day() == 0);
    }
}

/// The timer after `n` ticks from `t`.
pub open spec fn timer_after_ticks(t: Timer, n: nat) -> Timer
    decreases n,
{
    if n == 0 {
        t
    } else {
        timer_after_tick(timer_after_ticks(t, (n - 1) as nat))
    }
}

/// From a valid time, every tick is possible and the timer stays valid,
/// showing the start plus `n` seconds modulo its day.
pub proof fn lemma_timer_after_ticks(t: Timer, n: nat)
    requires
        timer_valid(t),
    ensures
        timer_valid(timer_after_ticks(t, n)),
        timer_can_tick(timer_after_ticks(t, n)),
        timer_seconds(timer_after_ticks(t, n)) == (timer_seconds(t) + n) % timer_day(),
    decreases n,
{
    if n == 0 {
        vstd::arithmetic::div_mod::lemma_small_mod(timer_seconds(t) as nat, timer_day() as nat);
        lemma_timer_tick_advances_one_second(t);
    } else {
        let before = timer_after_ticks(t, (n - 1) as nat);
        lemma_timer_after_ticks(t, (n - 1) as nat);
        lemma_timer_tick_advances_one_second(before);
        vstd::arithmetic::div_mod::lemma_add_mod_noop(timer_seconds(t) + n - 1, 1, timer_day());
        vstd::arithmetic::div_mod::lemma_small_mod(1, timer_day() as nat);
        lemma_timer_tick_advances_one_second(timer_after_ticks(t, n));
    }
}

/// Two valid times that show the same seconds since midnight are the same.
proof fn lemma_timer_seconds_determine(a: Timer, b: Timer)
    requires
        timer_valid(a),
        timer_valid(b),
        timer_seconds(a) == timer_seconds(b),
    ensures
        a == b,
{
    assert(a.hours == b.hours) by (nonlinear_arith)
        requires
            a.seconds < 60,
            a.minutes < 60,
            b.seconds < 60,
            b.minutes < 60,
            a.hours * 3600 + a.minutes * 60 + a.seconds == b.hours * 3600 + b.minutes * 60
                + b.seconds,
    ;
    assert(a.minutes == b.minutes) by (nonlinear_arith)
        requires
            a.seconds < 60,
            b.seconds < 60,
            a.minutes * 60 + a.seconds == b.minutes * 60 + b.seconds,
    ;
}

/// The timer goes round: from a valid time, `n` ticks bring it back to
/// that time exactly when `n` is a multiple of its day of 90,000 seconds.
pub proof fn lemma_timer_cycle(t: Timer, n: nat)
    requires
        timer_valid(t),
    ensures
        (timer_after_ticks(t, n) == t) <==> n % 90000 == 0,
{
    let x: int = timer_seconds(t);
    let d: int = timer_day();
    lemma_timer_after_ticks(t, n);
    vstd::arithmetic::div_mod::lemma_add_mod_noop(x, n as int, d);
    vstd::arithmetic::div_mod::lemma_small_mod(x as nat, d as nat);
    let r: int = (n as int) % d;
    assert(0 <= r < d);
    if r == 0 {
        assert((x + n) % d == x);
        lemma_timer_seconds_determine(timer_after_ticks(t, n), t);
    } else {
        if x + r < d {
            vstd::arithmetic::div_mod::lemma_small_mod((x + r) as nat, d as nat);
        } else {
            vstd::arithmetic::div_mod::lemma_mod_multiples_vanish(1, x + r - d, d);
            vstd::arithmetic::div_mod::lemma_small_mod((x + r - d) as nat, d as nat);
        }
        assert((x + n) % d != x);
    }
}

} // verus!
