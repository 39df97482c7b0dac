use vstd::prelude::*;

verus! {

/// What the fading programs do next: set the LED's duty, or turn around at
/// the end of a sweep (where the ESP-IDF program pauses for a second).
#[derive(Debug, PartialEq, Eq)]
pub enum FadeStep {
    Duty(u32),
    Turn,
}

/// The fading programs' sweep over the duties `min_duty..max_duty`: up
/// when `rising`, down otherwise, with `done` duties of the current sweep
/// already set.
pub struct Fader {
    pub min_duty: u32,
    pub max_duty: u32,
    pub rising: bool,
    pub done: u32,
}

impl Fader {
    /// The state's invariant: the range is not reversed and the sweep has
    /// not gone past its end.
    pub open spec fn wf(&self) -> bool {
        self.min_duty <= self.max_duty && self.done <= self.max_duty - self.min_duty
    }
}

/// The next step of `f`: the next duty of the current sweep, up from
/// `min_duty` or down from `max_duty - 1`, or a turn once the sweep is over.
pub open spec fn fade_output(f: Fader) -> FadeStep {
    if f.done < f.max_duty - f.min_duty {
        if f.rising {
            FadeStep::Duty((f.min_duty + f.done) as u32)
        } else {
            FadeStep::Duty((f.max_duty - 1 - f.done) as u32)
        }
    } else {
        FadeStep::Turn
    }
}

/// The state of `f` after its next step.
pub open spec fn fade_after(f: Fader) -> Fader {
    if f.done < f.max_duty - f.min_duty {
        Fader { done: (f.done + 1) as u32, ..f }
    } else {
        Fader { rising: !f.rising, done: 0, ..f }
    }
}

impl Fader {
    /// A rising sweep over `min_duty..max_duty` that has not started.
    pub fn new(min_duty: u32, max_duty: u32) -> (f: Fader)
        requires
            min_duty <= max_duty,
        ensures
            f.wf(),
            f == (Fader { min_duty, max_duty, rising: true, done: 0 }),
    {
        Fader { min_duty, max_duty, rising: true, done: 0 }
    }

    /// Takes the next step of the sweep.
    pub fn step(&mut self) -> (out: FadeStep)
        requires
            old(self).wf(),
        ensures
            out == fade_output(*old(self)),
            *final(self) == fade_after(*old(self)),
    {
        if self.done < self.max_duty - self.min_duty {
            let duty: u32 = if self.rising {
                self.min_duty + self.done
            } else {
                self.max_duty - 1 - self.done
            };
            self.done = self.done + 1;
            FadeStep::Duty(duty)
        } else {
            self.rising = !self.rising;
            self.done = 0;
            FadeStep::Turn
        }
    }
}

/// Every duty that a sweep sets lies in `min_duty..max_duty`, and stepping
/// keeps the sweep's invariant.
pub proof fn lemma_fade_stays_in_range(f: Fader)
    requires
        f.wf(),
    ensures
        fade_after(f).wf(),
        fade_after(f).min_duty == f.min_duty,
        fade_after(f).max_duty == f.max_duty,
        fade_output(f) matches FadeStep::Duty(d) ==> f.min_duty <= d < f.max_duty,
{
}

/// A sweep sets its duties one apart, in order: a rising sweep starts at
/// `min_duty` and each duty is one more than the one before, a falling sweep
/// starts at `max_duty - 1` and each duty is one less; a sweep sets exactly
/// `max_duty - min_duty` duties and then turns, and the turn reverses it.
pub proof fn lemma_fade_steps_by_one(f: Fader)
    requires
        f.wf(),
    ensures
        f.done == 0 && f.min_duty < f.max_duty ==> fade_output(f) == if f.rising {
            FadeStep::Duty(f.min_duty)
        } else {
            FadeStep::Duty((f.max_duty - 1) as u32)
        },
        f.done + 1 < f.max_duty - f.min_duty ==> (fade_output(f) matches FadeStep::Duty(a)
            && fade_output(fade_after(f)) matches FadeStep::Duty(b) && (if f.rising {
            b == a + 1
        } else {
            b + 1 == a
        })),
        fade_output(f) == FadeStep::Turn <==> f.done == f.max_duty - f.min_duty,
        fade_output(f) == FadeStep::Turn ==> fade_after(f).rising == !f.rising
            && fade_after(f).done == 0,
        fade_output(f) != FadeStep::Turn ==> fade_after(f).rising == f.rising
            && fade_after(f).done == f.done + 1,
{
}

/// The sweep after `n` more steps of `f`.
pub open spec fn fade_after_steps(f: Fader, n: nat) -> Fader
    decreases n,
{
    if n == 0 {
        f
    } else {
        fade_after_steps(fade_after(f), (n - 1) as nat)
    }
}

/// A sweep sets its duties in order, one after the other, from where it
/// stands: `k` steps on (while the sweep lasts) it has set `done + k`
/// duties, and its next duty is `min_duty + done + k` when rising and
/// `max_duty - 1 - done - k` when falling; once all `max_duty - min_duty`
/// are set, the next step turns.
pub proof fn lemma_fade_sweep_order(f: Fader, k: nat)
    requires
        f.wf(),
        f.done + k <= f.max_duty - f.min_duty,
    ensures
        fade_after_steps(f, k) == (Fader { done: (f.done + k) as u32, ..f }),
        f.done + k < f.max_duty - f.min_duty ==> fade_output(fade_after_steps(f, k)) == if f.rising {
            FadeStep::Duty((f.min_duty + f.done + k) as u32)
        } else {
            FadeStep::Duty((f.max_duty - 1 - f.done - k) as u32)
        },
        f.done + k == f.max_duty - f.min_duty ==> fade_output(fade_after_steps(f, k))
            == FadeStep::Turn,
    decreases k,
{
    if k > 0 {
        let g = fade_after(f);
        assert(g == (Fader { done: (f.done + 1) as u32, ..f }));
        lemma_fade_sweep_order(g, (k - 1) as nat);
    }
}

} // verus!
