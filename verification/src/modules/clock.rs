use std::time::Duration;
use std::time::Instant;
use vstd::arithmetic::div_mod::lemma_fundamental_div_mod;
use vstd::arithmetic::div_mod::lemma_fundamental_div_mod_converse;
use vstd::prelude::*;

verus! {

/// A point on the monotonic clock of the standard library. Nothing is known
/// of such a value but that it can be handed back to the clock.
#[verifier::external_type_specification]
#[verifier::external_body]
pub struct ExInstant(Instant);

/// `Instant::now` reads the monotonic clock. Nothing is claimed of what it
/// reads.
pub assume_specification[ Instant::now ]() -> (now: Instant)
;

/// `Instant::elapsed` measures the time since `instant` was read. Nothing is
/// claimed of the measure.
pub assume_specification[ Instant::elapsed ](instant: &Instant) -> (elapsed: Duration)
;

/// `Duration::as_nanos` gives a duration as whole nanoseconds. Nothing is
/// claimed of the number, since nothing is known of the duration.
pub assume_specification[ Duration::as_nanos ](duration: &Duration) -> (nanos: u128)
;

/// The logical updates that fall due when `elapsed` nanoseconds are added to
/// an accumulator that stands at `accumulator`.
pub open spec fn steps_due(accumulator: nat, fixed_dt: nat, elapsed: nat) -> nat {
    (accumulator + elapsed) / fixed_dt
}

/// What is left in the accumulator once those updates have been taken out.
pub open spec fn left_over(accumulator: nat, fixed_dt: nat, elapsed: nat) -> nat {
    (accumulator + elapsed) % fixed_dt
}

/// The sum of a sequence of elapsed times.
pub open spec fn total(ticks: Seq<nat>) -> nat
    decreases ticks.len(),
{
    if ticks.len() == 0 {
        0
    } else {
        total(ticks.drop_last()) + ticks.last()
    }
}

/// The accumulator after the ticks of `ticks` have been fed, one after the
/// other, to a clock that started empty.
pub open spec fn accumulated(fixed_dt: nat, ticks: Seq<nat>) -> nat
    decreases ticks.len(),
{
    if ticks.len() == 0 {
        0
    } else {
        left_over(accumulated(fixed_dt, ticks.drop_last()), fixed_dt, ticks.last())
    }
}

/// The number of updates that fell due over all of `ticks`.
pub open spec fn updates_run(fixed_dt: nat, ticks: Seq<nat>) -> nat
    decreases ticks.len(),
{
    if ticks.len() == 0 {
        0
    } else {
        updates_run(fixed_dt, ticks.drop_last()) + steps_due(
            accumulated(fixed_dt, ticks.drop_last()),
            fixed_dt,
            ticks.last(),
        )
    }
}

/// Whatever the sequence of ticks, the updates that fell due number the
/// whole multiples of the interval in the time that passed, and what is left
/// in the accumulator is the rest of that division, so less than one
/// interval.
pub proof fn law_updates_follow_elapsed_time(fixed_dt: nat, ticks: Seq<nat>)
    requires
        fixed_dt > 0,
    ensures
        updates_run(fixed_dt, ticks) == total(ticks) / fixed_dt,
        accumulated(fixed_dt, ticks) == total(ticks) % fixed_dt,
        accumulated(fixed_dt, ticks) < fixed_dt,
    decreases ticks.len(),
{
    if ticks.len() > 0 {
        let earlier = ticks.drop_last();
        law_updates_follow_elapsed_time(fixed_dt, earlier);
        let d = fixed_dt as int;
        let before = total(earlier) as int;
        let last = ticks.last() as int;
        let fed = accumulated(fixed_dt, earlier) as int + last;
        lemma_fundamental_div_mod(before, d);
        lemma_fundamental_div_mod(fed, d);
        let quotient = before / d + fed / d;
        let rest = fed % d;
        assert(before + last == quotient * d + rest) by (nonlinear_arith)
            requires
                before == d * (before / d) + before % d,
                fed == d * (fed / d) + fed % d,
                fed == before % d + last,
                quotient == before / d + fed / d,
                rest == fed % d,
        ;
        lemma_fundamental_div_mod_converse(before + last, d, quotient, rest);
    }
}

/// The monotonic clock together with the accumulator of the fixed-timestep
/// loop. All times are whole nanoseconds.
pub struct Clock {
    delta_time: Instant,
    ticked: bool,
    time_accumulator: u64,
    update_dt: u64,
}

impl Clock {
    #[verifier::type_invariant]
    spec fn well_formed(self) -> bool {
        self.time_accumulator < self.update_dt
    }

    /// The time that has been fed to the clock and not yet spent on an
    /// update.
    pub closed spec fn accumulator(&self) -> nat {
        self.time_accumulator as nat
    }

    /// The length of one logical update.
    pub closed spec fn fixed_dt(&self) -> nat {
        self.update_dt as nat
    }

    /// Whether the clock has been read since it was made.
    pub closed spec fn has_ticked(&self) -> bool {
        self.ticked
    }

    /// A clock with an empty accumulator that has not been read yet.
    pub fn new(update_dt: u64) -> (clock: Self)
        requires
            update_dt > 0,
        ensures
            clock.accumulator() == 0,
            clock.fixed_dt() == update_dt,
            !clock.has_ticked(),
    {
        Clock { delta_time: Instant::now(), ticked: false, time_accumulator: 0, update_dt }
    }

    /// The nanoseconds since the previous call; the first call reports 0.
    /// A span that does not fit is reported as the largest `u64`. The
    /// accumulator is left alone.
    pub fn tick(&mut self) -> (elapsed: u64)
        ensures
            !old(self).has_ticked() ==> elapsed == 0,
            final(self).has_ticked(),
            final(self).accumulator() == old(self).accumulator(),
            final(self).accumulator() < final(self).fixed_dt(),
            final(self).fixed_dt() == old(self).fixed_dt(),
    {
        proof {
            use_type_invariant(&*self);
        }
        let nanos = self.delta_time.elapsed().as_nanos();
        self.delta_time = Instant::now();
        if self.ticked {
            Clock::saturated(nanos)
        } else {
            self.ticked = true;
            0
        }
    }

    /// Feeds `elapsed` nanoseconds to the accumulator and takes out of it as
    /// many whole intervals as it then holds. Their number is returned: so
    /// many logical updates are due.
    pub fn advance(&mut self, elapsed: u64) -> (steps: u64)
        ensures
            steps == steps_due(old(self).accumulator(), old(self).fixed_dt(), elapsed as nat),
            final(self).accumulator() == left_over(
                old(self).accumulator(),
                old(self).fixed_dt(),
                elapsed as nat,
            ),
            final(self).accumulator() < final(self).fixed_dt(),
            final(self).fixed_dt() == old(self).fixed_dt(),
            final(self).has_ticked() == old(self).has_ticked(),
    {
        proof {
            use_type_invariant(&*self);
        }
        let interval = self.update_dt as u128;
        let fed = self.time_accumulator as u128 + elapsed as u128;
        let steps = fed / interval;
        let rest = fed % interval;
        proof {
            lemma_fundamental_div_mod(fed as int, interval as int);
            assert(steps <= u64::MAX) by (nonlinear_arith)
                requires
                    fed == interval * steps + rest,
                    0 <= rest,
                    fed < interval + u64::MAX,
                    interval > 0,
                    steps >= 0,
            ;
        }
        self.time_accumulator = rest as u64;
        steps as u64
    }

    /// A span of `nanos` nanoseconds as the clock reports it: the span
    /// itself where it fits, the largest `u64` where it does not.
    pub fn saturated(nanos: u128) -> (elapsed: u64)
        ensures
            elapsed == saturation(nanos),
    {
        if nanos > u64::MAX as u128 {
            u64::MAX
        } else {
            nanos as u64
        }
    }
}

/// What the clock reports of a span of `nanos` nanoseconds: spans beyond the
/// largest `u64` are cut down to it.
pub open spec fn saturation(nanos: u128) -> u64 {
    if nanos > u64::MAX {
        u64::MAX
    } else {
        nanos as u64
    }
}

} // verus!
