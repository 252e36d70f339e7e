//! How long to wait before trying again to send on a busy bus.

use vstd::prelude::*;

verus! {

/// A span of time.
#[derive(Clone, Copy, Debug, PartialEq, Eq, Structural)]
pub struct Duration {
    /// How many ticks of the clock it is, of which there are a million in a second.
    pub ticks: u64,
}

/// A span of microseconds: `embassy_time`'s `Duration::from_micros`. A tick is a microsecond, the
/// rate that the clock has where no other is chosen.
#[verifier::external_body]
fn from_micros(micros: u64) -> (duration: Duration)
    requires
        micros < u64::MAX,
    ensures
        duration.ticks == micros,
{
    Duration { ticks: embassy_time::Duration::from_micros(micros).as_ticks() }
}

/// A span of time so many times: `embassy_time`'s `Duration` times a number, which must not
/// overflow.
#[verifier::external_body]
fn times(duration: Duration, factor: u32) -> (product: Duration)
    requires
        duration.ticks * factor <= u64::MAX,
    ensures
        product.ticks == duration.ticks * factor,
{
    Duration { ticks: (embassy_time::Duration::from_ticks(duration.ticks) * factor).as_ticks() }
}

/// Two spans of time, one after the other: `embassy_time`'s `Duration` plus another, which must not
/// overflow.
#[verifier::external_body]
fn plus(first: Duration, second: Duration) -> (sum: Duration)
    requires
        first.ticks + second.ticks <= u64::MAX,
    ensures
        sum.ticks == first.ticks + second.ticks,
{
    let first = embassy_time::Duration::from_ticks(first.ticks);
    let second = embassy_time::Duration::from_ticks(second.ticks);
    Duration { ticks: (first + second).as_ticks() }
}

/// Computes how long to wait: longer with each try, up to a limit, and a random bit more.
pub struct CarrierSenseBackoffCaluator {
    current_retries: u8,
    max_retries: u8,
    base_backoff: Duration,
    random_component_microseconds: u32,
}

/// What a calculator knows.
pub struct Backoff {
    /// How many tries have been counted.
    pub current_retries: u8,
    /// How many tries are counted at most.
    pub max_retries: u8,
    /// How much longer each counted try makes the wait, in ticks.
    pub base_backoff: u64,
    /// The random bit is less than this, in microseconds.
    pub random_component: u32,
}

impl Backoff {
    /// What a calculator knows after it was asked once more.
    pub open spec fn next(self) -> Backoff {
        Backoff {
            current_retries: if self.current_retries < self.max_retries {
                (self.current_retries + 1) as u8
            } else {
                self.current_retries
            },
            ..self
        }
    }

    /// What a calculator knows after it was asked `n` times.
    pub open spec fn after(self, n: nat) -> Backoff
        decreases n,
    {
        if n == 0 {
            self
        } else {
            self.after((n - 1) as nat).next()
        }
    }

    /// What a calculator knows that has counted nothing.
    pub open spec fn fresh(self) -> Backoff {
        Backoff { current_retries: 0, ..self }
    }

    /// How long to wait, in ticks, when `random` was drawn.
    pub open spec fn wait(self, random: u32) -> int {
        self.base_backoff * (self.current_retries + 1) + random % self.random_component
    }

    /// Whether there is a random bit, and no wait is too long for the clock.
    pub open spec fn in_range(self) -> bool {
        &&& self.random_component > 0
        &&& self.base_backoff * (self.max_retries + 1) + (self.random_component - 1) <= u64::MAX
    }
}

impl View for CarrierSenseBackoffCaluator {
    type V = Backoff;

    closed spec fn view(&self) -> Backoff {
        Backoff {
            current_retries: self.current_retries,
            max_retries: self.max_retries,
            base_backoff: self.base_backoff.ticks,
            random_component: self.random_component_microseconds,
        }
    }
}

impl CarrierSenseBackoffCaluator {
    /// A calculator that has counted no tries.
    pub fn new(
        max_retries: u8,
        base_backoff: Duration,
        random_component_microseconds: u32,
    ) -> (calculator: Self)
        ensures
            calculator@ == (Backoff {
                current_retries: 0,
                max_retries,
                base_backoff: base_backoff.ticks,
                random_component: random_component_microseconds,
            }),
    {
        Self { current_retries: 0, max_retries, base_backoff, random_component_microseconds }
    }

    /// The random bit that a random number makes.
    fn get_random_backoff(&self, random: u32) -> (backoff: Duration)
        requires
            self@.random_component > 0,
        ensures
            backoff.ticks == random % self@.random_component,
    {
        let duration: u32 = random % self.random_component_microseconds;
        from_micros(duration as u64)
    }

    /// How long to wait now, when `random` was drawn; the try is counted.
    pub fn backoff(&mut self, random: u32) -> (backoff: Duration)
        requires
            old(self)@.random_component > 0,
            old(self)@.wait(random) <= u64::MAX,
        ensures
            backoff.ticks == old(self)@.wait(random),
            final(self)@ == old(self)@.next(),
    {
        proof {
            assert(self.base_backoff.ticks * (self.current_retries + 1) >= 0) by (nonlinear_arith);
        }
        let backoff = times(self.base_backoff, self.current_retries as u32 + 1);
        if self.current_retries < self.max_retries {
            self.current_retries = self.current_retries + 1;
        }
        plus(backoff, self.get_random_backoff(random))
    }

    /// Forgets the tries.
    pub fn reset(&mut self)
        ensures
            final(self)@ == old(self)@.fresh(),
    {
        self.current_retries = 0;
    }
}

/// Each try is counted, up to the limit: after a reset, `n` tries count as `n`, or as the limit if
/// they are more.
pub proof fn tries_are_counted_to_the_limit(backoff: Backoff, n: nat)
    ensures
        backoff.fresh().after(n).current_retries == if n <= backoff.max_retries {
            n as int
        } else {
            backoff.max_retries as int
        },
        backoff.fresh().after(n) == (Backoff {
            current_retries: backoff.fresh().after(n).current_retries,
            ..backoff
        }),
    decreases n,
{
    if n > 0 {
        tries_are_counted_to_the_limit(backoff, (n - 1) as nat);
    }
}

/// The wait is at least the base wait for each counted try and one more, and longer than that by
/// less than the random component; and it is never longer than the clock can tell.
pub proof fn wait_is_bounded(backoff: Backoff, random: u32)
    requires
        backoff.in_range(),
        backoff.current_retries <= backoff.max_retries,
    ensures
        backoff.base_backoff * (backoff.current_retries + 1) <= backoff.wait(random)
            < backoff.base_backoff * (backoff.current_retries + 1) + backoff.random_component,
        backoff.wait(random) <= u64::MAX,
{
    let base = backoff.base_backoff as int;
    let current = backoff.current_retries + 1;
    let most = backoff.max_retries + 1;
    assert(base * current <= base * most) by (nonlinear_arith)
        requires
            0 <= base,
            current <= most,
    ;
}

/// With the same random number, another try never waits less than the one before it.
pub proof fn wait_does_not_shrink(backoff: Backoff, random: u32)
    ensures
        backoff.wait(random) <= backoff.next().wait(random),
{
    let base = backoff.base_backoff as int;
    let current = backoff.current_retries + 1;
    let next = backoff.next().current_retries + 1;
    assert(base * current <= base * next) by (nonlinear_arith)
        requires
            0 <= base,
            current <= next,
    ;
}

/// A random number below the random component is added as it is to the base wait for each counted
/// try and one more, and every other counts like what is left of it when as many whole random
/// components as fit are taken away.
pub proof fn random_number_is_added(backoff: Backoff, random: u32)
    requires
        backoff.random_component > 0,
    ensures
        random < backoff.random_component ==> backoff.wait(random) == backoff.base_backoff * (
        backoff.current_retries + 1) + random,
        random >= backoff.random_component ==> backoff.wait(random) == backoff.wait(
            (random - backoff.random_component) as u32,
        ),
{
    let component = backoff.random_component as int;
    if random < component {
        vstd::arithmetic::div_mod::lemma_small_mod(random as nat, component as nat);
    } else {
        vstd::arithmetic::div_mod::lemma_mod_sub_multiples_vanish(random as int, component);
    }
}

/// A try is counted if the limit is not reached, a reset forgets the tries, and neither changes the
/// limit, the base wait or the random component.
pub proof fn only_the_tries_change(backoff: Backoff)
    ensures
        backoff.current_retries < backoff.max_retries ==> backoff.next().current_retries
            == backoff.current_retries + 1,
        backoff.current_retries >= backoff.max_retries ==> backoff.next().current_retries
            == backoff.current_retries,
        backoff.next().max_retries == backoff.max_retries,
        backoff.next().base_backoff == backoff.base_backoff,
        backoff.next().random_component == backoff.random_component,
        backoff.fresh().current_retries == 0,
        backoff.fresh().max_retries == backoff.max_retries,
        backoff.fresh().base_backoff == backoff.base_backoff,
        backoff.fresh().random_component == backoff.random_component,
        backoff.random_component > 0 && backoff.base_backoff * (backoff.max_retries + 1)
            + backoff.random_component <= u64::MAX ==> backoff.in_range(),
{
}

} // verus!
