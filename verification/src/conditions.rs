//! The impairment profile of one direction of a link: how long a datagram
//! takes, and how likely it is to be lost, sent twice or overtaken.

use rand::distributions::Distribution;
use rand::distributions::Uniform;
use rand::rngs::ThreadRng;
use vstd::prelude::*;

verus! {

/// Nanoseconds in a millisecond.
pub const NANOS_PER_MILLI: u128 = 1_000_000;

/// One percent, in the unit in which chances are held.
pub const PERCENT: u32 = 10_000;

/// The chance of what always happens: a hundred percent.
pub const CERTAIN: u32 = 1_000_000;

/// The thread-local generator of the `rand` crate. Nothing is known of what
/// is inside.
#[verifier::external_type_specification]
#[verifier::external_body]
pub struct ExThreadRng(ThreadRng);

/// `rand::thread_rng`: a handle to the generator of the calling thread,
/// which the system seeds at its first use. Nothing is claimed of the handle.
pub assume_specification[ rand::thread_rng ]() -> (rng: ThreadRng)
;

/// Draws one integer with `rand`: `Uniform::from(low..=high)` builds the
/// distribution over the closed range and `Distribution::sample` takes one
/// value from it. The contract claims that the value lies in the range, which
/// must not be empty, and nothing of which value it is.
#[verifier::external_body]
fn sample(rng: &mut ThreadRng, low: i128, high: i128) -> (value: i128)
    requires
        low <= high,
    ensures
        low <= value <= high,
{
    Uniform::from(low..=high).sample(rng)
}

/// The conditions of one direction: `lag` and `jitter` in milliseconds, the
/// three chances in units of which `CERTAIN` make a hundred percent.
#[derive(Clone, Copy, Debug)]
pub struct Conditions {
    pub lag: u128,
    pub jitter: i128,
    pub dup_chance: u32,
    pub unorder_chance: u32,
    pub loss_chance: u32,
}

/// What was drawn for one datagram: when it is due, whether it arrives, when
/// its copy is due if it is sent twice, whether it is held back, and the
/// further delay it gets when it follows a packet that was held back.
#[derive(Clone, Copy, Debug)]
pub struct Draw {
    pub sent_date: u128,
    pub arrived: bool,
    pub duplicate: Option<u128>,
    pub reordered: bool,
    pub extra_delay: u128,
}

impl Conditions {
    /// The timing that a profile can hold: the jitter is a magnitude, and the
    /// longest delay, in nanoseconds, fits the signed arithmetic that clamps it.
    pub open spec fn valid_timing(lag: u128, jitter: i128) -> bool {
        0 <= jitter && (lag + jitter) * NANOS_PER_MILLI <= i128::MAX
    }

    pub open spec fn wf(self) -> bool {
        Self::valid_timing(self.lag, self.jitter)
    }

    pub open spec fn lag_nanos(self) -> int {
        self.lag * NANOS_PER_MILLI
    }

    pub open spec fn jitter_nanos(self) -> int {
        self.jitter * NANOS_PER_MILLI
    }

    /// The delay when the jitter deviates by `deviation` nanoseconds from the
    /// lag: their sum, or zero where the sum is negative.
    pub open spec fn delay_at(self, deviation: int) -> int {
        if self.lag_nanos() + deviation >= 0 {
            self.lag_nanos() + deviation
        } else {
            0
        }
    }

    /// The shortest delay that the profile can give.
    pub open spec fn min_delay(self) -> int {
        self.delay_at(-self.jitter_nanos())
    }

    /// The longest delay that the profile can give.
    pub open spec fn max_delay(self) -> int {
        self.delay_at(self.jitter_nanos())
    }

    /// No delay is negative, however far the jitter reaches below the lag;
    /// every delay within the jitter lies between the shortest and the
    /// longest; where the jitter is above the lag the shortest delay is zero,
    /// and without jitter every delay is the lag.
    pub proof fn lemma_delay(self, deviation: int)
        requires
            self.wf(),
        ensures
            self.delay_at(deviation) >= 0,
            -self.jitter_nanos() <= deviation <= self.jitter_nanos() ==> self.min_delay()
                <= self.delay_at(deviation) <= self.max_delay(),
            self.jitter > self.lag ==> self.min_delay() == 0,
            self.jitter == 0 ==> self.min_delay() == self.lag_nanos() && self.max_delay()
                == self.lag_nanos(),
    {
    }

    /// Whether a datagram arrives on a roll out of `0..CERTAIN`.
    pub open spec fn arrives_on(self, roll: int) -> bool {
        roll > self.loss_chance
    }

    /// Whether a datagram is sent twice on a roll out of `0..CERTAIN`.
    pub open spec fn duplicates_on(self, roll: int) -> bool {
        roll < self.dup_chance
    }

    /// Whether a datagram is held back on a roll out of `0..CERTAIN`.
    pub open spec fn reorders_on(self, roll: int) -> bool {
        roll < self.unorder_chance
    }

    /// The rolls out of `0..CERTAIN` on which a datagram arrives.
    pub open spec fn arrivals(self) -> Set<int> {
        Set::new(|roll: int| 0 <= roll < CERTAIN && self.arrives_on(roll))
    }

    /// The rolls out of `0..CERTAIN` on which a datagram is sent twice.
    pub open spec fn duplications(self) -> Set<int> {
        Set::new(|roll: int| 0 <= roll < CERTAIN && self.duplicates_on(roll))
    }

    /// The rolls out of `0..CERTAIN` on which a datagram is held back.
    pub open spec fn reorderings(self) -> Set<int> {
        Set::new(|roll: int| 0 <= roll < CERTAIN && self.reorders_on(roll))
    }

    /// Of the `CERTAIN` rolls, as many as the chance says duplicate and as
    /// many as the chance says reorder; as many as the loss chance says, and
    /// the roll of zero besides, do not arrive.
    pub proof fn lemma_shares(self)
        ensures
            self.duplications().finite(),
            self.duplications().len() == if self.dup_chance <= CERTAIN {
                self.dup_chance
            } else {
                CERTAIN
            },
            self.reorderings().finite(),
            self.reorderings().len() == if self.unorder_chance <= CERTAIN {
                self.unorder_chance
            } else {
                CERTAIN
            },
            self.arrivals().finite(),
            self.arrivals().len() == if self.loss_chance < CERTAIN {
                CERTAIN - 1 - self.loss_chance
            } else {
                0
            },
    {
        let dup: int = if self.dup_chance <= CERTAIN {
            self.dup_chance as int
        } else {
            CERTAIN as int
        };
        let unorder: int = if self.unorder_chance <= CERTAIN {
            self.unorder_chance as int
        } else {
            CERTAIN as int
        };
        let loss: int = if self.loss_chance < CERTAIN {
            self.loss_chance + 1
        } else {
            CERTAIN as int
        };
        vstd::set_lib::lemma_int_range(0, dup);
        vstd::set_lib::lemma_int_range(0, unorder);
        vstd::set_lib::lemma_int_range(loss, CERTAIN as int);
        assert(self.duplications() =~= vstd::set_lib::set_int_range(0, dup));
        assert(self.reorderings() =~= vstd::set_lib::set_int_range(0, unorder));
        assert(self.arrivals() =~= vstd::set_lib::set_int_range(loss, CERTAIN as int));
    }

    /// What the profile can draw for a datagram seen at `now`. The times lie
    /// within the delays of the profile; a chance of zero never strikes and a
    /// chance of `CERTAIN` always; what is not drawn is not bound: nothing but
    /// the time for a datagram that is lost, whether to hold it back only
    /// where the slot is empty, the further delay only where it is not.
    pub open spec fn may_draw(self, now: nat, slot_empty: bool, draw: Draw) -> bool {
        &&& now + self.min_delay() <= draw.sent_date <= now + self.max_delay()
        &&& self.loss_chance >= CERTAIN - 1 ==> !draw.arrived
        &&& draw.arrived ==> {
            &&& self.dup_chance == 0 ==> draw.duplicate is None
            &&& self.dup_chance >= CERTAIN ==> draw.duplicate is Some
            &&& draw.duplicate matches Some(t) ==> now + self.min_delay() <= t <= now
                + self.max_delay()
            &&& slot_empty && self.unorder_chance == 0 ==> !draw.reordered
            &&& slot_empty && self.unorder_chance >= CERTAIN ==> draw.reordered
            &&& !slot_empty ==> self.min_delay() <= draw.extra_delay <= self.max_delay()
        }
    }

    /// Whether a profile can hold the timing.
    pub fn timing_is_valid(lag: u128, jitter: i128) -> (valid: bool)
        ensures
            valid == Self::valid_timing(lag, jitter),
    {
        let most: u128 = (i128::MAX as u128) / NANOS_PER_MILLI;
        jitter >= 0 && lag <= most && jitter as u128 <= most - lag
    }

    pub fn new(
        lag: u128,
        jitter: i128,
        dup_chance: u32,
        unorder_chance: u32,
        loss_chance: u32,
    ) -> (conditions: Conditions)
        requires
            Self::valid_timing(lag, jitter),
        ensures
            conditions.wf(),
            conditions.lag == lag,
            conditions.jitter == jitter,
            conditions.dup_chance == dup_chance,
            conditions.unorder_chance == unorder_chance,
            conditions.loss_chance == loss_chance,
    {
        Conditions { lag, jitter, dup_chance, unorder_chance, loss_chance }
    }

    fn millis_to_nanos(millis: u128) -> (nanos: u128)
        requires
            millis * NANOS_PER_MILLI <= u128::MAX,
        ensures
            nanos == millis * NANOS_PER_MILLI,
    {
        millis * NANOS_PER_MILLI
    }

    /// The longest delay that the profile can give, in nanoseconds.
    pub fn longest_delay(self) -> (delay: u128)
        requires
            self.wf(),
        ensures
            delay == self.max_delay(),
    {
        Self::millis_to_nanos(self.lag) + Self::millis_to_nanos(self.jitter as u128)
    }

    /// The delay for a given deviation of the jitter, in nanoseconds.
    pub fn delay_with(self, deviation: i128) -> (delay: u128)
        requires
            self.wf(),
            -self.jitter_nanos() <= deviation <= self.jitter_nanos(),
        ensures
            delay == self.delay_at(deviation as int),
    {
        let network_delay: u128 = Self::millis_to_nanos(self.lag);
        let sum: i128 = network_delay as i128 + deviation;
        if sum >= 0 {
            sum as u128
        } else {
            0
        }
    }

    /// A delay drawn from the profile: the lag and a deviation drawn evenly
    /// from the jitter on either side, never below zero.
    pub fn gen_delay(self, rng: &mut ThreadRng) -> (delay: u128)
        requires
            self.wf(),
        ensures
            self.min_delay() <= delay <= self.max_delay(),
    {
        let bound: i128 = self.jitter * (NANOS_PER_MILLI as i128);
        let deviation: i128 = sample(rng, -bound, bound);
        self.delay_with(deviation)
    }

    /// The time at which a datagram seen at `now` is due, for a given
    /// deviation of the jitter.
    pub fn sent_date_with(self, now: u128, deviation: i128) -> (sent_date: u128)
        requires
            self.wf(),
            -self.jitter_nanos() <= deviation <= self.jitter_nanos(),
            now + self.max_delay() <= u128::MAX,
        ensures
            sent_date == now + self.delay_at(deviation as int),
    {
        now + self.delay_with(deviation)
    }

    /// The time at which a datagram seen at `now` is due: `now` and a delay
    /// drawn from the profile.
    pub fn gen_sent_date(self, now: u128, rng: &mut ThreadRng) -> (sent_date: u128)
        requires
            self.wf(),
            now + self.max_delay() <= u128::MAX,
        ensures
            now + self.min_delay() <= sent_date <= now + self.max_delay(),
    {
        let delay: u128 = self.gen_delay(rng);
        now + delay
    }

    /// Draws for one datagram seen at `now`, in this order: its time; whether
    /// it arrives; if so, whether it is sent twice, and then the time of the
    /// copy; then, where the slot of its destination is empty, whether it is
    /// held back, and where the slot is taken, a further delay.
    pub fn draw(self, now: u128, slot_empty: bool, rng: &mut ThreadRng) -> (draw: Draw)
        requires
            self.wf(),
            now + self.max_delay() <= u128::MAX,
        ensures
            self.may_draw(now as nat, slot_empty, draw),
    {
        let sent_date: u128 = self.gen_sent_date(now, rng);
        let mut draw = Draw {
            sent_date,
            arrived: false,
            duplicate: None,
            reordered: false,
            extra_delay: 0,
        };
        if self.arrived(rng) {
            draw.arrived = true;
            if self.duplicated(rng) {
                draw.duplicate = Some(self.gen_sent_date(now, rng));
            }
            if slot_empty {
                draw.reordered = self.unordered(rng);
            } else {
                draw.extra_delay = self.gen_delay(rng);
            }
        }
        draw
    }

    /// Whether a datagram arrives on the given roll.
    pub fn arrived_with(self, roll: u32) -> (arrived: bool)
        ensures
            arrived == self.arrives_on(roll as int),
    {
        roll > self.loss_chance
    }

    /// Whether a datagram is sent twice on the given roll.
    pub fn duplicated_with(self, roll: u32) -> (duplicated: bool)
        ensures
            duplicated == self.duplicates_on(roll as int),
    {
        roll < self.dup_chance
    }

    /// Whether a datagram is held back on the given roll.
    pub fn unordered_with(self, roll: u32) -> (unordered: bool)
        ensures
            unordered == self.reorders_on(roll as int),
    {
        roll < self.unorder_chance
    }

    /// One roll, drawn evenly out of `0..CERTAIN`.
    fn roll(rng: &mut ThreadRng) -> (roll: u32)
        ensures
            roll < CERTAIN,
    {
        let value: i128 = sample(rng, 0, (CERTAIN - 1) as i128);
        value as u32
    }

    /// Rolls for arrival: the datagram arrives where the roll is above the
    /// loss chance. So a loss chance of `CERTAIN` loses every datagram, and a
    /// loss chance of zero still loses the one roll of zero.
    pub fn arrived(self, rng: &mut ThreadRng) -> (arrived: bool)
        ensures
            self.loss_chance >= CERTAIN - 1 ==> !arrived,
    {
        let roll: u32 = Self::roll(rng);
        self.arrived_with(roll)
    }

    /// Rolls for duplication: never at a chance of zero, always at `CERTAIN`.
    pub fn duplicated(self, rng: &mut ThreadRng) -> (duplicated: bool)
        ensures
            self.dup_chance == 0 ==> !duplicated,
            self.dup_chance >= CERTAIN ==> duplicated,
    {
        let roll: u32 = Self::roll(rng);
        self.duplicated_with(roll)
    }

    /// Rolls for reordering: never at a chance of zero, always at `CERTAIN`.
    pub fn unordered(self, rng: &mut ThreadRng) -> (unordered: bool)
        ensures
            self.unorder_chance == 0 ==> !unordered,
            self.unorder_chance >= CERTAIN ==> unordered,
    {
        let roll: u32 = Self::roll(rng);
        self.unordered_with(roll)
    }
}

} // verus!
