//! Counters of the bytes that are transferred.

use vstd::prelude::*;

verus! {

/// Used for counting the running average of throughput rates.
///
/// This counts the total bytes transferred, as well as the current round's
/// tally. Then, at the end of each round, the caller is responsible for calling
/// [`Counter::reset`] which records the new running average and clears the
/// per round counter.
///
/// The tallied throughput rate is the 5 second weighed running average. It is
/// produced as follows:
///
/// avg = (avg * 4/5) + (this_round / 5)
///
/// This way a temporary deviation in one round does not punish the overall
/// download rate disproportionately. The average is a fraction, which the caller
/// keeps; the counter holds it rounded to the nearest integer.
#[derive(Clone, Copy, Debug, PartialEq, Eq, Structural)]
pub struct Counter {
    pub total: u64,
    pub round: u64,
    pub avg: u64,
    pub peak: u64,
}

impl Counter {
    /// Whether this many bytes can be recorded.
    pub open spec fn has_room(&self, bytes: int) -> bool {
        self.round <= self.total && self.total + bytes <= u64::MAX
    }

    /// The counter after some bytes were recorded.
    pub open spec fn plus(self, bytes: int) -> Counter {
        Counter {
            total: (self.total + bytes) as u64,
            round: (self.round + bytes) as u64,
            ..self
        }
    }

    /// The counter after the end of a round, with the new average. The peak is the
    /// highest average so far.
    pub open spec fn next_round(self, avg: u64) -> Counter {
        Counter {
            total: self.total,
            round: 0,
            avg,
            peak: if avg > self.peak {
                avg
            } else {
                self.peak
            },
        }
    }

    /// Records some bytes that were transferred.
    pub fn add(&mut self, bytes: u64)
        requires
            old(self).has_room(bytes as int),
        ensures
            *final(self) == old(self).plus(bytes as int),
            final(self).has_room(0),
    {
        self.total = self.total + bytes;
        self.round = self.round + bytes;
    }

    /// Finishes counting this round and records the new 5 second moving average,
    /// rounded to the nearest integer, and the highest average so far.
    ///
    /// # Important
    ///
    /// This assumes that this function is called once a second.
    pub fn reset(&mut self, avg: u64)
        ensures
            *final(self) == old(self).next_round(avg),
    {
        self.avg = avg;
        self.round = 0;
        if avg > self.peak {
            self.peak = avg;
        }
    }

    /// Returns the 5 second moving average, rounded to the nearest integer.
    pub fn avg(&self) -> (avg: u64)
        ensures
            avg == self.avg,
    {
        self.avg
    }

    /// Returns the highest average recorded so far, rounded to the nearest integer.
    pub fn peak(&self) -> (peak: u64)
        ensures
            peak == self.peak,
    {
        self.peak
    }

    /// Returns the total number recorded.
    pub fn total(&self) -> (total: u64)
        ensures
            total == self.total,
    {
        self.total
    }

    /// Returns the number recorded in the current round.
    pub fn round(&self) -> (round: u64)
        ensures
            round == self.round,
    {
        self.round
    }
}

impl Default for Counter {
    fn default() -> (counter: Self)
        ensures
            counter == (Counter { total: 0, round: 0, avg: 0, peak: 0 }),
    {
        Counter { total: 0, round: 0, avg: 0, peak: 0 }
    }
}

/// Recording bytes in two goes is recording their sum, and the end of a round does
/// not change the total.
pub proof fn law_counter_adds_up(counter: Counter, a: int, b: int, avg: u64)
    requires
        0 <= a,
        0 <= b,
        counter.has_room(a + b),
    ensures
        counter.plus(a).has_room(b),
        counter.plus(a).plus(b) == counter.plus(a + b),
        counter.next_round(avg).total == counter.total,
        counter.next_round(avg).has_room(a + b),
{
}

/// The peak never falls, and is never below an average that was recorded: it is the
/// highest of them.
pub proof fn law_peak_is_the_highest_average(counter: Counter, first: u64, second: u64)
    ensures
        ({
            let after = counter.next_round(first).next_round(second);
            &&& after.peak >= counter.peak
            &&& after.peak >= first
            &&& after.peak >= second
            &&& after.peak == counter.peak || after.peak == first || after.peak == second
        }),
{
}

/// Recorded bytes are in the total and in this round's tally, and do not change the
/// average. The end of a round only clears the tally and records the average.
pub proof fn law_bytes_are_tallied(counter: Counter, bytes: u64, avg: u64)
    requires
        counter.round <= counter.total,
        counter.total + bytes <= u64::MAX,
    ensures
        counter.has_room(bytes as int),
        counter.plus(bytes as int).total == counter.total + bytes,
        counter.plus(bytes as int).round == counter.round + bytes,
        counter.plus(bytes as int).avg == counter.avg,
        counter.plus(bytes as int).peak == counter.peak,
        counter.next_round(avg).total == counter.total,
        counter.next_round(avg).round == 0,
        counter.next_round(avg).avg == avg,
{
}

} // verus!
