//! Running averages.

use vstd::prelude::*;

use crate::time::Duration;

verus! {

/// This is an exponential moving average accumulator.
///
/// An algorithm is used that addresses the initial bias that occurs when all
/// values are initialized with zero or with the first sample (which would bias
/// the average toward the first value). This is achieved by initially giving
/// a low gain for the average and slowly increasing it until the inverted gain
/// is reached.
///
/// For example, the first sample should have a gain of 1 as the average has no
/// meaning.  When adding the second sample, the average has some meaning, but
/// since it only has one sample in it, the gain should be low. In the next
/// round however, the gain may be larger. This increase is repeated until
/// inverted gain is reached.  This way, even early samples have a reasonable
/// impact on the average, which is important in a torrent app.
#[derive(Debug)]
pub struct SlidingAvg {
    /// The current running average, effectively the mean.
    ///
    /// This is a fixed-point value, that is, the sample is multiplied by 64
    /// before adding it. When the mean is returned, 32 is added and the sum is
    /// divided back by 64, to eliminate integer truncation that would result in
    /// a bias.
    pub mean: u64,
    /// The average deviation.
    ///
    /// This is a fixed-point value, that is, the sample is multiplied by 64
    /// before adding it. When the mean is returned, 32 is added and the sum is
    /// divided back by 64, to eliminate integer truncation that would result in
    /// a bias.
    pub deviation: u64,
    /// The number of samples received, but no more than `inverted_gain`.
    pub sample_count: usize,
    /// This is the threshold used for determining how many initial samples to
    /// give a higher gain than the current average.
    pub inverted_gain: usize,
}

/// The average after it was moved towards the sample by the given share of the
/// distance between them, rounded towards the average.
pub open spec fn moved(avg: int, sample: int, share: int) -> int {
    if sample >= avg {
        avg + (sample - avg) / share
    } else {
        avg - (avg - sample) / share
    }
}

/// The distance between two values.
pub open spec fn distance(a: int, b: int) -> int {
    if a >= b {
        a - b
    } else {
        b - a
    }
}

/// The value that a fixed-point value stands for, rounded to the nearest integer.
pub open spec fn rounded(fixed: int) -> int {
    (fixed + 32) / 64
}

/// Moves the average towards the sample.
fn move_towards(avg: u64, sample: u64, share: u64) -> (r: u64)
    requires
        share > 0,
    ensures
        r == moved(avg as int, sample as int, share as int),
        avg <= sample ==> avg <= r <= sample,
        sample <= avg ==> sample <= r <= avg,
{
    proof {
        law_average_stays_between(avg as int, sample as int, share as int);
    }
    if sample >= avg {
        avg + (sample - avg) / share
    } else {
        avg - (avg - sample) / share
    }
}

/// The moved average lies between the average and the sample.
pub proof fn law_average_stays_between(avg: int, sample: int, share: int)
    requires
        share > 0,
    ensures
        avg <= sample ==> avg <= moved(avg, sample, share) <= sample,
        sample <= avg ==> sample <= moved(avg, sample, share) <= avg,
        share == 1 ==> moved(avg, sample, share) == sample,
{
    let d = distance(avg, sample);
    assert(0 <= d / share <= d) by (nonlinear_arith)
        requires
            d >= 0,
            share > 0,
    ;
}

impl SlidingAvg {
    /// Whether the values are in the range in which they are accumulated.
    pub open spec fn wf(&self) -> bool {
        &&& self.inverted_gain > 0
        &&& self.sample_count <= self.inverted_gain
        &&& self.mean <= u64::MAX - 63
        &&& self.deviation <= u64::MAX - 63
    }

    /// The number of samples after one more.
    pub open spec fn next_count(&self) -> int {
        if self.sample_count < self.inverted_gain {
            self.sample_count + 1
        } else {
            self.sample_count as int
        }
    }

    /// The mean after one more sample.
    pub open spec fn next_mean(&self, sample: u64) -> int {
        moved(self.mean as int, 64 * sample, self.next_count())
    }

    /// The deviation after one more sample. It is averaged over one sample less
    /// than the mean, as the first sample has nothing to deviate from.
    pub open spec fn next_deviation(&self, sample: u64) -> int {
        if self.next_count() > 1 {
            let deviation = if self.sample_count > 0 {
                distance(self.mean as int, 64 * sample)
            } else {
                0
            };
            moved(self.deviation as int, deviation, self.next_count() - 1)
        } else {
            self.deviation as int
        }
    }

    /// Creates an average of no samples.
    pub fn new(inverted_gain: usize) -> (avg: Self)
        ensures
            avg.mean == 0,
            avg.deviation == 0,
            avg.sample_count == 0,
            avg.inverted_gain == inverted_gain,
            inverted_gain > 0 ==> avg.wf(),
    {
        SlidingAvg { mean: 0, deviation: 0, sample_count: 0, inverted_gain }
    }

    /// Adds a sample to the average.
    pub fn update(&mut self, sample: u64)
        requires
            old(self).wf(),
            sample <= u64::MAX / 64,
        ensures
            final(self).wf(),
            final(self).mean == old(self).next_mean(sample),
            final(self).deviation == old(self).next_deviation(sample),
            final(self).sample_count == old(self).next_count(),
            final(self).inverted_gain == old(self).inverted_gain,
    {
        // see comment in `Self::mean`
        let sample: u64 = sample * 64;
        let deviation: u64 = if self.sample_count > 0 {
            if self.mean >= sample {
                self.mean - sample
            } else {
                sample - self.mean
            }
        } else {
            0
        };
        if self.sample_count < self.inverted_gain {
            self.sample_count = self.sample_count + 1;
        }
        self.mean = move_towards(self.mean, sample, self.sample_count as u64);
        if self.sample_count > 1 {
            self.deviation = move_towards(
                self.deviation,
                deviation,
                (self.sample_count - 1) as u64,
            );
        }
    }

    /// Returns the mean of the samples.
    pub fn mean(&self) -> (mean: u64)
        requires
            self.wf(),
        ensures
            mean == if self.sample_count == 0 {
                0
            } else {
                rounded(self.mean as int)
            },
    {
        if self.sample_count == 0 {
            0
        } else {
            (self.mean + 32) / 64
        }
    }

    /// Returns the average deviation of the samples from the mean.
    pub fn deviation(&self) -> (deviation: u64)
        requires
            self.wf(),
        ensures
            deviation == if self.sample_count == 0 {
                0
            } else {
                rounded(self.deviation as int)
            },
    {
        if self.sample_count == 0 {
            0
        } else {
            (self.deviation + 32) / 64
        }
    }
}

impl Default for SlidingAvg {
    /// Creates a sliding average with an inverted gain of 20.
    fn default() -> (avg: Self)
        ensures
            avg.wf(),
            avg.mean == 0,
            avg.deviation == 0,
            avg.sample_count == 0,
            avg.inverted_gain == 20,
    {
        SlidingAvg::new(20)
    }
}

/// The first sample alone makes up the average, which has no deviation yet.
pub proof fn law_first_sample_is_the_mean(avg: SlidingAvg, sample: u64)
    requires
        avg.wf(),
        avg.sample_count == 0,
    ensures
        rounded(avg.next_mean(sample)) == sample,
        avg.next_deviation(sample) == avg.deviation,
        avg.next_count() == 1,
{
    law_average_stays_between(avg.mean as int, 64 * sample, 1);
}

/// A sample that equals the mean leaves the mean where it is, and does not
/// increase the deviation.
pub proof fn law_steady_samples_keep_the_mean(avg: SlidingAvg, sample: u64)
    requires
        avg.wf(),
        avg.sample_count > 0,
        avg.mean == 64 * sample,
    ensures
        avg.next_mean(sample) == avg.mean,
        avg.next_deviation(sample) <= avg.deviation,
{
    law_average_stays_between(avg.mean as int, 64 * sample, avg.next_count());
    if avg.next_count() > 1 {
        law_average_stays_between(avg.deviation as int, 0, avg.next_count() - 1);
    }
}

/// Wraps a [`SlidingAvg`] instance and converts the statistics to [`Duration`]
/// units (keeping everything in the underlying layer as milliseconds).
#[derive(Debug)]
pub struct SlidingDurationAvg(pub SlidingAvg);

impl SlidingDurationAvg {
    /// Creates an average of no samples.
    pub fn new(inverted_gain: usize) -> (avg: Self)
        ensures
            avg.0.mean == 0,
            avg.0.deviation == 0,
            avg.0.sample_count == 0,
            avg.0.inverted_gain == inverted_gain,
            inverted_gain > 0 ==> avg.0.wf(),
    {
        SlidingDurationAvg(SlidingAvg::new(inverted_gain))
    }

    /// Adds a sample to the average.
    pub fn update(&mut self, sample: Duration)
        requires
            old(self).0.wf(),
            sample.nanos / 1_000_000 <= u64::MAX / 64,
        ensures
            final(self).0.wf(),
            final(self).0.mean == old(self).0.next_mean((sample.nanos / 1_000_000) as u64),
            final(self).0.deviation == old(self).0.next_deviation(
                (sample.nanos / 1_000_000) as u64,
            ),
            final(self).0.sample_count == old(self).0.next_count(),
            final(self).0.inverted_gain == old(self).0.inverted_gain,
    {
        let ms: u64 = sample.as_millis() as u64;
        self.0.update(ms);
    }

    /// Returns the mean of the samples.
    pub fn mean(&self) -> (mean: Duration)
        requires
            self.0.wf(),
        ensures
            mean.nanos == 1_000_000 * if self.0.sample_count == 0 {
                0
            } else {
                rounded(self.0.mean as int)
            },
    {
        let ms: u64 = self.0.mean();
        Duration::from_millis(ms)
    }

    /// Returns the average deviation of the samples from the mean.
    pub fn deviation(&self) -> (deviation: Duration)
        requires
            self.0.wf(),
        ensures
            deviation.nanos == 1_000_000 * if self.0.sample_count == 0 {
                0
            } else {
                rounded(self.0.deviation as int)
            },
    {
        let ms: u64 = self.0.deviation();
        Duration::from_millis(ms)
    }
}

impl Default for SlidingDurationAvg {
    /// Creates a sliding average with an inverted gain of 20.
    fn default() -> (avg: Self)
        ensures
            avg.0.wf(),
            avg.0.mean == 0,
            avg.0.deviation == 0,
            avg.0.sample_count == 0,
            avg.0.inverted_gain == 20,
    {
        SlidingDurationAvg(SlidingAvg::default())
    }
}

/// The average moves towards the sample by a share of the distance, rounded down: all
/// the way if the share is the whole, half of the way if it is a half, and so on.
pub proof fn law_average_moves_by_its_share(avg: int, sample: int, share: int)
    requires
        share > 0,
    ensures
        avg <= sample ==> share * (moved(avg, sample, share) - avg) <= sample - avg < share * (
        moved(avg, sample, share) - avg + 1),
        sample <= avg ==> share * (avg - moved(avg, sample, share)) <= avg - sample < share * (avg
            - moved(avg, sample, share) + 1),
{
    let d = distance(avg, sample);
    assert(share * (d / share) <= d < share * (d / share + 1)) by (nonlinear_arith)
        requires
            d >= 0,
            share > 0,
    ;
}

/// The n-th sample moves the mean by an n-th of the distance, until the number of
/// samples has reached the inverted gain. The deviation is moved likewise, towards the
/// distance of the sample from the mean, by one sample less.
pub proof fn law_early_samples_have_a_larger_gain(avg: SlidingAvg, sample: u64)
    requires
        avg.wf(),
    ensures
        avg.sample_count < avg.inverted_gain ==> avg.next_count() == avg.sample_count + 1,
        avg.sample_count == avg.inverted_gain ==> avg.next_count() == avg.inverted_gain,
        avg.next_mean(sample) == moved(avg.mean as int, 64 * sample, avg.next_count()),
        avg.sample_count == 0 ==> avg.next_mean(sample) == 64 * sample,
        avg.sample_count > 0 && avg.inverted_gain > 1 && avg.mean <= 64 * sample
            ==> avg.next_deviation(sample) == moved(
            avg.deviation as int,
            64 * sample - avg.mean,
            avg.next_count() - 1,
        ),
        avg.sample_count > 0 && avg.inverted_gain > 1 && avg.mean > 64 * sample
            ==> avg.next_deviation(sample) == moved(
            avg.deviation as int,
            avg.mean - 64 * sample,
            avg.next_count() - 1,
        ),
        avg.sample_count == 0 && avg.inverted_gain > 1 ==> avg.next_deviation(sample)
            == avg.deviation,
{
    law_average_stays_between(avg.mean as int, 64 * sample, avg.next_count());
}

/// The value that is shown is the nearest integer.
pub proof fn law_fixed_point_values_are_rounded(fixed: int)
    ensures
        64 * rounded(fixed) - 32 <= fixed < 64 * rounded(fixed) + 32,
{
}

} // verus!
