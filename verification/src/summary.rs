//! Figures for a status display: the mean frequency of the cores and how
//! warm a temperature is.

use vstd::prelude::*;

verus! {

/// The sum of the frequencies.
pub open spec fn total(freqs: Seq<u32>) -> nat
    decreases freqs.len(),
{
    if freqs.len() == 0 {
        0
    } else {
        total(freqs.drop_last()) + freqs.last() as nat
    }
}

/// The mean of the frequencies, rounded down; `None` where there is none.
pub open spec fn mean(freqs: Seq<u32>) -> Option<u32> {
    if freqs.len() == 0 {
        None
    } else {
        Some((total(freqs) / freqs.len()) as u32)
    }
}

/// The sum of frequencies is at most as many times the greatest number
/// that a frequency can be.
pub proof fn lemma_total_bound(freqs: Seq<u32>)
    ensures
        total(freqs) <= freqs.len() * u32::MAX,
    decreases freqs.len(),
{
    if freqs.len() > 0 {
        lemma_total_bound(freqs.drop_last());
        assert((freqs.len() - 1) * u32::MAX + u32::MAX == freqs.len() * u32::MAX)
            by (nonlinear_arith);
    }
}

/// The mean of the frequencies, rounded down; `None` where there is none.
/// No sum of frequencies is too large for it.
pub fn average_frequency(freqs: &Vec<u32>) -> (r: Option<u32>)
    ensures
        r == mean(freqs@),
{
    let n: usize = freqs.len();
    if n == 0 {
        return None;
    }
    let mut sum: u128 = 0;
    let mut i: usize = 0;
    while i < n
        invariant
            i <= n,
            n == freqs.len(),
            sum == total(freqs@.take(i as int)),
            sum <= i * u32::MAX,
        decreases n - i,
    {
        proof {
            assert(freqs@.take(i + 1).drop_last() =~= freqs@.take(i as int));
            assert(i * u32::MAX + u32::MAX == (i + 1) * u32::MAX) by (nonlinear_arith);
            assert(i * u32::MAX <= usize::MAX * u32::MAX) by (nonlinear_arith)
                requires
                    i <= usize::MAX,
            ;
        }
        sum = sum + freqs[i] as u128;
        i = i + 1;
    }
    proof {
        assert(freqs@.take(n as int) =~= freqs@);
        assert(sum / (n as u128) <= u32::MAX) by (nonlinear_arith)
            requires
                sum <= n * u32::MAX,
                n > 0,
        ;
    }
    Some((sum / n as u128) as u32)
}

/// How warm a processor is.
#[derive(Debug, Clone, Copy, PartialEq, Eq, Structural)]
pub enum TemperatureLevel {
    /// Below 60 degrees Celsius.
    Normal,
    /// From 60 and below 75 degrees.
    Warm,
    /// From 75 and below 85 degrees.
    Hot,
    /// From 85 degrees.
    Critical,
}

/// The level of a temperature in millidegrees Celsius.
pub open spec fn level_of(millidegrees: i32) -> TemperatureLevel {
    if millidegrees < 60_000 {
        TemperatureLevel::Normal
    } else if millidegrees < 75_000 {
        TemperatureLevel::Warm
    } else if millidegrees < 85_000 {
        TemperatureLevel::Hot
    } else {
        TemperatureLevel::Critical
    }
}

/// The level of a temperature in millidegrees Celsius.
pub fn temperature_level(millidegrees: i32) -> (r: TemperatureLevel)
    ensures
        r == level_of(millidegrees),
{
    if millidegrees < 60_000 {
        TemperatureLevel::Normal
    } else if millidegrees < 75_000 {
        TemperatureLevel::Warm
    } else if millidegrees < 85_000 {
        TemperatureLevel::Hot
    } else {
        TemperatureLevel::Critical
    }
}

/// A warmer temperature is never at a lower level.
pub proof fn lemma_level_is_monotone(cooler: i32, warmer: i32)
    requires
        cooler <= warmer,
    ensures
        level_rank(level_of(cooler)) <= level_rank(level_of(warmer)),
{
}

/// The place of a level among the levels, from the coolest.
pub open spec fn level_rank(level: TemperatureLevel) -> nat {
    match level {
        TemperatureLevel::Normal => 0,
        TemperatureLevel::Warm => 1,
        TemperatureLevel::Hot => 2,
        TemperatureLevel::Critical => 3,
    }
}

} // verus!
