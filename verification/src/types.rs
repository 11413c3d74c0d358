//! Readings, sensor categories and the rule for merging two readings.

use vstd::prelude::*;

verus! {

/// A value that can absorb an older value of the same kind.
pub trait Mergeable: Sized {
    /// Whether `self` (the older) and `other` (the newer) may be merged.
    spec fn mergeable_with(&self, other: &Self) -> bool;

    /// The value that merging `self` (older) with `other` (newer) yields.
    spec fn merged_with(&self, other: &Self) -> Self;

    fn merge(&self, other: &Self) -> (merged: Self)
        requires
            self.mergeable_with(other),
        ensures
            merged == self.merged_with(other),
    ;
}

/// A value that carries a sequence number which its owner may assign.
pub trait Sequenced: Sized {
    /// `self` with its sequence number replaced and nothing else changed.
    spec fn with_sequence_number(&self, sequence_number: u64) -> Self;

    fn set_sequence_number(&mut self, new_sequence_number: u64)
        ensures
            *final(self) == old(self).with_sequence_number(new_sequence_number),
    ;
}

/// The category of sensor that produced a reading; the key under which
/// readings are counted and merged.
#[derive(Clone, Copy, Debug, PartialEq, Eq, Hash, Structural)]
pub enum SensorType {
    Temperature,
    Humidity,
    CO2,
}

/// One reading: a value of one sensor type, taken at `timestamp`
/// (microseconds since the Unix epoch), standing for `sample_count` raw
/// samples.
#[derive(Clone, Copy, Debug, PartialEq, Eq, Structural)]
pub struct SensorMessage {
    pub sequence_number: u64,
    pub timestamp: u64,
    pub content: i64,
    pub sensor_type: SensorType,
    pub sample_count: u32,
}

/// The server's answer to a complete set of readings.
#[derive(Clone, Copy, Debug, PartialEq, Eq, Structural)]
pub struct AirQualityMessage {
    pub sequence_number: u64,
    pub timestamp: u64,
    pub content: i64,
}

/// `n / d` rounded toward zero, for a positive divisor.
pub open spec fn truncating_quotient(n: int, d: int) -> int
    recommends
        d > 0,
{
    if n >= 0 {
        n / d
    } else {
        -((-n) / d)
    }
}

/// The mean of two values weighted by their sample counts, rounded toward
/// zero.
pub open spec fn weighted_mean(a: int, a_count: int, b: int, b_count: int) -> int
    recommends
        a_count + b_count > 0,
{
    truncating_quotient(a * a_count + b * b_count, a_count + b_count)
}

pub open spec fn min_int(a: int, b: int) -> int {
    if a <= b {
        a
    } else {
        b
    }
}

pub open spec fn max_int(a: int, b: int) -> int {
    if a <= b {
        b
    } else {
        a
    }
}

proof fn lemma_floor_quotient_between(n: int, d: int, lo: int, hi: int)
    requires
        d > 0,
        lo * d <= n,
        n <= hi * d,
    ensures
        lo <= n / d <= hi,
{
    assert(lo <= n / d) by (nonlinear_arith)
        requires
            d > 0,
            lo * d <= n,
    ;
    assert(n / d <= hi) by (nonlinear_arith)
        requires
            d > 0,
            n <= hi * d,
    ;
}

proof fn lemma_weighted_sum_between(a: int, a_count: int, b: int, b_count: int)
    requires
        a_count >= 0,
        b_count >= 0,
    ensures
        min_int(a, b) * (a_count + b_count) <= a * a_count + b * b_count,
        a * a_count + b * b_count <= max_int(a, b) * (a_count + b_count),
{
    let lo = min_int(a, b);
    let hi = max_int(a, b);
    assert(lo * (a_count + b_count) == lo * a_count + lo * b_count) by (nonlinear_arith);
    assert(hi * (a_count + b_count) == hi * a_count + hi * b_count) by (nonlinear_arith);
    assert(lo * a_count <= a * a_count) by (nonlinear_arith)
        requires
            lo <= a,
            a_count >= 0,
    ;
    assert(lo * b_count <= b * b_count) by (nonlinear_arith)
        requires
            lo <= b,
            b_count >= 0,
    ;
    assert(a * a_count <= hi * a_count) by (nonlinear_arith)
        requires
            a <= hi,
            a_count >= 0,
    ;
    assert(b * b_count <= hi * b_count) by (nonlinear_arith)
        requires
            b <= hi,
            b_count >= 0,
    ;
}

/// A weighted mean of two values never leaves the interval they span,
/// whatever the (non-negative, not both zero) weights.
pub proof fn lemma_weighted_mean_between(a: int, a_count: int, b: int, b_count: int)
    requires
        a_count >= 0,
        b_count >= 0,
        a_count + b_count > 0,
    ensures
        min_int(a, b) <= weighted_mean(a, a_count, b, b_count) <= max_int(a, b),
{
    let n = a * a_count + b * b_count;
    let d = a_count + b_count;
    let lo = min_int(a, b);
    let hi = max_int(a, b);
    lemma_weighted_sum_between(a, a_count, b, b_count);
    if n >= 0 {
        lemma_floor_quotient_between(n, d, lo, hi);
    } else {
        assert((-hi) * d == -(hi * d)) by (nonlinear_arith);
        assert((-lo) * d == -(lo * d)) by (nonlinear_arith);
        lemma_floor_quotient_between(-n, d, -hi, -lo);
    }
}

impl AirQualityMessage {
    pub fn new(sequence_number: u64, content: i64, timestamp: u64) -> (message: AirQualityMessage)
        ensures
            message == (AirQualityMessage { sequence_number, timestamp, content }),
    {
        AirQualityMessage { sequence_number, content, timestamp }
    }
}

impl SensorMessage {
    /// A fresh reading stands for exactly one sample.
    pub fn new(sequence_number: u64, content: i64, timestamp: u64, sensor_type: SensorType) -> (message:
        SensorMessage)
        ensures
            message == (SensorMessage {
                sequence_number,
                timestamp,
                content,
                sensor_type,
                sample_count: 1,
            }),
            message.wf(),
    {
        SensorMessage { sequence_number, content, timestamp, sensor_type, sample_count: 1 }
    }

    /// A reading stands for at least one sample.
    pub open spec fn wf(&self) -> bool {
        self.sample_count >= 1
    }
}

impl Mergeable for SensorMessage {
    open spec fn mergeable_with(&self, other: &Self) -> bool {
        &&& self.wf()
        &&& other.wf()
        &&& self.sensor_type == other.sensor_type
        &&& self.sample_count + other.sample_count <= u32::MAX
    }

    open spec fn merged_with(&self, other: &Self) -> Self {
        SensorMessage {
            sequence_number: other.sequence_number,
            timestamp: other.timestamp,
            content: weighted_mean(
                self.content as int,
                self.sample_count as int,
                other.content as int,
                other.sample_count as int,
            ) as i64,
            sensor_type: self.sensor_type,
            sample_count: (self.sample_count + other.sample_count) as u32,
        }
    }

    /// Folds `self`, the older reading, into `other`, the newer one: the
    /// result keeps the newer identity, carries both sample counts and the
    /// weighted mean of both contents.
    fn merge(&self, other: &Self) -> (merged: Self)
        ensures
            merged.wf(),
            merged.sample_count == self.sample_count + other.sample_count,
            merged.content == weighted_mean(
                self.content as int,
                self.sample_count as int,
                other.content as int,
                other.sample_count as int,
            ),
            min_int(self.content as int, other.content as int) <= merged.content,
            merged.content <= max_int(self.content as int, other.content as int),
    {
        let a_count: i128 = self.sample_count as i128;
        let b_count: i128 = other.sample_count as i128;
        let a: i128 = self.content as i128;
        let b: i128 = other.content as i128;
        proof {
            lemma_weighted_mean_between(a as int, a_count as int, b as int, b_count as int);
            lemma_weighted_sum_between(a as int, a_count as int, b as int, b_count as int);
            assert(-0x8000_0000_0000_0000 * 0x1_0000_0000 <= a * a_count <= 0x8000_0000_0000_0000
                * 0x1_0000_0000) by (nonlinear_arith)
                requires
                    -0x8000_0000_0000_0000 <= a < 0x8000_0000_0000_0000,
                    0 <= a_count < 0x1_0000_0000,
            ;
            assert(-0x8000_0000_0000_0000 * 0x1_0000_0000 <= b * b_count <= 0x8000_0000_0000_0000
                * 0x1_0000_0000) by (nonlinear_arith)
                requires
                    -0x8000_0000_0000_0000 <= b < 0x8000_0000_0000_0000,
                    0 <= b_count < 0x1_0000_0000,
            ;
        }
        let total: i128 = a * a_count + b * b_count;
        let count: i128 = a_count + b_count;
        let mean: i128 = if total >= 0 {
            ((total as u128) / (count as u128)) as i128
        } else {
            -((((-total) as u128) / (count as u128)) as i128)
        };
        assert(mean == weighted_mean(a as int, a_count as int, b as int, b_count as int));
        SensorMessage {
            sequence_number: other.sequence_number,
            timestamp: other.timestamp,
            content: mean as i64,
            sensor_type: self.sensor_type,
            sample_count: self.sample_count + other.sample_count,
        }
    }
}

impl Sequenced for SensorMessage {
    open spec fn with_sequence_number(&self, sequence_number: u64) -> Self {
        SensorMessage { sequence_number, ..*self }
    }

    fn set_sequence_number(&mut self, new_sequence_number: u64) {
        self.sequence_number = new_sequence_number;
    }
}

/// Merging conserves samples and keeps the content between the two
/// contents merged.
pub proof fn lemma_merge_conserves_and_bounds(a: SensorMessage, b: SensorMessage)
    requires
        a.mergeable_with(&b),
    ensures
        a.merged_with(&b).sample_count == a.sample_count + b.sample_count,
        min_int(a.content as int, b.content as int) <= a.merged_with(&b).content,
        a.merged_with(&b).content <= max_int(a.content as int, b.content as int),
        a.merged_with(&b).sensor_type == a.sensor_type,
        a.merged_with(&b).sequence_number == b.sequence_number,
        a.merged_with(&b).timestamp == b.timestamp,
        a.merged_with(&b).wf(),
{
    lemma_weighted_mean_between(
        a.content as int,
        a.sample_count as int,
        b.content as int,
        b.sample_count as int,
    );
}

} // verus!
