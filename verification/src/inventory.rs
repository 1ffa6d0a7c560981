//! Packet inventory: exact integer conversion of packet durations and the
//! running cumulative end times of the packet stream.

use vstd::prelude::*;

use crate::SplitError;

verus! {

/// Sum of the first `k` packet durations, in nanoseconds.
pub open spec fn prefix_total(durations: Seq<u64>, k: int) -> int
    decreases k,
{
    if k <= 0 {
        0
    } else {
        prefix_total(durations, k - 1) + durations[k - 1]
    }
}

pub proof fn lemma_prefix_total_monotonic(durations: Seq<u64>, i: int, j: int)
    requires
        0 <= i <= j <= durations.len(),
    ensures
        prefix_total(durations, i) <= prefix_total(durations, j),
    decreases j - i,
{
    if i < j {
        lemma_prefix_total_monotonic(durations, i, j - 1);
    }
}

/// Duration of one packet in nanoseconds, computed exactly in integer
/// arithmetic from its frame count and the stream's rational time base:
/// `frames * numer / denom` seconds, rounded down to whole nanoseconds.
pub fn packet_duration_nanos(frames: u64, numer: u32, denom: u32) -> (nanos: u64)
    requires
        denom >= 1,
        frames * numer * 1_000_000_000 / (denom as int) <= u64::MAX,
    ensures
        nanos == frames * numer * 1_000_000_000 / (denom as int),
{
    proof {
        vstd::arithmetic::mul::lemma_mul_upper_bound(
            frames as int,
            u64::MAX as int,
            numer as int,
            u32::MAX as int,
        );
        vstd::arithmetic::mul::lemma_mul_upper_bound(
            frames as int * numer as int,
            u64::MAX as int * u32::MAX as int,
            1_000_000_000,
            1_000_000_000,
        );
    }
    let wide: u128 = frames as u128 * numer as u128 * 1_000_000_000;
    let nanos: u128 = wide / (denom as u128);
    nanos as u64
}

/// Build the packet inventory's cumulative end times: `times[i]` is the sum
/// of the durations of packets `0..=i`, so `times.last()` is the total
/// stream duration. A stream with zero packets is a terminal error, not an
/// empty success.
pub fn build_packet_times(durations: &Vec<u64>) -> (r: Result<Vec<u64>, SplitError>)
    requires
        prefix_total(durations@, durations@.len() as int) <= u64::MAX,
    ensures
        match r {
            Result::Ok(times) => {
                &&& durations@.len() >= 1
                &&& times@.len() == durations@.len()
                &&& forall|i: int|
                    0 <= i < times@.len() ==> #[trigger] times@[i] == prefix_total(
                        durations@,
                        i + 1,
                    )
                &&& crate::plan::times_wf(times@)
            },
            Result::Err(e) => {
                &&& e == SplitError::EmptyStream
                &&& durations@.len() == 0
            },
        },
{
    if durations.len() == 0 {
        return Result::Err(SplitError::EmptyStream);
    }
    let n = durations.len();
    let mut times: Vec<u64> = Vec::new();
    let mut total: u64 = 0;
    let mut i: usize = 0;
    while i < n
        invariant
            n == durations@.len(),
            prefix_total(durations@, n as int) <= u64::MAX,
            0 <= i <= n,
            total == prefix_total(durations@, i as int),
            times@.len() == i,
            forall|k: int|
                0 <= k < i ==> #[trigger] times@[k] == prefix_total(durations@, k + 1),
        decreases n - i,
    {
        proof {
            lemma_prefix_total_monotonic(durations@, i + 1, n as int);
        }
        total = total + durations[i];
        times.push(total);
        i = i + 1;
    }
    proof {
        assert forall|a: int, b: int| 0 <= a <= b < times@.len() implies times@[a]
            <= times@[b] by {
            lemma_prefix_total_monotonic(durations@, a + 1, b + 1);
        };
    }
    Result::Ok(times)
}

} // verus!
