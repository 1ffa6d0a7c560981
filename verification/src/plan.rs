//! Chunk planning: partition the packet inventory into contiguous groups
//! whose cumulative duration reaches a requested chunk length.

use vstd::prelude::*;

verus! {

/// One planned output chunk: a contiguous half-open packet range
/// `[start_packet, end_packet)` together with its absolute start and end
/// times, in nanoseconds from the start of the stream.
#[derive(Clone, Copy, Debug, PartialEq, Eq, Structural)]
pub struct ChunkInfo {
    /// Start time of the chunk.
    pub start_time: u64,
    /// End time of the chunk.
    pub end_time: u64,
    /// Index of the first packet of the chunk.
    pub start_packet: usize,
    /// Index one past the last packet of the chunk.
    pub end_packet: usize,
}

/// The cumulative packet end times are non-decreasing.
pub open spec fn times_wf(times: Seq<u64>) -> bool {
    forall|i: int, j: int| 0 <= i <= j < times.len() ==> times[i] <= times[j]
}

/// The start time of a chunk is the cumulative end time of the packet just
/// before its range (or zero for the first packet).
pub open spec fn chunk_start_time_ok(c: ChunkInfo, times: Seq<u64>) -> bool {
    c.start_time == if c.start_packet == 0 {
        0u64
    } else {
        times[c.start_packet - 1]
    }
}

/// Well-formedness of one chunk of a plan over the cumulative end times
/// `times` and the requested chunk duration `d`:
/// - the packet range is non-empty and within bounds;
/// - start and end times are the cumulative times at the range borders;
/// - a chunk that does not exhaust the stream lasts at least `d`
///   (the boundary packet is included whole, never split);
/// - no earlier boundary inside the range had already reached the target,
///   so the range stops at the first packet that crosses it.
pub open spec fn chunk_wf(c: ChunkInfo, times: Seq<u64>, d: u64) -> bool {
    &&& c.start_packet < c.end_packet <= times.len()
    &&& chunk_start_time_ok(c, times)
    &&& c.end_time == times[c.end_packet - 1]
    &&& (c.end_packet < times.len() ==> c.start_time + d <= c.end_time)
    &&& (forall|j: int|
        c.start_packet < j < c.end_packet ==> #[trigger] times[j - 1] < c.start_time + d)
}

/// A valid chunk plan for cumulative end times `times` and requested chunk
/// duration `d`: the chunks are individually well formed, chain seamlessly
/// in packet index and in time, start at packet zero and time zero, and end
/// at the last packet. These clauses determine the plan uniquely
/// (`lemma_plan_unique`).
pub open spec fn is_valid_plan(plan: Seq<ChunkInfo>, times: Seq<u64>, d: u64) -> bool {
    &&& plan.len() >= 1
    &&& plan[0].start_packet == 0
    &&& plan[0].start_time == 0
    &&& plan.last().end_packet == times.len()
    &&& (forall|i: int| 0 <= i < plan.len() ==> chunk_wf(#[trigger] plan[i], times, d))
    &&& (forall|i: int|
        1 <= i < plan.len() ==> (#[trigger] plan[i].start_packet) == plan[i - 1].end_packet)
    &&& (forall|i: int|
        1 <= i < plan.len() ==> (#[trigger] plan[i].start_time) == plan[i - 1].end_time)
}

/// Greedy forward scan over the packet inventory: each chunk keeps
/// including packets until the accumulated duration reaches or exceeds the
/// target, so the packet that crosses the boundary belongs to the chunk.
/// The final chunk simply takes whatever packets remain.
pub fn plan_chunks(packet_times: &Vec<u64>, chunk_duration: u64) -> (plan: Vec<ChunkInfo>)
    requires
        packet_times@.len() >= 1,
        times_wf(packet_times@),
        chunk_duration >= 1,
        packet_times@.last() + chunk_duration <= u64::MAX,
    ensures
        is_valid_plan(plan@, packet_times@, chunk_duration),
{
    let n = packet_times.len();
    let mut plan: Vec<ChunkInfo> = Vec::new();
    let mut chunk_start_packet: usize = 0;
    let mut chunk_start_time: u64 = 0;

    while chunk_start_packet < n
        invariant
            n == packet_times@.len(),
            n >= 1,
            times_wf(packet_times@),
            chunk_duration >= 1,
            packet_times@.last() + chunk_duration <= u64::MAX,
            chunk_start_packet <= n,
            plan@.len() == 0 ==> chunk_start_packet == 0,
            plan@.len() > 0 ==> plan@[0].start_packet == 0 && plan@[0].start_time == 0,
            plan@.len() > 0 ==> chunk_start_packet == plan@.last().end_packet
                && chunk_start_time == plan@.last().end_time,
            chunk_start_time == if chunk_start_packet == 0 {
                0u64
            } else {
                packet_times@[chunk_start_packet - 1]
            },
            forall|i: int|
                0 <= i < plan@.len() ==> chunk_wf(#[trigger] plan@[i], packet_times@, chunk_duration),
            forall|i: int|
                1 <= i < plan@.len() ==> (#[trigger] plan@[i].start_packet)
                    == plan@[i - 1].end_packet,
            forall|i: int|
                1 <= i < plan@.len() ==> (#[trigger] plan@[i].start_time)
                    == plan@[i - 1].end_time,
        decreases n - chunk_start_packet,
    {
        // The accumulated duration of this chunk should reach this target.
        let target_end_time = chunk_start_time + chunk_duration;

        // Scan forward while the boundary before `chunk_end_packet` has not
        // yet reached the target, so the crossing packet is included whole.
        let mut chunk_end_packet = chunk_start_packet;
        while chunk_end_packet < n
            && (chunk_end_packet == chunk_start_packet
                || packet_times[chunk_end_packet - 1] < target_end_time)
            invariant
                n == packet_times@.len(),
                chunk_start_packet < n,
                chunk_start_packet <= chunk_end_packet <= n,
                forall|j: int|
                    chunk_start_packet < j < chunk_end_packet ==> #[trigger] packet_times@[j - 1]
                        < target_end_time,
            decreases n - chunk_end_packet,
        {
            chunk_end_packet = chunk_end_packet + 1;
        }

        // Guarantee progress: force-include one packet if none was added.
        if chunk_end_packet == chunk_start_packet {
            chunk_end_packet = chunk_start_packet + 1;
        }

        // The chunk ends at the cumulative end time of its last packet; when
        // packets ran out this is the total stream duration.
        let chunk_end_time = if chunk_end_packet < n {
            packet_times[chunk_end_packet - 1]
        } else {
            packet_times[n - 1]
        };

        plan.push(
            ChunkInfo {
                start_time: chunk_start_time,
                end_time: chunk_end_time,
                start_packet: chunk_start_packet,
                end_packet: chunk_end_packet,
            },
        );

        chunk_start_packet = chunk_end_packet;
        chunk_start_time = chunk_end_time;
    }

    plan
}

proof fn lemma_ranges_ordered(plan: Seq<ChunkInfo>, times: Seq<u64>, d: u64, i: int, j: int)
    requires
        is_valid_plan(plan, times, d),
        0 <= i < j < plan.len(),
    ensures
        plan[i].end_packet <= plan[j].start_packet,
    decreases j - i,
{
    if j == i + 1 {
    } else {
        lemma_ranges_ordered(plan, times, d, i, j - 1);
        assert(chunk_wf(plan[j - 1], times, d));
    }
}

/// Some chunk of the plan contains packet index `p` in its range.
pub open spec fn plan_covers(plan: Seq<ChunkInfo>, p: int) -> bool {
    exists|i: int|
        0 <= i < plan.len() && (#[trigger] plan[i].start_packet) <= p < plan[i].end_packet
}

/// Coverage: the chunk ranges are pairwise disjoint, and every packet index
/// lies in some chunk's range — together the ranges partition `[0, N)`
/// exactly, with no overlap and no gap.
pub proof fn lemma_plan_coverage(plan: Seq<ChunkInfo>, times: Seq<u64>, d: u64)
    requires
        is_valid_plan(plan, times, d),
    ensures
        forall|i: int, j: int|
            0 <= i < j < plan.len() ==> (#[trigger] plan[i].end_packet)
                <= #[trigger] plan[j].start_packet,
        forall|p: int| 0 <= p < times.len() ==> #[trigger] plan_covers(plan, p),
{
    assert forall|i: int, j: int| 0 <= i < j < plan.len() implies (#[trigger] plan[i].end_packet)
        <= #[trigger] plan[j].start_packet by {
        lemma_ranges_ordered(plan, times, d, i, j);
    };
    assert forall|p: int| 0 <= p < times.len() implies #[trigger] plan_covers(plan, p) by {
        assert(chunk_wf(plan.last(), times, d));
        lemma_some_chunk_covers(plan, times, d, p, plan.len() - 1);
    };
}

proof fn lemma_some_chunk_covers(plan: Seq<ChunkInfo>, times: Seq<u64>, d: u64, p: int, k: int)
    requires
        is_valid_plan(plan, times, d),
        0 <= k < plan.len(),
        0 <= p < plan[k].end_packet,
    ensures
        plan_covers(plan, p),
    decreases k,
{
    if plan[k].start_packet <= p {
        assert(0 <= k < plan.len() && plan[k].start_packet <= p < plan[k].end_packet);
    } else {
        assert(chunk_wf(plan[k], times, d));
        assert(k > 0);
        assert(plan[k].start_packet == plan[k - 1].end_packet);
        lemma_some_chunk_covers(plan, times, d, p, k - 1);
    }
}

proof fn lemma_times_chain(plan: Seq<ChunkInfo>, times: Seq<u64>, d: u64, i: int, j: int)
    requires
        is_valid_plan(plan, times, d),
        times_wf(times),
        0 <= i < j < plan.len(),
    ensures
        plan[i].end_time <= plan[j].start_time,
    decreases j - i,
{
    assert(chunk_wf(plan[j - 1], times, d));
    assert(chunk_wf(plan[j], times, d));
    if j == i + 1 {
    } else {
        lemma_times_chain(plan, times, d, i, j - 1);
        lemma_chunk_times_ordered(plan, times, d, j - 1);
    }
}

proof fn lemma_chunk_times_ordered(plan: Seq<ChunkInfo>, times: Seq<u64>, d: u64, i: int)
    requires
        is_valid_plan(plan, times, d),
        times_wf(times),
        0 <= i < plan.len(),
    ensures
        plan[i].start_time <= plan[i].end_time,
{
    assert(chunk_wf(plan[i], times, d));
    let c = plan[i];
    if c.start_packet > 0 {
        assert(times[c.start_packet - 1] <= times[c.end_packet - 1]);
    }
}

/// Ordering: within each chunk the start time does not exceed the end time,
/// consecutive chunks meet exactly (chunk `i`'s end time is chunk `i + 1`'s
/// start time), and times are non-decreasing across the whole plan.
pub proof fn lemma_plan_ordering(plan: Seq<ChunkInfo>, times: Seq<u64>, d: u64)
    requires
        is_valid_plan(plan, times, d),
        times_wf(times),
    ensures
        forall|i: int|
            0 <= i < plan.len() ==> (#[trigger] plan[i].start_time) <= plan[i].end_time,
        forall|i: int|
            1 <= i < plan.len() ==> (#[trigger] plan[i].start_time) == plan[i - 1].end_time,
        forall|i: int, j: int|
            0 <= i < j < plan.len() ==> (#[trigger] plan[i].end_time)
                <= #[trigger] plan[j].start_time,
{
    assert forall|i: int| 0 <= i < plan.len() implies (#[trigger] plan[i].start_time)
        <= plan[i].end_time by {
        lemma_chunk_times_ordered(plan, times, d, i);
    };
    assert forall|i: int, j: int| 0 <= i < j < plan.len() implies (#[trigger] plan[i].end_time)
        <= #[trigger] plan[j].start_time by {
        lemma_times_chain(plan, times, d, i, j);
    };
}

/// Minimum duration: every chunk but the last lasts at least the requested
/// chunk duration — the boundary never splits a packet, so the packet that
/// crosses the target is included whole.
pub proof fn lemma_plan_min_duration(plan: Seq<ChunkInfo>, times: Seq<u64>, d: u64)
    requires
        is_valid_plan(plan, times, d),
    ensures
        forall|i: int|
            0 <= i < plan.len() - 1 ==> (#[trigger] plan[i].start_time) + d <= plan[i].end_time,
{
    assert forall|i: int| 0 <= i < plan.len() - 1 implies (#[trigger] plan[i].start_time) + d
        <= plan[i].end_time by {
        assert(chunk_wf(plan[i], times, d));
        assert(chunk_wf(plan[i + 1], times, d));
        assert(plan[i].end_packet == plan[i + 1].start_packet);
        assert(plan[i].end_packet < times.len());
    };
}

proof fn lemma_chunks_eq(p1: Seq<ChunkInfo>, p2: Seq<ChunkInfo>, times: Seq<u64>, d: u64, k: int)
    requires
        is_valid_plan(p1, times, d),
        is_valid_plan(p2, times, d),
        0 <= k < p1.len(),
        k < p2.len(),
    ensures
        p1[k] == p2[k],
    decreases k,
{
    assert(chunk_wf(p1[k], times, d));
    assert(chunk_wf(p2[k], times, d));
    if k > 0 {
        lemma_chunks_eq(p1, p2, times, d, k - 1);
    }
    let c1 = p1[k];
    let c2 = p2[k];
    assert(c1.start_packet == c2.start_packet);
    assert(c1.start_time == c2.start_time);
    if c1.end_packet < c2.end_packet {
        assert(times[c1.end_packet - 1] < c2.start_time + d);
        assert(c1.end_packet < times.len());
    }
    if c2.end_packet < c1.end_packet {
        assert(times[c2.end_packet - 1] < c1.start_time + d);
        assert(c2.end_packet < times.len());
    }
    assert(c1.end_packet == c2.end_packet);
}

/// Determinism: the clauses of `is_valid_plan` leave no freedom — any two
/// valid plans for the same inventory and chunk duration are equal, so a
/// repeated run of the planner produces the same plan.
pub proof fn lemma_plan_unique(p1: Seq<ChunkInfo>, p2: Seq<ChunkInfo>, times: Seq<u64>, d: u64)
    requires
        is_valid_plan(p1, times, d),
        is_valid_plan(p2, times, d),
    ensures
        p1 == p2,
{
    if p1.len() < p2.len() {
        lemma_chunks_eq(p1, p2, times, d, p1.len() - 1);
        assert(chunk_wf(p2[p1.len() - 1], times, d));
        assert(chunk_wf(p2[p1.len() as int], times, d));
        assert(p2[p1.len() as int].start_packet == p2[p1.len() - 1].end_packet);
        assert(false);
    }
    if p2.len() < p1.len() {
        lemma_chunks_eq(p2, p1, times, d, p2.len() - 1);
        assert(chunk_wf(p1[p2.len() - 1], times, d));
        assert(chunk_wf(p1[p2.len() as int], times, d));
        assert(p1[p2.len() as int].start_packet == p1[p2.len() - 1].end_packet);
        assert(false);
    }
    assert forall|k: int| 0 <= k < p1.len() implies p1[k] == p2[k] by {
        lemma_chunks_eq(p1, p2, times, d, k);
    };
    assert(p1 =~= p2);
}

} // verus!
