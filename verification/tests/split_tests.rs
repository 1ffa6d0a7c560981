use wav_splitter::ChunkInfo;
use wav_splitter::SplitError;
use wav_splitter::build_packet_times;
use wav_splitter::minutes_to_duration;
use wav_splitter::packet_duration_nanos;
use wav_splitter::plan_chunks;

fn plan_of(durations: &[u64], chunk_duration: u64) -> Vec<ChunkInfo> {
    let durations: Vec<u64> = durations.to_vec();
    let times = build_packet_times(&durations).unwrap();
    plan_chunks(&times, chunk_duration)
}

#[test]
fn hundred_packets_three_second_chunks() {
    // 100 packets of 0.1 s each (10 s total), 3 s chunks: four chunks, the
    // last one shorter.
    let durations = vec![100_000_000u64; 100];
    let times = build_packet_times(&durations).unwrap();
    assert_eq!(times.len(), 100);
    assert_eq!(*times.last().unwrap(), 10_000_000_000);

    let plan = plan_chunks(&times, 3_000_000_000);
    assert_eq!(plan.len(), 4);

    assert_eq!(plan[0].start_packet, 0);
    assert_eq!(plan[0].end_packet, 30);
    assert_eq!(plan[0].start_time, 0);
    assert_eq!(plan[0].end_time, 3_000_000_000);

    assert_eq!(plan[1].start_packet, 30);
    assert_eq!(plan[1].end_packet, 60);
    assert_eq!(plan[1].start_time, 3_000_000_000);
    assert_eq!(plan[1].end_time, 6_000_000_000);

    assert_eq!(plan[2].start_packet, 60);
    assert_eq!(plan[2].end_packet, 90);
    assert_eq!(plan[2].start_time, 6_000_000_000);
    assert_eq!(plan[2].end_time, 9_000_000_000);

    assert_eq!(plan[3].start_packet, 90);
    assert_eq!(plan[3].end_packet, 100);
    assert_eq!(plan[3].start_time, 9_000_000_000);
    assert_eq!(plan[3].end_time, 10_000_000_000);
}

#[test]
fn single_long_packet_cannot_be_split() {
    // One packet of 5 s, 1 s chunks: a packet is never split, so there is
    // exactly one chunk covering the full 5 s.
    let plan = plan_of(&[5_000_000_000], 1_000_000_000);
    assert_eq!(plan.len(), 1);
    assert_eq!(plan[0].start_packet, 0);
    assert_eq!(plan[0].end_packet, 1);
    assert_eq!(plan[0].start_time, 0);
    assert_eq!(plan[0].end_time, 5_000_000_000);
}

#[test]
fn chunk_duration_longer_than_stream() {
    // Requested chunk duration exceeds the whole stream: one chunk covering
    // the entire input.
    let plan = plan_of(&[1_000_000_000, 1_000_000_000], 10_000_000_000);
    assert_eq!(plan.len(), 1);
    assert_eq!(plan[0].start_packet, 0);
    assert_eq!(plan[0].end_packet, 2);
    assert_eq!(plan[0].start_time, 0);
    assert_eq!(plan[0].end_time, 2_000_000_000);
}

#[test]
fn chunk_duration_shorter_than_one_packet() {
    // Chunk duration shorter than every packet: each chunk is exactly one
    // packet long.
    let plan = plan_of(&[2_000_000_000, 2_000_000_000, 2_000_000_000], 1_000_000_000);
    assert_eq!(plan.len(), 3);
    for (i, c) in plan.iter().enumerate() {
        assert_eq!(c.start_packet, i);
        assert_eq!(c.end_packet, i + 1);
    }
    assert_eq!(plan[2].end_time, 6_000_000_000);
}

#[test]
fn zero_duration_packets_are_carried_along() {
    // Packets of zero duration keep the cumulative times merely
    // non-decreasing; they ride along in the chunk that reaches the target.
    let plan = plan_of(&[0, 0, 5_000_000_000], 1_000_000_000);
    assert_eq!(plan.len(), 1);
    assert_eq!(plan[0].start_packet, 0);
    assert_eq!(plan[0].end_packet, 3);
    assert_eq!(plan[0].end_time, 5_000_000_000);
}

#[test]
fn plan_covers_every_packet_exactly_once() {
    let durations = vec![
        70_000_000u64,
        130_000_000,
        450_000_000,
        20_000_000,
        990_000_000,
        330_000_000,
        10_000_000,
    ];
    let plan = plan_of(&durations, 500_000_000);
    assert_eq!(plan[0].start_packet, 0);
    for w in plan.windows(2) {
        assert_eq!(w[0].end_packet, w[1].start_packet);
        assert_eq!(w[0].end_time, w[1].start_time);
        assert!(w[0].start_time <= w[0].end_time);
    }
    for c in &plan {
        assert!(c.start_packet < c.end_packet);
    }
    assert_eq!(plan.last().unwrap().end_packet, durations.len());
    // Every chunk but the last lasts at least the requested duration.
    for c in &plan[..plan.len() - 1] {
        assert!(c.end_time - c.start_time >= 500_000_000);
    }
}

#[test]
fn planning_twice_gives_the_same_plan() {
    let durations = vec![300_000_000u64, 800_000_000, 100_000_000, 400_000_000];
    let first = plan_of(&durations, 600_000_000);
    let second = plan_of(&durations, 600_000_000);
    assert_eq!(first, second);
}

#[test]
fn empty_stream_is_an_error() {
    let durations: Vec<u64> = Vec::new();
    assert_eq!(build_packet_times(&durations), Err(SplitError::EmptyStream));
}

#[test]
fn cumulative_times_are_prefix_sums() {
    let durations = vec![5u64, 7, 0, 11];
    let times = build_packet_times(&durations).unwrap();
    assert_eq!(times, vec![5, 12, 12, 23]);
}

#[test]
fn packet_duration_from_time_base() {
    // 441 frames at time base 1/44100 is exactly 10 ms.
    assert_eq!(packet_duration_nanos(441, 1, 44100), 10_000_000);
    // Rounded down to whole nanoseconds.
    assert_eq!(packet_duration_nanos(1, 1, 3), 333_333_333);
    assert_eq!(packet_duration_nanos(0, 7, 13), 0);
}

#[test]
fn minutes_to_duration_in_nanoseconds() {
    assert_eq!(minutes_to_duration(0), 0);
    assert_eq!(minutes_to_duration(1), 60_000_000_000);
    assert_eq!(minutes_to_duration(10), 600_000_000_000);
}
