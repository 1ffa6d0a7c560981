use wav_splitter::ChunkInfo;
use wav_splitter::FormatParams;
use wav_splitter::build_packet_times;
use wav_splitter::chunk_file_bytes;
use wav_splitter::chunk_payload_size;
use wav_splitter::output_filename;
use wav_splitter::plan_chunks;
use wav_splitter::resolve_format;
use wav_splitter::write_wav_header;

fn cd_stereo() -> FormatParams {
    FormatParams { sample_rate: 44100, channels: 2, bits_per_sample: 16, bytes_per_sample: 2 }
}

#[test]
fn header_bytes_are_exact() {
    let mut out: Vec<u8> = Vec::new();
    write_wav_header(&mut out, 8, &cd_stereo());
    let expected: Vec<u8> = vec![
        0x52, 0x49, 0x46, 0x46, // "RIFF"
        0x2c, 0x00, 0x00, 0x00, // chunk size 36 + 8 = 44
        0x57, 0x41, 0x56, 0x45, // "WAVE"
        0x66, 0x6d, 0x74, 0x20, // "fmt "
        0x10, 0x00, 0x00, 0x00, // subchunk 1 size 16
        0x01, 0x00, // PCM format tag
        0x02, 0x00, // 2 channels
        0x44, 0xac, 0x00, 0x00, // sample rate 44100
        0x10, 0xb1, 0x02, 0x00, // byte rate 176400
        0x04, 0x00, // block align 4
        0x10, 0x00, // 16 bits per sample
        0x64, 0x61, 0x74, 0x61, // "data"
        0x08, 0x00, 0x00, 0x00, // subchunk 2 size 8
    ];
    assert_eq!(out, expected);
}

#[test]
fn header_is_appended_after_existing_bytes() {
    let mut out: Vec<u8> = vec![0xff, 0xfe];
    write_wav_header(&mut out, 0, &cd_stereo());
    assert_eq!(out.len(), 46);
    assert_eq!(&out[..2], &[0xff, 0xfe]);
    assert_eq!(&out[2..6], b"RIFF");
}

#[test]
fn default_format_parameters() {
    // Absent codec metadata falls back to 44100 Hz, stereo, 16 bits.
    let fmt = resolve_format(None, None, None);
    assert_eq!(fmt.sample_rate, 44100);
    assert_eq!(fmt.channels, 2);
    assert_eq!(fmt.bits_per_sample, 16);
    assert_eq!(fmt.bytes_per_sample, 2);
}

#[test]
fn present_format_parameters_pass_through() {
    let fmt = resolve_format(Some(48000), Some(1), Some(24));
    assert_eq!(fmt.sample_rate, 48000);
    assert_eq!(fmt.channels, 1);
    assert_eq!(fmt.bits_per_sample, 24);
    assert_eq!(fmt.bytes_per_sample, 3);
}

#[test]
fn payload_size_sums_packet_lengths() {
    let packets: Vec<Vec<u8>> = vec![vec![1, 2], vec![3], vec![4, 5, 6]];
    assert_eq!(chunk_payload_size(&packets, 0, 3), 6);
    assert_eq!(chunk_payload_size(&packets, 1, 3), 4);
    assert_eq!(chunk_payload_size(&packets, 2, 2), 0);
}

#[test]
fn chunk_file_holds_header_then_payload() {
    let packets: Vec<Vec<u8>> = vec![vec![1, 2], vec![3], vec![4, 5, 6]];
    let chunk = ChunkInfo { start_time: 0, end_time: 2, start_packet: 0, end_packet: 2 };
    let file = chunk_file_bytes(&packets, &chunk, &cd_stereo());
    assert_eq!(file.len(), 44 + 3);
    // Subchunk2Size equals the exact payload length that follows it.
    assert_eq!(&file[40..44], &3u32.to_le_bytes());
    // ChunkSize equals 36 + Subchunk2Size.
    assert_eq!(&file[4..8], &39u32.to_le_bytes());
    assert_eq!(&file[44..], &[1, 2, 3]);
}

#[test]
fn concatenated_chunk_payloads_reproduce_the_stream() {
    // Split a stream of distinct bytes and reassemble the payload sections
    // of all output files: the original byte stream comes back exactly.
    let packets: Vec<Vec<u8>> = (0u8..20).map(|b| vec![b, b, b]).collect();
    let durations = vec![250_000_000u64; 20];
    let times = build_packet_times(&durations).unwrap();
    let plan = plan_chunks(&times, 1_000_000_000);
    assert!(plan.len() > 1);

    let fmt = cd_stereo();
    let mut reassembled: Vec<u8> = Vec::new();
    for chunk in &plan {
        let file = chunk_file_bytes(&packets, chunk, &fmt);
        assert_eq!(&file[40..44], &((file.len() as u32 - 44).to_le_bytes()));
        reassembled.extend_from_slice(&file[44..]);
    }
    let original: Vec<u8> = packets.concat();
    assert_eq!(reassembled, original);
}

#[test]
fn splitting_twice_gives_identical_files() {
    let packets: Vec<Vec<u8>> = (0u8..9).map(|b| vec![b; usize::from(b) + 1]).collect();
    let durations = vec![400_000_000u64; 9];
    let fmt = resolve_format(Some(8000), Some(1), Some(8));

    let mut runs: Vec<Vec<Vec<u8>>> = Vec::new();
    for _ in 0..2 {
        let times = build_packet_times(&durations).unwrap();
        let plan = plan_chunks(&times, 1_000_000_000);
        let files: Vec<Vec<u8>> =
            plan.iter().map(|c| chunk_file_bytes(&packets, c, &fmt)).collect();
        runs.push(files);
    }
    assert_eq!(runs[0], runs[1]);
}

#[test]
fn output_filenames_are_numbered_and_padded() {
    assert_eq!(output_filename("track", 0), "track_001.wav");
    assert_eq!(output_filename("track", 8), "track_009.wav");
    assert_eq!(output_filename("track", 9), "track_010.wav");
    assert_eq!(output_filename("track", 98), "track_099.wav");
    assert_eq!(output_filename("track", 99), "track_100.wav");
    assert_eq!(output_filename("track", 999), "track_1000.wav");
    assert_eq!(output_filename("audio_part", 41), "audio_part_042.wav");
}
