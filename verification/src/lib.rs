//! Split a PCM WAV stream into a sequence of smaller, independently playable
//! WAV files, without re-encoding or losing audio data.
//!
//! The library holds the deterministic core of the splitter: building the
//! packet inventory (cumulative end times), planning chunk boundaries,
//! resolving format parameters, and synthesizing byte-exact WAV headers.
//! Reading the source container and writing the output files is left to the
//! surrounding program, which hands this library plain values.
//!
//! All times are measured in integer nanoseconds from the start of the
//! stream, so that duration accumulation is exact.

mod header;
mod inventory;
mod output;
mod plan;

pub use header::FormatParams;
pub use header::lemma_header_byte_exact;
pub use header::resolve_format;
pub use header::spec_wav_header;
pub use header::write_wav_header;
pub use inventory::build_packet_times;
pub use inventory::lemma_prefix_total_monotonic;
pub use inventory::packet_duration_nanos;
pub use inventory::prefix_total;
pub use output::chunk_file_bytes;
pub use output::chunk_payload_size;
pub use output::lemma_concat_range_split;
pub use output::lemma_file_byte_exact;
pub use output::lemma_round_trip;
pub use output::output_filename;
pub use output::payload_views;
pub use output::spec_concat_range;
pub use output::spec_decimal;
pub use output::spec_digit_char;
pub use output::spec_output_filename;
pub use output::spec_padded3;
pub use output::spec_plan_payload;
pub use plan::ChunkInfo;
pub use plan::chunk_start_time_ok;
pub use plan::chunk_wf;
pub use plan::is_valid_plan;
pub use plan::lemma_plan_coverage;
pub use plan::lemma_plan_min_duration;
pub use plan::lemma_plan_ordering;
pub use plan::lemma_plan_unique;
pub use plan::plan_chunks;
pub use plan::plan_covers;
pub use plan::times_wf;

use vstd::prelude::*;

verus! {

/// Configuration for one splitting operation.
pub struct SplitOptions {
    /// Path to the input WAV file.
    pub input_path: String,
    /// Desired duration for each chunk, in nanoseconds.
    pub chunk_duration: u64,
    /// Directory where output files will be saved.
    pub output_dir: String,
    /// Prefix for output filenames.
    pub prefix: String,
}

/// Result of a completed splitting operation.
pub struct SplitResult {
    /// Total number of chunks created.
    pub chunk_count: usize,
    /// Total duration of the input stream, in nanoseconds.
    pub total_duration: u64,
    /// Names of the generated output files, in chunk order.
    pub output_files: Vec<String>,
}

/// Errors of the splitting core itself (I/O failures belong to the caller).
#[derive(Clone, Copy, Debug, PartialEq, Eq, Structural)]
pub enum SplitError {
    /// The input stream produced zero packets.
    EmptyStream,
}

/// Convert whole minutes to nanoseconds.
pub fn minutes_to_duration(minutes: u64) -> (nanos: u64)
    requires
        minutes * 60_000_000_000 <= u64::MAX,
    ensures
        nanos == minutes * 60_000_000_000,
{
    minutes * 60_000_000_000
}

} // verus!
