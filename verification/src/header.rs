//! Format parameter resolution and byte-exact synthesis of the canonical
//! 44-byte PCM WAV header.

use vstd::prelude::*;

use vstd::bytes::lemma_auto_spec_u16_to_from_le_bytes;
use vstd::bytes::lemma_auto_spec_u32_to_from_le_bytes;
use vstd::bytes::spec_u16_to_le_bytes;
use vstd::bytes::spec_u32_to_le_bytes;
use vstd::bytes::u16_to_le_bytes;
use vstd::bytes::u32_to_le_bytes;

verus! {

/// Raw format parameters of the PCM stream, shared by every output chunk.
#[derive(Clone, Copy, Debug, PartialEq, Eq, Structural)]
pub struct FormatParams {
    /// Sample rate in Hz.
    pub sample_rate: u32,
    /// Number of interleaved channels.
    pub channels: u16,
    /// Bits per sample.
    pub bits_per_sample: u16,
    /// Bytes per sample, `bits_per_sample / 8`.
    pub bytes_per_sample: u16,
}

impl FormatParams {
    /// The derived header fields (byte rate and block align) fit their
    /// integer widths, so a header can be written without overflow.
    pub open spec fn fits_header(self) -> bool {
        &&& self.sample_rate * self.channels <= u32::MAX
        &&& self.sample_rate * self.channels * self.bytes_per_sample <= u32::MAX
        &&& self.channels * self.bytes_per_sample <= u16::MAX
    }

    /// Runtime check for `fits_header`, for callers outside verified code.
    pub fn check_fits_header(&self) -> (ok: bool)
        ensures
            ok == self.fits_header(),
    {
        proof {
            vstd::arithmetic::mul::lemma_mul_upper_bound(
                self.sample_rate as int,
                u32::MAX as int,
                self.channels as int,
                u16::MAX as int,
            );
            vstd::arithmetic::mul::lemma_mul_upper_bound(
                self.sample_rate as int * self.channels as int,
                u32::MAX as int * u16::MAX as int,
                self.bytes_per_sample as int,
                u16::MAX as int,
            );
            vstd::arithmetic::mul::lemma_mul_upper_bound(
                self.channels as int,
                u16::MAX as int,
                self.bytes_per_sample as int,
                u16::MAX as int,
            );
        }
        let rate2 = self.sample_rate as u64 * self.channels as u64;
        let rate3 = rate2 as u128 * self.bytes_per_sample as u128;
        let align = self.channels as u32 * self.bytes_per_sample as u32;
        rate2 <= u32::MAX as u64 && rate3 <= u32::MAX as u128 && align <= u16::MAX as u32
    }
}

/// Resolve the format parameters from the codec metadata the demuxer
/// supplies, applying the documented defaults for any absent field:
/// 44100 Hz, 2 channels (stereo), 16 bits per sample. Present values are
/// passed through uninterpreted; channel count and bit depth are narrowed
/// to 16 bits exactly as a plain integer cast would narrow them.
pub fn resolve_format(
    sample_rate: Option<u32>,
    channel_count: Option<usize>,
    bits_per_sample: Option<u32>,
) -> (fmt: FormatParams)
    ensures
        fmt.sample_rate == match sample_rate {
            Option::Some(r) => r,
            Option::None => 44100u32,
        },
        fmt.channels == match channel_count {
            Option::Some(c) => c as u16,
            Option::None => 2u16,
        },
        fmt.bits_per_sample == match bits_per_sample {
            Option::Some(b) => b as u16,
            Option::None => 16u16,
        },
        fmt.bytes_per_sample == fmt.bits_per_sample / 8,
{
    let sample_rate = match sample_rate {
        Option::Some(r) => r,
        Option::None => 44100,
    };
    let channels: u16 = match channel_count {
        Option::Some(c) => #[verifier::truncate] (c as u16),
        Option::None => 2,
    };
    let bits_per_sample: u16 = match bits_per_sample {
        Option::Some(b) => #[verifier::truncate] (b as u16),
        Option::None => 16,
    };
    let bytes_per_sample = bits_per_sample / 8;
    FormatParams { sample_rate, channels, bits_per_sample, bytes_per_sample }
}

/// The canonical 44-byte PCM WAV header for a payload of `data_size` bytes:
/// "RIFF", the chunk size `36 + data_size`, "WAVE", the "fmt " subchunk
/// (size 16, PCM format tag 1, channels, sample rate, byte rate, block
/// align, bits per sample), then "data" and the payload size. All integers
/// little-endian.
pub open spec fn spec_wav_header(data_size: u32, fmt: FormatParams) -> Seq<u8> {
    seq![0x52u8, 0x49u8, 0x46u8, 0x46u8]  // "RIFF"
     + spec_u32_to_le_bytes((data_size + 36) as u32) + seq![
        0x57u8,
        0x41u8,
        0x56u8,
        0x45u8,
    ]  // "WAVE"
     + seq![0x66u8, 0x6du8, 0x74u8, 0x20u8]  // "fmt "
     + spec_u32_to_le_bytes(16u32) + spec_u16_to_le_bytes(1u16) + spec_u16_to_le_bytes(
        fmt.channels,
    ) + spec_u32_to_le_bytes(fmt.sample_rate) + spec_u32_to_le_bytes(
        (fmt.sample_rate * fmt.channels * fmt.bytes_per_sample) as u32,
    ) + spec_u16_to_le_bytes((fmt.channels * fmt.bytes_per_sample) as u16) + spec_u16_to_le_bytes(
        fmt.bits_per_sample,
    ) + seq![0x64u8, 0x61u8, 0x74u8, 0x61u8]  // "data"
     + spec_u32_to_le_bytes(data_size)
}

/// Append the canonical 44-byte PCM WAV header for a chunk whose payload is
/// `data_size` bytes long.
pub fn write_wav_header(out: &mut Vec<u8>, data_size: u32, fmt: &FormatParams)
    requires
        data_size <= u32::MAX - 36,
        fmt.fits_header(),
    ensures
        final(out)@ == old(out)@ + spec_wav_header(data_size, *fmt),
{
    proof {
        lemma_auto_spec_u16_to_from_le_bytes();
        lemma_auto_spec_u32_to_from_le_bytes();
    }
    let byte_rate: u32 = fmt.sample_rate * (fmt.channels as u32) * (fmt.bytes_per_sample as u32);
    let block_align: u16 = fmt.channels * fmt.bytes_per_sample;
    let file_size: u32 = data_size + 36;

    // RIFF header
    out.push(0x52);
    out.push(0x49);
    out.push(0x46);
    out.push(0x46);
    push_u32_le(out, file_size);
    out.push(0x57);
    out.push(0x41);
    out.push(0x56);
    out.push(0x45);

    // fmt subchunk
    out.push(0x66);
    out.push(0x6d);
    out.push(0x74);
    out.push(0x20);
    push_u32_le(out, 16);
    push_u16_le(out, 1);
    push_u16_le(out, fmt.channels);
    push_u32_le(out, fmt.sample_rate);
    push_u32_le(out, byte_rate);
    push_u16_le(out, block_align);
    push_u16_le(out, fmt.bits_per_sample);

    // data subchunk
    out.push(0x64);
    out.push(0x61);
    out.push(0x74);
    out.push(0x61);
    push_u32_le(out, data_size);

    assert(out@ =~= old(out)@ + spec_wav_header(data_size, *fmt));
}

fn push_u16_le(out: &mut Vec<u8>, x: u16)
    ensures
        final(out)@ == old(out)@ + spec_u16_to_le_bytes(x),
{
    let mut bytes = u16_to_le_bytes(x);
    out.append(&mut bytes);
}

fn push_u32_le(out: &mut Vec<u8>, x: u32)
    ensures
        final(out)@ == old(out)@ + spec_u32_to_le_bytes(x),
{
    let mut bytes = u32_to_le_bytes(x);
    out.append(&mut bytes);
}

/// Byte exactness of the header: it is 44 bytes long, its last four bytes
/// (the `Subchunk2Size` field) are exactly the little-endian payload size,
/// and bytes 4 to 8 (the `ChunkSize` field) are exactly the little-endian
/// encoding of `36 + data_size`.
pub proof fn lemma_header_byte_exact(data_size: u32, fmt: FormatParams)
    requires
        data_size <= u32::MAX - 36,
    ensures
        spec_wav_header(data_size, fmt).len() == 44,
        spec_wav_header(data_size, fmt).subrange(40, 44) == spec_u32_to_le_bytes(data_size),
        spec_wav_header(data_size, fmt).subrange(4, 8) == spec_u32_to_le_bytes(
            (data_size + 36) as u32,
        ),
{
    lemma_auto_spec_u16_to_from_le_bytes();
    lemma_auto_spec_u32_to_from_le_bytes();
    let h = spec_wav_header(data_size, fmt);
    assert(h.len() == 44);
    assert(h.subrange(40, 44) =~= spec_u32_to_le_bytes(data_size));
    assert(h.subrange(4, 8) =~= spec_u32_to_le_bytes((data_size + 36) as u32));
}

} // verus!
