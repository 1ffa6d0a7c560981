//! Output synthesis: the exact bytes of each output WAV file (header plus
//! concatenated packet payloads) and the output file naming scheme.

use vstd::prelude::*;

use crate::header::FormatParams;
use crate::header::lemma_header_byte_exact;
use crate::header::spec_wav_header;
use crate::header::write_wav_header;
use crate::plan::ChunkInfo;
use crate::plan::is_valid_plan;

verus! {

/// The payload byte sequences of the packets, one per packet.
pub open spec fn payload_views(packets: Seq<Vec<u8>>) -> Seq<Seq<u8>> {
    packets.map_values(|p: Vec<u8>| p@)
}

/// Concatenation of the payloads with indices in `[lo, hi)`, in order.
pub open spec fn spec_concat_range(payloads: Seq<Seq<u8>>, lo: int, hi: int) -> Seq<u8>
    decreases hi - lo,
{
    if hi <= lo {
        Seq::empty()
    } else {
        payloads[lo] + spec_concat_range(payloads, lo + 1, hi)
    }
}

pub proof fn lemma_concat_range_split(payloads: Seq<Seq<u8>>, a: int, b: int, c: int)
    requires
        a <= b <= c,
    ensures
        spec_concat_range(payloads, a, c) == spec_concat_range(payloads, a, b)
            + spec_concat_range(payloads, b, c),
    decreases b - a,
{
    if a == b {
        assert(spec_concat_range(payloads, a, b) == Seq::<u8>::empty());
        assert(spec_concat_range(payloads, a, b) + spec_concat_range(payloads, b, c)
            =~= spec_concat_range(payloads, b, c));
    } else {
        lemma_concat_range_split(payloads, a + 1, b, c);
        assert(spec_concat_range(payloads, a, c) =~= spec_concat_range(payloads, a, b)
            + spec_concat_range(payloads, b, c));
    }
}

/// Total byte length of the payloads of the packets in
/// `[start_packet, end_packet)`, computed up front so the header can be
/// written before the payload.
pub fn chunk_payload_size(packets: &Vec<Vec<u8>>, start_packet: usize, end_packet: usize) -> (size:
    u32)
    requires
        start_packet <= end_packet <= packets@.len(),
        spec_concat_range(
            payload_views(packets@),
            start_packet as int,
            end_packet as int,
        ).len() <= u32::MAX,
    ensures
        size == spec_concat_range(
            payload_views(packets@),
            start_packet as int,
            end_packet as int,
        ).len(),
{
    let ghost payloads = payload_views(packets@);
    let mut size: u32 = 0;
    let mut i: usize = start_packet;
    while i < end_packet
        invariant
            start_packet <= i <= end_packet <= packets@.len(),
            payloads == payload_views(packets@),
            spec_concat_range(payloads, start_packet as int, end_packet as int).len()
                <= u32::MAX,
            size == spec_concat_range(payloads, start_packet as int, i as int).len(),
        decreases end_packet - i,
    {
        proof {
            lemma_concat_range_split(payloads, start_packet as int, i as int, i + 1);
            lemma_concat_range_split(payloads, start_packet as int, i + 1, end_packet as int);
            assert(spec_concat_range(payloads, i + 1, i + 1) == Seq::<u8>::empty());
            assert(spec_concat_range(payloads, i as int, i + 1) =~= payloads[i as int]);
        }
        let len = packets[i].len();
        size = size + (len as u32);
        i = i + 1;
    }
    size
}

/// Assemble one output file: the 44-byte header for this chunk's payload
/// size, followed by the payloads of its packets, concatenated in order.
pub fn chunk_file_bytes(packets: &Vec<Vec<u8>>, chunk: &ChunkInfo, fmt: &FormatParams) -> (file:
    Vec<u8>)
    requires
        chunk.start_packet <= chunk.end_packet <= packets@.len(),
        spec_concat_range(
            payload_views(packets@),
            chunk.start_packet as int,
            chunk.end_packet as int,
        ).len() <= u32::MAX - 36,
        fmt.fits_header(),
    ensures
        file@ == spec_wav_header(
            spec_concat_range(
                payload_views(packets@),
                chunk.start_packet as int,
                chunk.end_packet as int,
            ).len() as u32,
            *fmt,
        ) + spec_concat_range(
            payload_views(packets@),
            chunk.start_packet as int,
            chunk.end_packet as int,
        ),
{
    let ghost payloads = payload_views(packets@);
    let data_size = chunk_payload_size(packets, chunk.start_packet, chunk.end_packet);
    let mut file: Vec<u8> = Vec::new();
    write_wav_header(&mut file, data_size, fmt);
    let ghost header = spec_wav_header(data_size, *fmt);
    assert(file@ =~= header);
    let mut i: usize = chunk.start_packet;
    while i < chunk.end_packet
        invariant
            chunk.start_packet <= i <= chunk.end_packet <= packets@.len(),
            payloads == payload_views(packets@),
            file@ == header + spec_concat_range(payloads, chunk.start_packet as int, i as int),
        decreases chunk.end_packet - i,
    {
        proof {
            lemma_concat_range_split(payloads, chunk.start_packet as int, i as int, i + 1);
            assert(spec_concat_range(payloads, i + 1, i + 1) == Seq::<u8>::empty());
            assert(spec_concat_range(payloads, i as int, i + 1) =~= payloads[i as int]);
        }
        let packet = &packets[i];
        file.extend_from_slice(packet.as_slice());
        proof {
            assert(file@ =~= header + spec_concat_range(
                payloads,
                chunk.start_packet as int,
                i + 1,
            ));
        }
        i = i + 1;
    }
    file
}

/// Byte exactness of one output file, as `chunk_file_bytes` lays it out:
/// the `Subchunk2Size` field (bytes 40 to 44) is exactly the little-endian
/// byte count of the payload written after the header, the `ChunkSize`
/// field (bytes 4 to 8) is exactly that count plus 36, and the payload
/// section (byte 44 on) is exactly the concatenated packet payloads.
pub proof fn lemma_file_byte_exact(payloads: Seq<Seq<u8>>, lo: int, hi: int, fmt: FormatParams)
    requires
        spec_concat_range(payloads, lo, hi).len() <= u32::MAX - 36,
    ensures
        ({
            let payload = spec_concat_range(payloads, lo, hi);
            let file = spec_wav_header(payload.len() as u32, fmt) + payload;
            &&& file.len() == 44 + payload.len()
            &&& file.subrange(40, 44) == vstd::bytes::spec_u32_to_le_bytes(payload.len() as u32)
            &&& file.subrange(4, 8) == vstd::bytes::spec_u32_to_le_bytes(
                (payload.len() + 36) as u32,
            )
            &&& file.subrange(44, file.len() as int) == payload
        }),
{
    let payload = spec_concat_range(payloads, lo, hi);
    let data_size = payload.len() as u32;
    let file = spec_wav_header(data_size, fmt) + payload;
    lemma_header_byte_exact(data_size, fmt);
    assert(file.subrange(40, 44) =~= spec_wav_header(data_size, fmt).subrange(40, 44));
    assert(file.subrange(4, 8) =~= spec_wav_header(data_size, fmt).subrange(4, 8));
    assert(file.subrange(44, file.len() as int) =~= payload);
}

/// Concatenation of the payload sections of the first `k` planned chunks,
/// in chunk order.
pub open spec fn spec_plan_payload(plan: Seq<ChunkInfo>, payloads: Seq<Seq<u8>>, k: int) -> Seq<
    u8,
>
    decreases k,
{
    if k <= 0 {
        Seq::empty()
    } else {
        spec_plan_payload(plan, payloads, k - 1) + spec_concat_range(
            payloads,
            plan[k - 1].start_packet as int,
            plan[k - 1].end_packet as int,
        )
    }
}

proof fn lemma_plan_payload_prefix(
    plan: Seq<ChunkInfo>,
    times: Seq<u64>,
    d: u64,
    payloads: Seq<Seq<u8>>,
    k: int,
)
    requires
        is_valid_plan(plan, times, d),
        payloads.len() == times.len(),
        1 <= k <= plan.len(),
    ensures
        spec_plan_payload(plan, payloads, k) == spec_concat_range(
            payloads,
            0,
            plan[k - 1].end_packet as int,
        ),
    decreases k,
{
    assert(crate::plan::chunk_wf(plan[k - 1], times, d));
    if k == 1 {
        assert(spec_plan_payload(plan, payloads, 0) == Seq::<u8>::empty());
        assert(spec_plan_payload(plan, payloads, 1) =~= spec_concat_range(
            payloads,
            0,
            plan[0].end_packet as int,
        ));
    } else {
        lemma_plan_payload_prefix(plan, times, d, payloads, k - 1);
        assert(plan[k - 1].start_packet == plan[k - 2].end_packet);
        lemma_concat_range_split(
            payloads,
            0,
            plan[k - 1].start_packet as int,
            plan[k - 1].end_packet as int,
        );
    }
}

/// Round trip: concatenating the payload sections of all planned output
/// files, in chunk order, reproduces the original packet payload stream
/// byte for byte.
pub proof fn lemma_round_trip(
    plan: Seq<ChunkInfo>,
    times: Seq<u64>,
    d: u64,
    payloads: Seq<Seq<u8>>,
)
    requires
        is_valid_plan(plan, times, d),
        payloads.len() == times.len(),
    ensures
        spec_plan_payload(plan, payloads, plan.len() as int) == spec_concat_range(
            payloads,
            0,
            payloads.len() as int,
        ),
{
    lemma_plan_payload_prefix(plan, times, d, payloads, plan.len() as int);
}

/// Decimal digit character for one digit value.
pub open spec fn spec_digit_char(d: int) -> char {
    if d == 0 {
        '0'
    } else if d == 1 {
        '1'
    } else if d == 2 {
        '2'
    } else if d == 3 {
        '3'
    } else if d == 4 {
        '4'
    } else if d == 5 {
        '5'
    } else if d == 6 {
        '6'
    } else if d == 7 {
        '7'
    } else if d == 8 {
        '8'
    } else {
        '9'
    }
}

/// Decimal digit characters of `n`, most significant first, no sign and no
/// leading zeros (a single zero for `n == 0`).
pub open spec fn spec_decimal(n: int) -> Seq<char>
    decreases n,
{
    if n <= 9 {
        seq![spec_digit_char(n)]
    } else {
        spec_decimal(n / 10) + seq![spec_digit_char(n % 10)]
    }
}

/// Decimal digit characters of `n`, zero-padded on the left to at least
/// three digits.
pub open spec fn spec_padded3(n: int) -> Seq<char> {
    if n <= 9 {
        seq!['0', '0'] + spec_decimal(n)
    } else if n <= 99 {
        seq!['0'] + spec_decimal(n)
    } else {
        spec_decimal(n)
    }
}

/// The name of one output file: the prefix, an underscore, the 1-based
/// chunk number zero-padded to three digits, and the `.wav` extension.
pub open spec fn spec_output_filename(prefix: Seq<char>, number: int) -> Seq<char> {
    prefix + seq!['_'] + spec_padded3(number) + seq!['.', 'w', 'a', 'v']
}

fn digit_str(d: usize) -> (s: &'static str)
    requires
        d < 10,
    ensures
        s@ == seq![spec_digit_char(d as int)],
{
    proof {
        reveal_strlit("0");
        reveal_strlit("1");
        reveal_strlit("2");
        reveal_strlit("3");
        reveal_strlit("4");
        reveal_strlit("5");
        reveal_strlit("6");
        reveal_strlit("7");
        reveal_strlit("8");
        reveal_strlit("9");
    }
    let s = match d {
        0 => "0",
        1 => "1",
        2 => "2",
        3 => "3",
        4 => "4",
        5 => "5",
        6 => "6",
        7 => "7",
        8 => "8",
        _ => "9",
    };
    proof {
        assert(s@ =~= seq![spec_digit_char(d as int)]);
    }
    s
}

fn decimal_string(n: usize) -> (s: String)
    ensures
        s@ == spec_decimal(n as int),
    decreases n,
{
    if n <= 9 {
        let mut s = String::new();
        s.append(digit_str(n));
        proof {
            assert(s@ =~= spec_decimal(n as int));
        }
        s
    } else {
        let mut s = decimal_string(n / 10);
        s.append(digit_str(n % 10));
        proof {
            assert(s@ =~= spec_decimal(n as int));
        }
        s
    }
}

/// Format the name of the output file for the chunk at `chunk_index`
/// (0-based); files are numbered from 1 and zero-padded to three digits.
pub fn output_filename(prefix: &str, chunk_index: usize) -> (name: String)
    requires
        chunk_index < usize::MAX,
    ensures
        name@ == spec_output_filename(prefix@, chunk_index + 1),
{
    proof {
        reveal_strlit("_");
        reveal_strlit("0");
        reveal_strlit("00");
        reveal_strlit(".wav");
    }
    let number = chunk_index + 1;
    let mut name = String::new();
    name.append(prefix);
    name.append("_");
    if number <= 9 {
        name.append("00");
    } else if number <= 99 {
        name.append("0");
    }
    let digits = decimal_string(number);
    name.append(digits.as_str());
    name.append(".wav");
    proof {
        assert(name@ =~= spec_output_filename(prefix@, chunk_index + 1));
    }
    name
}

} // verus!
