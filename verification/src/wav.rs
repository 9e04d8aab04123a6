//! The encoder: serializes an ordered sequence of 16-bit signed samples into
//! a complete, self-describing WAV container with a fixed format header
//! (stereo, 44.1 kHz, 16-bit signed PCM), byte for byte.

use vstd::prelude::*;
use vstd::bytes::*;

verus! {

/// Interleaved channels in the fixed audio format.
pub const CHANNEL_COUNT: u16 = 2;

/// Samples per second and channel in the fixed audio format.
pub const SAMPLE_RATE: u32 = 44100;

/// Bit depth of one sample in the fixed audio format.
pub const BITS_PER_SAMPLE: u16 = 16;

/// Bytes per sample frame: every channel's sample at one instant.
pub const BLOCK_ALIGN: u16 = 2 * 2;

/// Bytes of sample data per second.
pub const BYTE_RATE: u32 = 44100 * 2 * 2;

/// Greatest number of samples whose container still fits the 32-bit size
/// fields of the header.
pub const MAX_WAV_SAMPLES: usize = (4294967295 - 36) / 2;

/// The four bytes spelling the outer chunk's magic, `RIFF`.
pub open spec fn riff_tag() -> Seq<u8> {
    seq![0x52u8, 0x49u8, 0x46u8, 0x46u8]
}

/// The four bytes spelling the container's form, `WAVE`.
pub open spec fn wave_tag() -> Seq<u8> {
    seq![0x57u8, 0x41u8, 0x56u8, 0x45u8]
}

/// The four bytes spelling the format chunk's magic, `fmt `.
pub open spec fn fmt_tag() -> Seq<u8> {
    seq![0x66u8, 0x6du8, 0x74u8, 0x20u8]
}

/// The four bytes spelling the sample chunk's magic, `data`.
pub open spec fn data_tag() -> Seq<u8> {
    seq![0x64u8, 0x61u8, 0x74u8, 0x61u8]
}

/// The complete 44-byte header declaring n samples: the RIFF envelope, the
/// 16-byte PCM format chunk (format 1, channel count, sample rate, byte
/// rate, block alignment, bit depth), and the data chunk's magic with its
/// declared length of two bytes per sample.
pub open spec fn wav_header(n: nat) -> Seq<u8> {
    riff_tag() + spec_u32_to_le_bytes((36 + 2 * n) as u32) + wave_tag() + fmt_tag()
        + spec_u32_to_le_bytes(16u32) + spec_u16_to_le_bytes(1u16)
        + spec_u16_to_le_bytes(CHANNEL_COUNT) + spec_u32_to_le_bytes(SAMPLE_RATE)
        + spec_u32_to_le_bytes(BYTE_RATE) + spec_u16_to_le_bytes(BLOCK_ALIGN)
        + spec_u16_to_le_bytes(BITS_PER_SAMPLE) + data_tag()
        + spec_u32_to_le_bytes((2 * n) as u32)
}

/// The sample data: every 16-bit signed sample as its two's-complement
/// little-endian byte pair, in order.
pub open spec fn wav_data(samples: Seq<i16>) -> Seq<u8>
    decreases samples.len(),
{
    if samples.len() == 0 {
        Seq::empty()
    } else {
        wav_data(samples.drop_last()) + spec_u16_to_le_bytes(samples.last() as u16)
    }
}

/// The complete container for a sample sequence: header, then data.
pub open spec fn wav_bytes(samples: Seq<i16>) -> Seq<u8> {
    wav_header(samples.len()) + wav_data(samples)
}

/// The sample data takes exactly two bytes per sample.
pub proof fn lemma_wav_data_len(samples: Seq<i16>)
    ensures
        wav_data(samples).len() == 2 * samples.len(),
    decreases samples.len(),
{
    lemma_auto_spec_u16_to_from_le_bytes();
    if samples.len() > 0 {
        lemma_wav_data_len(samples.drop_last());
    }
}

/// Encode a sample sequence as a WAV container. Succeeds for any sample
/// count the 32-bit size fields admit, the empty sequence included; the
/// result is pinned byte for byte.
pub fn encode_wav(samples: &Vec<i16>) -> (out: Vec<u8>)
    requires
        samples@.len() <= MAX_WAV_SAMPLES,
    ensures
        out@ == wav_bytes(samples@),
{
    proof {
        lemma_auto_spec_u16_to_from_le_bytes();
        lemma_auto_spec_u32_to_from_le_bytes();
    }
    let n = samples.len();
    let declared: u32 = (n * 2) as u32;
    let riff_len: u32 = 36 + declared;
    let mut out: Vec<u8> = Vec::new();
    out.push(0x52u8);
    out.push(0x49u8);
    out.push(0x46u8);
    out.push(0x46u8);
    let mut word = u32_to_le_bytes(riff_len);
    out.append(&mut word);
    out.push(0x57u8);
    out.push(0x41u8);
    out.push(0x56u8);
    out.push(0x45u8);
    out.push(0x66u8);
    out.push(0x6du8);
    out.push(0x74u8);
    out.push(0x20u8);
    word = u32_to_le_bytes(16);
    out.append(&mut word);
    let mut half = u16_to_le_bytes(1);
    out.append(&mut half);
    half = u16_to_le_bytes(CHANNEL_COUNT);
    out.append(&mut half);
    word = u32_to_le_bytes(SAMPLE_RATE);
    out.append(&mut word);
    word = u32_to_le_bytes(BYTE_RATE);
    out.append(&mut word);
    half = u16_to_le_bytes(BLOCK_ALIGN);
    out.append(&mut half);
    half = u16_to_le_bytes(BITS_PER_SAMPLE);
    out.append(&mut half);
    out.push(0x64u8);
    out.push(0x61u8);
    out.push(0x74u8);
    out.push(0x61u8);
    word = u32_to_le_bytes(declared);
    out.append(&mut word);
    proof {
        assert(out@ =~= wav_header(samples@.len()));
    }
    let mut i: usize = 0;
    while i < n
        invariant
            i <= n,
            n == samples@.len(),
            out@ == wav_header(samples@.len()) + wav_data(samples@.subrange(0, i as int)),
        decreases n - i,
    {
        let u: u16 = #[verifier::truncate] (samples[i] as u16);
        let mut pair = u16_to_le_bytes(u);
        out.append(&mut pair);
        proof {
            assert(samples@.subrange(0, i + 1).drop_last() =~= samples@.subrange(0, i as int));
            assert(samples@.subrange(0, i + 1).last() == samples@[i as int]);
            assert(out@ =~= wav_header(samples@.len()) + wav_data(samples@.subrange(0, i + 1)));
        }
        i += 1;
    }
    proof {
        assert(samples@.subrange(0, n as int) =~= samples@);
    }
    out
}

/// Whatever the sample count, the zero included, the container's format
/// fields declare the fixed format and its data-length field counts exactly
/// two bytes per sample: the field at bytes 40 to 44 holds twice the sample
/// count, the field at 22 to 24 the channel count, the field at 24 to 28 the
/// sample rate, and the field at 34 to 36 the bit depth.
pub proof fn lemma_wav_header_fields(samples: Seq<i16>)
    requires
        samples.len() <= MAX_WAV_SAMPLES,
    ensures
        wav_bytes(samples).len() == 44 + 2 * samples.len(),
        spec_u32_from_le_bytes(wav_bytes(samples).subrange(40, 44)) == 2 * samples.len(),
        spec_u16_from_le_bytes(wav_bytes(samples).subrange(22, 24)) == CHANNEL_COUNT,
        spec_u32_from_le_bytes(wav_bytes(samples).subrange(24, 28)) == SAMPLE_RATE,
        spec_u16_from_le_bytes(wav_bytes(samples).subrange(34, 36)) == BITS_PER_SAMPLE,
{
    lemma_auto_spec_u16_to_from_le_bytes();
    lemma_auto_spec_u32_to_from_le_bytes();
    lemma_wav_data_len(samples);
    let n = samples.len();
    assert(wav_bytes(samples).subrange(40, 44) =~= spec_u32_to_le_bytes((2 * n) as u32));
    assert(wav_bytes(samples).subrange(22, 24) =~= spec_u16_to_le_bytes(CHANNEL_COUNT));
    assert(wav_bytes(samples).subrange(24, 28) =~= spec_u32_to_le_bytes(SAMPLE_RATE));
    assert(wav_bytes(samples).subrange(34, 36) =~= spec_u16_to_le_bytes(BITS_PER_SAMPLE));
}

} // verus!
