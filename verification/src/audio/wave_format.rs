//! The library's description of a PCM capture format, and how the format
//! of a process-loopback capture is built.
use vstd::prelude::*;
use vstd::arithmetic::power2::pow2;

verus! {

/// The fields of a `WAVEFORMATEX` that the capture logic reads and writes.
pub struct WaveFormat {
    pub format_tag: u16,
    pub channels: u16,
    pub samples_per_sec: u32,
    pub avg_bytes_per_sec: u32,
    pub block_align: u16,
    pub bits_per_sample: u16,
    pub cb_size: u16,
}

/// The format tag of an extensible format, whose sample type is given by
/// its sub-format.
pub const WAVE_FORMAT_EXTENSIBLE: u16 = 0xFFFE;

/// The sample type of an extensible format.
#[derive(PartialEq, Eq, Structural, Clone, Copy, Debug)]
pub enum SubFormat {
    /// IEEE floating-point samples (`KSDATAFORMAT_SUBTYPE_IEEE_FLOAT`).
    IeeeFloat,
}

/// The fields of a `WAVEFORMATEXTENSIBLE`.
pub struct WaveFormatExtensible {
    pub format: WaveFormat,
    pub valid_bits_per_sample: u16,
    pub channel_mask: u32,
    pub sub_format: SubFormat,
}

/// The default speaker mask for `channels` channels: one bit per channel
/// for up to 18 channels (the positions that are defined), else none.
pub open spec fn default_channel_mask(channels: int) -> int {
    if channels <= 18 {
        pow2(channels as nat) - 1
    } else {
        0
    }
}

/// An extensible float format of `channels` channels of `storebits`-bit
/// samples (`validbits` of them meaningful) at `samplerate`; the speaker
/// mask is `channel_mask`, or one bit per channel when none is given.
/// The sizes are stored in the
/// header's narrower fields truncated, as the header's types demand.
pub fn new_waveformatextensible(
    storebits: usize,
    validbits: usize,
    samplerate: usize,
    channels: usize,
    channel_mask: Option<u32>,
) -> (f: WaveFormatExtensible)
    requires
        channels as int * storebits as int <= usize::MAX,
        samplerate as int * ((channels as int * storebits as int) / 8) <= usize::MAX,
    ensures
        f.format.cb_size == 22,
        f.format.avg_bytes_per_sec == (samplerate * ((channels * storebits) / 8)) as u32,
        f.format.block_align == ((channels * storebits) / 8) as u16,
        f.format.channels == channels as u16,
        f.format.samples_per_sec == samplerate as u32,
        f.format.bits_per_sample == storebits as u16,
        f.format.format_tag == WAVE_FORMAT_EXTENSIBLE,
        f.sub_format == SubFormat::IeeeFloat,
        f.valid_bits_per_sample == validbits as u16,
        channel_mask matches Some(m) ==> f.channel_mask == m,
        channel_mask is None ==> f.channel_mask == default_channel_mask(channels as int),
{
    let blockalign = channels * storebits / 8;
    let byterate = samplerate * blockalign;
    let format = WaveFormat {
        cb_size: 22,
        avg_bytes_per_sec: byterate as u32,
        block_align: blockalign as u16,
        channels: channels as u16,
        samples_per_sec: samplerate as u32,
        bits_per_sample: storebits as u16,
        format_tag: WAVE_FORMAT_EXTENSIBLE,
    };
    let mask = match channel_mask {
        Some(given_mask) => given_mask,
        None => {
            if channels <= 18 {
                let ch = channels as u32;
                proof {
                    vstd::arithmetic::power2::lemma2_to64();
                    vstd::arithmetic::power2::lemma_pow2_strictly_increases(ch as nat, 19);
                    vstd::bits::lemma_u32_shl_is_mul(1, ch);
                }
                (1u32 << ch) - 1
            } else {
                0
            }
        },
    };
    WaveFormatExtensible {
        format,
        valid_bits_per_sample: validbits as u16,
        channel_mask: mask,
        sub_format: SubFormat::IeeeFloat,
    }
}

} // verus!
