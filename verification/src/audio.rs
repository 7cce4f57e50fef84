//! The format of the audio and the decoding of raw samples.
//!
//! Every stage of the pipeline works on mono, 16-bit linear PCM at one fixed
//! sample rate. A sample is a signed 16-bit integer.

use vstd::prelude::*;

verus! {

/// The format of a stream, as its header gives it.
#[derive(Clone, Copy, Debug, PartialEq, Eq, Structural)]
pub struct AudioConfig {
    /// Samples per second.
    pub sample_rate: u32,
    /// Number of interleaved channels.
    pub channel_count: u16,
    /// Width of one sample in bits.
    pub bits_per_sample: u16,
}

/// Why a stream's format is refused before any sample is read.
#[derive(Clone, Copy, Debug, PartialEq, Eq, Structural)]
pub enum ConfigError {
    /// The stream has not exactly one channel.
    NotMono,
    /// The samples are not 16 bits wide.
    NotSixteenBit,
    /// The stream's sample rate is not the rate that the recognizer was
    /// built for.
    RateMismatch,
}

impl AudioConfig {
    /// The format that the pipeline works on: one channel of 16-bit samples.
    pub open spec fn is_supported(self) -> bool {
        self.channel_count == 1 && self.bits_per_sample == 16
    }

    /// Checks the format: one channel first, then 16 bits.
    pub fn validate(&self) -> (r: Result<(), ConfigError>)
        ensures
            r is Ok <==> self.is_supported(),
            r == Err::<(), ConfigError>(ConfigError::NotMono) <==> self.channel_count != 1,
            r == Err::<(), ConfigError>(ConfigError::NotSixteenBit) <==> (self.channel_count == 1
                && self.bits_per_sample != 16),
    {
        if self.channel_count != 1 {
            Err(ConfigError::NotMono)
        } else if self.bits_per_sample != 16 {
            Err(ConfigError::NotSixteenBit)
        } else {
            Ok(())
        }
    }
}

/// The sample that two bytes in little-endian order stand for.
pub open spec fn sample_from_le(low: u8, high: u8) -> int {
    if high < 128 {
        low + 256 * high
    } else {
        low + 256 * high - 65536
    }
}

/// The samples that a run of bytes stands for: one for each full pair of
/// bytes, the low byte first. A last byte without a partner is left out.
pub open spec fn samples_from_le(bytes: Seq<u8>) -> Seq<i16> {
    Seq::new(
        bytes.len() / 2,
        |k: int| sample_from_le(bytes[2 * k], bytes[2 * k + 1]) as i16,
    )
}

/// Decodes one sample from two bytes in little-endian order.
pub fn decode_sample(low: u8, high: u8) -> (s: i16)
    ensures
        s == sample_from_le(low, high),
{
    let wide: i32 = (low as i32) + 256 * (high as i32);
    if wide >= 32768 {
        (wide - 65536) as i16
    } else {
        wide as i16
    }
}

/// Decodes raw little-endian 16-bit PCM: one sample for each full pair of
/// bytes. A last byte without a partner is left out.
pub fn decode_samples(bytes: &[u8]) -> (samples: Vec<i16>)
    ensures
        samples@ == samples_from_le(bytes@),
        samples@.len() == bytes@.len() / 2,
{
    let total = bytes.len();
    let count = total / 2;
    let mut samples: Vec<i16> = Vec::new();
    let mut k: usize = 0;
    while k < count
        invariant
            total == bytes@.len(),
            count == total / 2,
            k <= count,
            samples@.len() == k,
            forall|j: int| 0 <= j < k ==> samples@[j] == samples_from_le(bytes@)[j],
        decreases count - k,
    {
        samples.push(decode_sample(bytes[2 * k], bytes[2 * k + 1]));
        k += 1;
    }
    assert(samples@ =~= samples_from_le(bytes@));
    samples
}

} // verus!
