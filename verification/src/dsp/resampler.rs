//! What goes into the resampler and what comes out of it: blocks of mono samples, and stereo.
use crate::dsp::pcm::{decode_pcm16, pcm_samples};
use vstd::prelude::*;

verus! {

/// The number of samples that are resampled at once.
pub const BLOCK_SIZE: usize = 1024;

/// The number of blocks that hold `n` samples.
pub open spec fn block_count(n: int) -> int {
    (n + BLOCK_SIZE - 1) / BLOCK_SIZE as int
}

/// The samples in blocks, the last one filled up with silence.
pub open spec fn blocks_of(samples: Seq<i16>) -> Seq<Seq<i16>> {
    Seq::new(
        block_count(samples.len() as int) as nat,
        |b: int|
            Seq::new(
                BLOCK_SIZE as nat,
                |i: int|
                    if b * BLOCK_SIZE + i < samples.len() {
                        samples[b * BLOCK_SIZE + i]
                    } else {
                        0i16
                    },
            ),
    )
}

/// The samples of each block.
pub open spec fn block_samples(v: Seq<Vec<i16>>) -> Seq<Seq<i16>> {
    v.map_values(|b: Vec<i16>| b@)
}

/// Each sample twice: once for the left and once for the right channel.
pub open spec fn stereo_of<T>(mono: Seq<T>) -> Seq<T> {
    Seq::new(mono.len() * 2, |k: int| mono[k / 2])
}

/// The sample rates that audio is converted between.
/// Mono neural TTS output (e.g. 22.05kHz or 24kHz) becomes native PipeWire 48kHz stereo.
#[derive(Debug, Clone, Copy)]
pub struct AudioResampler {
    pub input_sample_rate: u32,
    pub output_sample_rate: u32,
}

impl AudioResampler {
    /// A conversion between two sample rates.
    pub fn new(input_sample_rate: u32, output_sample_rate: u32) -> (r: Self)
        ensures
            r.input_sample_rate == input_sample_rate,
            r.output_sample_rate == output_sample_rate,
    {
        AudioResampler { input_sample_rate, output_sample_rate }
    }

    #[must_use]
    pub fn input_rate(&self) -> (r: u32)
        ensures
            r == self.input_sample_rate,
    {
        self.input_sample_rate
    }

    #[must_use]
    pub fn output_rate(&self) -> (r: u32)
        ensures
            r == self.output_sample_rate,
    {
        self.output_sample_rate
    }
}

/// Cuts 16-bit mono PCM into the blocks that are resampled one after the other.
pub fn pcm16_blocks(bytes: &[u8]) -> (r: Vec<Vec<i16>>)
    ensures
        block_samples(r@) == blocks_of(pcm_samples(bytes@)),
{
    let samples = decode_pcm16(bytes);
    let ghost s = samples@;
    let mut r: Vec<Vec<i16>> = Vec::new();
    let mut start: usize = 0;
    while start < samples.len()
        invariant
            samples@ == s,
            s.len() == samples.len(),
            start <= s.len(),
            start < s.len() ==> start == r@.len() * BLOCK_SIZE,
            start == s.len() ==> r@.len() == block_count(s.len() as int),
            r@.len() <= block_count(s.len() as int),
            forall|b: int| 0 <= b < r@.len() ==> (#[trigger] r@[b])@ == blocks_of(s)[b],
        decreases s.len() - start,
    {
        let mut block: Vec<i16> = Vec::with_capacity(BLOCK_SIZE);
        let mut i: usize = 0;
        while i < BLOCK_SIZE
            invariant
                samples@ == s,
                s.len() == samples.len(),
                start < s.len(),
                i <= BLOCK_SIZE,
                block@.len() == i,
                forall|j: int|
                    0 <= j < i ==> #[trigger] block@[j] == (if start + j < s.len() {
                        s[start + j]
                    } else {
                        0i16
                    }),
            decreases BLOCK_SIZE - i,
        {
            if i < samples.len() - start {
                block.push(samples[start + i]);
            } else {
                block.push(0);
            }
            i += 1;
        }
        assert(block@ =~= blocks_of(s)[r@.len() as int]);
        r.push(block);
        if samples.len() - start <= BLOCK_SIZE {
            start = samples.len();
        } else {
            start += BLOCK_SIZE;
        }
    }
    assert(block_samples(r@) =~= blocks_of(s));
    r
}

/// Duplicates mono to stereo interleaved [L, R, L, R, ...].
pub fn interleave_stereo<T: Copy>(mono: &[T]) -> (r: Vec<T>)
    ensures
        r@ == stereo_of(mono@),
{
    let mut r: Vec<T> = Vec::new();
    let mut i: usize = 0;
    while i < mono.len()
        invariant
            i <= mono@.len(),
            r@.len() == 2 * i,
            forall|k: int| 0 <= k < 2 * i ==> #[trigger] r@[k] == mono@[k / 2],
        decreases mono.len() - i,
    {
        r.push(mono[i]);
        r.push(mono[i]);
        i += 1;
    }
    assert(r@ =~= stereo_of(mono@));
    r
}

/// Stereo has an even number of samples, and both channels carry the mono signal.
pub proof fn law_stereo_carries_mono_twice<T>(mono: Seq<T>, i: int)
    requires
        0 <= i < mono.len(),
    ensures
        stereo_of(mono).len() == 2 * mono.len(),
        stereo_of(mono)[2 * i] == mono[i],
        stereo_of(mono)[2 * i + 1] == mono[i],
{
}

/// Cutting into blocks loses no sample and reorders none, and fills up less than a block.
pub proof fn law_blocks_hold_every_sample(samples: Seq<i16>, k: int)
    requires
        0 <= k < samples.len(),
    ensures
        (k / BLOCK_SIZE as int) < blocks_of(samples).len(),
        blocks_of(samples)[k / BLOCK_SIZE as int][k % BLOCK_SIZE as int] == samples[k],
        blocks_of(samples).len() * BLOCK_SIZE < samples.len() + BLOCK_SIZE,
{
    assert((k / BLOCK_SIZE as int) * BLOCK_SIZE + k % BLOCK_SIZE as int == k);
}

/// Behind the samples there is only silence.
pub proof fn law_blocks_end_in_silence(samples: Seq<i16>, b: int, i: int)
    requires
        0 <= b < blocks_of(samples).len(),
        0 <= i < BLOCK_SIZE,
        b * BLOCK_SIZE + i >= samples.len(),
    ensures
        blocks_of(samples)[b][i] == 0,
{
}

/// A block has 1024 samples, and there is a block for each 1024 samples or part of them.
pub proof fn law_a_block_has_its_samples(samples: Seq<i16>, b: int)
    ensures
        0 <= b < blocks_of(samples).len() ==> blocks_of(samples)[b].len() == 1024,
        1024 * (blocks_of(samples).len() - 1) < samples.len() || samples.len() == 0,
        samples.len() <= 1024 * blocks_of(samples).len(),
        samples.len() == 0 ==> blocks_of(samples).len() == 0,
{
}

}
