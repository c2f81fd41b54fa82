//! 16-bit PCM: signed samples of two bytes, the lower byte first.
use vstd::prelude::*;

verus! {

/// The sample that two bytes encode.
pub open spec fn le_i16(low: u8, high: u8) -> int {
    let n = low + 256 * high;
    if n < 0x8000 {
        n
    } else {
        n - 0x1_0000
    }
}

/// The samples that the bytes encode. A byte that is left over is passed over.
pub open spec fn pcm_samples(bytes: Seq<u8>) -> Seq<i16> {
    Seq::new(bytes.len() / 2, |i: int| le_i16(bytes[2 * i], bytes[2 * i + 1]) as i16)
}

/// The number from 0 up to 65535 that encodes a sample.
pub open spec fn pcm_code(sample: i16) -> int {
    if sample >= 0 {
        sample as int
    } else {
        sample + 0x1_0000
    }
}

/// The bytes that encode the samples.
pub open spec fn pcm_bytes(samples: Seq<i16>) -> Seq<u8> {
    Seq::new(
        samples.len() * 2,
        |k: int|
            if k % 2 == 0 {
                (pcm_code(samples[k / 2]) % 256) as u8
            } else {
                (pcm_code(samples[k / 2]) / 256) as u8
            },
    )
}

/// Decodes 16-bit PCM.
pub fn decode_pcm16(bytes: &[u8]) -> (r: Vec<i16>)
    ensures
        r@ == pcm_samples(bytes@),
{
    let count: usize = bytes.len() / 2;
    let mut r: Vec<i16> = Vec::with_capacity(count);
    let mut i: usize = 0;
    while i < count
        invariant
            i <= count,
            count == bytes.len() / 2,
            bytes@.len() == bytes.len(),
            r@.len() == i,
            forall|j: int|
                0 <= j < i ==> #[trigger] r@[j] == le_i16(bytes@[2 * j], bytes@[2 * j + 1]) as i16,
        decreases count - i,
    {
        let n: i32 = bytes[2 * i] as i32 + 256 * (bytes[2 * i + 1] as i32);
        let s: i16 = if n < 0x8000 {
            n as i16
        } else {
            (n - 0x1_0000) as i16
        };
        r.push(s);
        i += 1;
    }
    assert(r@ =~= pcm_samples(bytes@));
    r
}

/// Encodes 16-bit PCM.
pub fn encode_pcm16(samples: &[i16]) -> (r: Vec<u8>)
    ensures
        r@ == pcm_bytes(samples@),
{
    let mut r: Vec<u8> = Vec::new();
    let mut i: usize = 0;
    while i < samples.len()
        invariant
            i <= samples@.len(),
            r@.len() == 2 * i,
            forall|k: int|
                0 <= k < 2 * i ==> #[trigger] r@[k] == pcm_bytes(samples@)[k],
        decreases samples.len() - i,
    {
        let s: i32 = samples[i] as i32;
        let code: i32 = if s >= 0 {
            s
        } else {
            s + 0x1_0000
        };
        r.push((code % 256) as u8);
        r.push((code / 256) as u8);
        i += 1;
    }
    assert(r@ =~= pcm_bytes(samples@));
    r
}

/// Samples come back as they were from the bytes that encode them.
pub proof fn law_pcm_round_trip(samples: Seq<i16>)
    ensures
        pcm_samples(pcm_bytes(samples)) == samples,
{
    let bytes = pcm_bytes(samples);
    assert forall|i: int| 0 <= i < samples.len() implies pcm_samples(bytes)[i] == samples[i] by {
        let c = pcm_code(samples[i]);
        assert(bytes[2 * i] == (c % 256) as u8);
        assert(bytes[2 * i + 1] == (c / 256) as u8);
    }
    assert(pcm_samples(bytes) =~= samples);
}

/// Speech is 16-bit aligned: the bytes of samples come in pairs.
pub proof fn law_pcm_is_aligned(samples: Seq<i16>)
    ensures
        pcm_bytes(samples).len() == 2 * samples.len(),
        samples.len() > 0 <==> pcm_bytes(samples).len() > 0,
{
}

/// Each sample takes two bytes, the lower one first, as a number from 0 up to 65535 in which the
/// upper half stands for the negative samples.
pub proof fn law_the_lower_byte_comes_first(samples: Seq<i16>, i: int)
    requires
        0 <= i < samples.len(),
    ensures
        ({
            let n = pcm_bytes(samples)[2 * i] + 256 * pcm_bytes(samples)[2 * i + 1];
            &&& samples[i] >= 0 ==> n == samples[i]
            &&& samples[i] < 0 ==> n == samples[i] + 65536
        }),
{
    let c = pcm_code(samples[i]);
    assert(pcm_bytes(samples)[2 * i] == (c % 256) as u8);
    assert(pcm_bytes(samples)[2 * i + 1] == (c / 256) as u8);
}

}
