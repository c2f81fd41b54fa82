//! Which samples of a chunk are faded, and how far.
use vstd::arithmetic::div_mod::*;
use vstd::arithmetic::mul::*;
use vstd::prelude::*;

verus! {

/// How many frames are faded at each end of a chunk.
pub const EDGE_FADE_FRAMES: usize = 240;

/// One faded sample: where it is, and how many steps it is away from silence.
#[derive(Debug, Clone, Copy, PartialEq, Eq, Structural)]
pub struct FadeStep {
    pub index: usize,
    pub step: usize,
}

/// The faded samples of a chunk of `len` samples: the first `fade` frames, which rise from
/// silence, and the last ones, which fall to it. None where the two would overlap.
pub open spec fn fade_steps(len: int, fade: int, channels: int) -> Seq<(int, int)> {
    if len < fade * channels * 2 {
        Seq::empty()
    } else {
        let n = (fade * channels) as nat;
        let base = (len / channels - fade) * channels;
        Seq::new(n, |k: int| (k, k / channels)) + Seq::new(
            n,
            |k: int| (base + k, fade - k / channels),
        )
    }
}

/// The steps as numbers.
pub open spec fn step_views(v: Seq<FadeStep>) -> Seq<(int, int)> {
    v.map_values(|f: FadeStep| (f.index as int, f.step as int))
}

proof fn lemma_fade_range(len: int, fade: int, channels: int)
    requires
        channels > 0,
        fade >= 0,
        len >= fade * channels * 2,
    ensures
        fade <= len / channels,
        fade * channels <= (len / channels - fade) * channels,
        (len / channels - fade) * channels + fade * channels <= len,
{
    assert(fade * channels * 2 == channels * (2 * fade)) by (nonlinear_arith);
    lemma_div_is_ordered(channels * (2 * fade), len, channels);
    lemma_div_multiples_vanish(2 * fade, channels);
    let frames = len / channels;
    assert(frames >= 2 * fade);
    lemma_fundamental_div_mod(len, channels);
    lemma_mod_bound(len, channels);
    assert((frames - fade) * channels + fade * channels == channels * frames) by (nonlinear_arith);
    assert(fade * channels <= (frames - fade) * channels) by (nonlinear_arith)
        requires
            frames >= 2 * fade,
            channels > 0,
    ;
}

/// The samples to which the S-curve fade-in at the beginning and fade-out at the end apply, to
/// avoid any abrupt clicks or DC offset pops on chunk boundaries.
pub fn edge_fade_steps(len: usize, fade_samples: usize, channels: usize) -> (r: Vec<FadeStep>)
    requires
        channels > 0,
        fade_samples * channels * 2 <= usize::MAX,
    ensures
        step_views(r@) == fade_steps(len as int, fade_samples as int, channels as int),
{
    let mut r: Vec<FadeStep> = Vec::new();
    let ghost all = fade_steps(len as int, fade_samples as int, channels as int);
    let n: usize = fade_samples * channels;
    if len < n * 2 {
        assert(step_views(r@) =~= all);
        return r;
    }
    proof {
        lemma_fade_range(len as int, fade_samples as int, channels as int);
    }
    let mut k: usize = 0;
    while k < n
        invariant
            channels > 0,
            k <= n,
            r@.len() == k,
            forall|j: int|
                0 <= j < k ==> (#[trigger] r@[j]).index == j && r@[j].step == j / channels as int,
        decreases n - k,
    {
        r.push(FadeStep { index: k, step: k / channels });
        k += 1;
    }
    let first_frame: usize = len / channels - fade_samples;
    let base: usize = first_frame * channels;
    k = 0;
    while k < n
        invariant
            channels > 0,
            n == fade_samples * channels,
            k <= n,
            base + n <= len,
            r@.len() == n + k,
            forall|j: int|
                0 <= j < n ==> (#[trigger] r@[j]).index == j && r@[j].step == j / channels as int,
            forall|j: int|
                n <= j < n + k ==> (#[trigger] r@[j]).index == base + (j - n) && r@[j].step
                    == fade_samples - (j - n) / channels as int,
        decreases n - k,
    {
        proof {
            lemma_div_is_ordered(k as int, n as int, channels as int);
            lemma_div_multiples_vanish(fade_samples as int, channels as int);
            assert(channels * fade_samples == n) by (nonlinear_arith)
                requires
                    n == fade_samples * channels,
            ;
        }
        r.push(FadeStep { index: base + k, step: fade_samples - k / channels });
        k += 1;
    }
    assert(step_views(r@) =~= all);
    r
}

/// Every faded sample is a sample of the chunk, and no sample is faded twice.
pub proof fn law_fades_do_not_overlap(len: int, fade: int, channels: int, i: int, j: int)
    requires
        channels > 0,
        fade >= 0,
        0 <= i < j < fade_steps(len, fade, channels).len(),
    ensures
        0 <= fade_steps(len, fade, channels)[i].0 < len,
        0 <= fade_steps(len, fade, channels)[j].0 < len,
        fade_steps(len, fade, channels)[i].0 < fade_steps(len, fade, channels)[j].0,
{
    lemma_fade_range(len, fade, channels);
    assert(0 <= fade * channels) by (nonlinear_arith)
        requires
            channels > 0,
            fade >= 0,
    ;
}

/// The samples between the first and the last faded frames are left alone.
pub proof fn law_the_middle_is_not_faded(len: int, fade: int, channels: int, k: int)
    requires
        channels > 0,
        fade >= 0,
        0 <= k < fade_steps(len, fade, channels).len(),
    ensures
        ({
            let index = fade_steps(len, fade, channels)[k].0;
            index < fade * channels || index >= (len / channels - fade) * channels
        }),
{
    lemma_fade_range(len, fade, channels);
}

/// A chunk begins in silence: its first frame is no step away from it.
pub proof fn law_a_chunk_begins_in_silence(len: int, fade: int, channels: int, c: int)
    requires
        channels > 0,
        fade > 0,
        len >= fade * channels * 2,
        0 <= c < channels,
    ensures
        c < fade_steps(len, fade, channels).len(),
        fade_steps(len, fade, channels)[c] == (c, 0int),
{
    assert(channels <= fade * channels) by (nonlinear_arith)
        requires
            channels > 0,
            fade > 0,
    ;
    lemma_basic_div(c, channels);
}

/// The last whole frame of a chunk is one step away from silence.
pub proof fn law_a_chunk_ends_near_silence(len: int, fade: int, channels: int, c: int)
    requires
        channels > 0,
        fade > 0,
        len >= fade * channels * 2,
        0 <= c < channels,
    ensures
        ({
            let k = 2 * (fade * channels) - channels + c;
            &&& 0 <= k < fade_steps(len, fade, channels).len()
            &&& fade_steps(len, fade, channels)[k] == (
                (len / channels) * channels - channels + c,
                1int,
            )
        }),
{
    lemma_fade_range(len, fade, channels);
    let n = fade * channels;
    assert(channels <= n) by (nonlinear_arith)
        requires
            channels > 0,
            fade > 0,
            n == fade * channels,
    ;
    let frames = len / channels;
    let j = n - channels + c;
    assert((frames - fade) * channels + n == frames * channels) by (nonlinear_arith)
        requires
            n == fade * channels,
    ;
    assert(j == channels * (fade - 1) + c) by (nonlinear_arith)
        requires
            j == fade * channels - channels + c,
    ;
    lemma_fundamental_div_mod_converse(j, channels, fade - 1, c);
    assert(fade_steps(len, fade, channels)[n + j] == ((frames - fade) * channels + j, fade - j
        / channels));
}

/// A chunk of fewer samples than the two fades take is left alone.
pub proof fn law_a_short_chunk_is_not_faded(len: int, fade: int, channels: int)
    requires
        len < fade * channels * 2,
    ensures
        fade_steps(len, fade, channels).len() == 0,
{
}

/// The fades are even: the frame that is `f` frames behind the first is `f` steps away from silence,
/// and the frame that is `f` frames before the last is `f + 1` steps away, in every channel.
pub proof fn law_fades_are_even(len: int, fade: int, channels: int, f: int, c: int)
    requires
        channels > 0,
        len >= fade * channels * 2,
        0 <= f < fade,
        0 <= c < channels,
    ensures
        ({
            let steps = fade_steps(len, fade, channels);
            let rise = f * channels + c;
            let fall = 2 * (fade * channels) - (f + 1) * channels + c;
            &&& 0 <= rise < steps.len() && steps[rise] == (f * channels + c, f)
            &&& 0 <= fall < steps.len() && steps[fall] == (
                (len / channels - f - 1) * channels + c,
                f + 1,
            )
        }),
{
    lemma_fade_range(len, fade, channels);
    let n = fade * channels;
    let frames = len / channels;
    let rise = f * channels + c;
    assert(0 <= rise < n) by (nonlinear_arith)
        requires
            channels > 0,
            0 <= f < fade,
            0 <= c < channels,
            n == fade * channels,
            rise == f * channels + c,
    ;
    assert(rise == channels * f + c) by (nonlinear_arith)
        requires
            rise == f * channels + c,
    ;
    lemma_fundamental_div_mod_converse(rise, channels, f, c);
    let j = n - (f + 1) * channels + c;
    assert(j == channels * (fade - f - 1) + c) by (nonlinear_arith)
        requires
            j == fade * channels - (f + 1) * channels + c,
    ;
    assert(0 <= j < n) by (nonlinear_arith)
        requires
            channels > 0,
            0 <= f < fade,
            0 <= c < channels,
            n == fade * channels,
            j == n - (f + 1) * channels + c,
    ;
    lemma_fundamental_div_mod_converse(j, channels, fade - f - 1, c);
    assert((frames - fade) * channels + j == (frames - f - 1) * channels + c) by (nonlinear_arith)
        requires
            j == fade * channels - (f + 1) * channels + c,
    ;
    assert(fade_steps(len, fade, channels)[n + j] == ((frames - fade) * channels + j, fade - j
        / channels));
}

/// A chunk is faded for five milliseconds at either end.
pub proof fn law_a_fade_lasts_five_milliseconds()
    ensures
        EDGE_FADE_FRAMES * 1000 == 5int * 48000,
{
}

}
