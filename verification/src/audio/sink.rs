//! What the audio output plays, sample by sample.
use crate::audio::queue::{answers, emptied, grew, lemma_grew, looked, stale, ChunkQueue};
use vstd::prelude::*;

verus! {

/// The number of channels: always stereo.
pub const CHANNELS: u16 = 2;

/// How many chunks can wait to be played.
pub const QUEUE_LIMIT: usize = 32;

/// Represents an audio chunk ready for playback.
#[derive(Debug)]
pub struct AudioChunk<T> {
    /// Interleaved stereo samples at target rate (48kHz)
    pub samples: Vec<T>,
    /// Sequential ID for tracking
    pub id: u64,
    /// Connection ID that requested this speech
    pub connection_id: u64,
    /// The epoch of the output in which it was enqueued: each halt begins another
    pub epoch: u64,
}

/// One sample of the output, and whether it is one of a chunk.
#[derive(Debug)]
pub struct PlayedSample<T> {
    pub sample: T,
    pub active: bool,
}

/// The chunk that is being played, and how far it has been.
#[derive(Debug)]
pub struct Playback<T> {
    chunk: Option<AudioChunk<T>>,
    position: usize,
}

/// One sample of the output: what remains of the chunk after it, the sample, and whether it is one
/// of the chunk.
pub open spec fn played<T>(remaining: Seq<T>, silence: T) -> (Seq<T>, T, bool) {
    if remaining.len() > 0 {
        (remaining.skip(1), remaining[0], true)
    } else {
        (remaining, silence, false)
    }
}

impl<T> View for Playback<T> {
    type V = Seq<T>;

    closed spec fn view(&self) -> Seq<T> {
        match self.chunk {
            Some(c) => c.samples@.skip(self.position as int),
            None => Seq::empty(),
        }
    }
}

impl<T> Playback<T> {
    /// The epoch of the chunk that is being played.
    pub closed spec fn epoch(&self) -> u64 {
        match self.chunk {
            Some(c) => c.epoch,
            None => 0,
        }
    }

    #[verifier::type_invariant]
    spec fn within(&self) -> bool {
        self.chunk matches Some(c) ==> self.position <= c.samples@.len()
    }
}

impl<T: Copy> Playback<T> {
    /// Nothing is being played.
    pub fn new() -> (r: Self)
        ensures
            r@.len() == 0,
    {
        Playback { chunk: None, position: 0 }
    }

    /// Whether the next chunk is needed for the next sample.
    pub fn needs_chunk(&self) -> (r: bool)
        ensures
            r == (self@.len() == 0),
    {
        proof {
            use_type_invariant(&*self);
        }
        match &self.chunk {
            Some(c) => self.position >= c.samples.len(),
            None => true,
        }
    }

    /// Begins with a chunk.
    pub fn load(&mut self, chunk: AudioChunk<T>)
        requires
            old(self)@.len() == 0,
        ensures
            final(self)@ == chunk.samples@,
            final(self).epoch() == chunk.epoch,
    {
        self.chunk = None;
        self.position = 0;
        let ghost samples = chunk.samples@;
        self.chunk = Some(chunk);
        assert(samples.skip(0) =~= samples);
    }

    /// Gives out the next sample.
    pub fn next_sample(&mut self, silence: T) -> (r: PlayedSample<T>)
        ensures
            (final(self)@, r.sample, r.active) == played(old(self)@, silence),
            final(self).epoch() == old(self).epoch(),
    {
        proof {
            use_type_invariant(&*self);
        }
        let mut sample: T = silence;
        let mut active = false;
        match &self.chunk {
            Some(c) => {
                if self.position < c.samples.len() {
                    sample = c.samples[self.position];
                    active = true;
                }
            },
            None => {},
        }
        let ghost before = self@;
        if active {
            self.position = self.position + 1;
            assert(self@ =~= before.skip(1));
        }
        PlayedSample { sample, active }
    }

    /// Drops the chunk that is being played.
    pub fn cancel(&mut self)
        ensures
            final(self)@.len() == 0,
    {
        self.chunk = None;
        self.position = 0;
    }

    /// Drops the chunk that is being played where it is of another epoch.
    pub fn catch_up(&mut self, epoch: u64)
        ensures
            final(self)@ == current(old(self)@, old(self).epoch(), epoch),
            final(self)@.len() > 0 ==> final(self).epoch() == epoch,
    {
        let stale = match &self.chunk {
            Some(c) => c.epoch != epoch,
            None => false,
        };
        if stale {
            self.cancel();
            assert(self@ =~= Seq::<T>::empty());
        }
    }
}

/// What is played on of a chunk: nothing where it is of another epoch.
pub open spec fn current<T>(remaining: Seq<T>, of: u64, epoch: u64) -> Seq<T> {
    if of == epoch {
        remaining
    } else {
        Seq::empty()
    }
}

/// The samples of a chunk, where there is one and it is of the epoch.
pub open spec fn fresh<T>(chunk: Option<AudioChunk<T>>, epoch: u64) -> Option<Seq<T>> {
    match chunk {
        Some(c) => if c.epoch == epoch {
            Some(c.samples@)
        } else {
            None
        },
        None => None,
    }
}

/// The state of the audio output: whether it was cancelled, whether it plays a chunk, and the epoch
/// of the chunks that it plays.
#[derive(Debug)]
pub struct AudioSink {
    pub sample_rate: u32,
    pub cancelled: bool,
    pub active: bool,
    pub epoch: u64,
}

/// Whether audio is actively playing or queued in the buffer.
pub open spec fn sounding(sink: AudioSink, queued: bool) -> bool {
    !sink.cancelled && (sink.active || queued)
}

/// The output after it was halted.
pub open spec fn halted(sink: AudioSink) -> AudioSink {
    AudioSink {
        sample_rate: sink.sample_rate,
        cancelled: true,
        active: false,
        epoch: sink.epoch.wrapping_add(1),
    }
}

impl AudioSink {
    /// An output that plays nothing.
    pub fn new(target_sample_rate: u32) -> (r: Self)
        ensures
            r == (AudioSink {
                sample_rate: target_sample_rate,
                cancelled: false,
                active: false,
                epoch: 0,
            }),
    {
        AudioSink { sample_rate: target_sample_rate, cancelled: false, active: false, epoch: 0 }
    }

    /// A mastered audio chunk is about to be enqueued for gapless playback. It is stamped with the
    /// epoch of the output.
    pub fn play_chunk<T>(&mut self, chunk: &mut AudioChunk<T>)
        ensures
            *final(self) == (AudioSink { cancelled: false, ..*old(self) }),
            sounding(*final(self), true),
            *final(chunk) == (AudioChunk { epoch: old(self).epoch, ..*old(chunk) }),
    {
        self.cancelled = false;
        chunk.epoch = self.epoch;
    }

    /// Takes note of whether the output plays a chunk.
    pub fn note_activity(&mut self, active: bool)
        ensures
            *final(self) == (AudioSink { active, ..*old(self) }),
    {
        self.active = active;
    }

    /// Instantly halts playback and flushes any buffered audio: nothing sounds until the next chunk
    /// is enqueued, and no chunk that was enqueued before is played any more.
    pub fn stop(&mut self)
        ensures
            *final(self) == halted(*old(self)),
            forall|queued: bool| !sounding(*final(self), queued),
    {
        self.cancelled = true;
        self.active = false;
        self.epoch = self.epoch.wrapping_add(1);
    }

    /// Returns true if audio is actively playing or queued in the buffer.
    #[must_use]
    pub fn is_playing(&self, queued: bool) -> (r: bool)
        ensures
            r == sounding(*self, queued),
    {
        !self.cancelled && (self.active || queued)
    }

    #[must_use]
    pub fn sample_rate(&self) -> (r: u32)
        ensures
            r == self.sample_rate,
    {
        self.sample_rate
    }

    #[must_use]
    pub fn channels(&self) -> (r: u16)
        ensures
            r == CHANNELS,
    {
        CHANNELS
    }
}

/// A halt flushes what was enqueued before it: neither the chunk that is being played nor one that
/// waits sounds on, even where the next chunk is enqueued at once.
pub proof fn law_a_halt_flushes_the_output<T>(
    sink: AudioSink,
    remaining: Seq<T>,
    chunk: AudioChunk<T>,
)
    requires
        chunk.epoch == sink.epoch,
    ensures
        current(remaining, sink.epoch, halted(sink).epoch).len() == 0,
        fresh(Some(chunk), halted(sink).epoch) is None,
{
}

/// The output of one sample for each of the arrivals: the samples, what remains of the chunk that
/// is being played, and whether the last sample is one of a chunk. An arrival is the chunk that
/// comes when the sample is due, and is taken only where nothing remains of the one before.
pub open spec fn rendered<T>(
    remaining: Seq<T>,
    active: bool,
    arrivals: Seq<Option<Seq<T>>>,
    silence: T,
) -> (Seq<T>, Seq<T>, bool)
    decreases arrivals.len(),
{
    if arrivals.len() == 0 {
        (Seq::empty(), remaining, active)
    } else {
        let (out, rest, _) = rendered(remaining, active, arrivals.drop_last(), silence);
        let (next, sample, now) = played(
            match arrivals.last() {
                Some(chunk) if rest.len() == 0 => chunk,
                _ => rest,
            },
            silence,
        );
        (out.push(sample), next, now)
    }
}

/// Whether a chunk is asked for at sample `i`: nothing remains of the one before.
pub open spec fn asks<T>(
    remaining: Seq<T>,
    active: bool,
    arrivals: Seq<Option<Seq<T>>>,
    silence: T,
    i: int,
) -> bool {
    rendered(remaining, active, arrivals.take(i), silence).1.len() == 0
}

/// The output of two stretches is that of the first and then that of the second, which goes on
/// where the first has ended.
pub proof fn law_output_is_continuous<T>(
    remaining: Seq<T>,
    active: bool,
    first: Seq<Option<Seq<T>>>,
    second: Seq<Option<Seq<T>>>,
    silence: T,
)
    ensures
        ({
            let (out, rest, now) = rendered(remaining, active, first, silence);
            let (more, end, last) = rendered(rest, now, second, silence);
            rendered(remaining, active, first + second, silence) == (out + more, end, last)
        }),
    decreases second.len(),
{
    let (out, rest, now) = rendered(remaining, active, first, silence);
    if second.len() == 0 {
        assert(first + second =~= first);
        assert(out + Seq::<T>::empty() =~= out);
    } else {
        let init = second.drop_last();
        law_output_is_continuous(remaining, active, first, init, silence);
        assert((first + second).drop_last() =~= first + init);
        let (more, _, _) = rendered(rest, now, init, silence);
        let (all, _, _) = rendered(rest, now, second, silence);
        assert((out + more).push(all.last()) =~= out + all);
    }
}

proof fn lemma_the_rest_is_played<T>(
    rest: Seq<T>,
    active: bool,
    arrivals: Seq<Option<Seq<T>>>,
    silence: T,
)
    requires
        arrivals.len() <= rest.len(),
    ensures
        ({
            let (out, next, now) = rendered(rest, active, arrivals, silence);
            &&& out == rest.take(arrivals.len() as int)
            &&& next == rest.skip(arrivals.len() as int)
            &&& now == (active || arrivals.len() > 0)
        }),
    decreases arrivals.len(),
{
    let n = arrivals.len() as int;
    if n == 0 {
        assert(rest.take(0) =~= Seq::<T>::empty());
        assert(rest.skip(0) =~= rest);
    } else {
        lemma_the_rest_is_played(rest, active, arrivals.drop_last(), silence);
        assert(rest.take(n - 1).push(rest[n - 1]) =~= rest.take(n));
        assert(rest.skip(n - 1).skip(1) =~= rest.skip(n));
    }
}

/// A chunk is played whole: where one begins, all of its samples come out in order, whatever else
/// arrives in the meantime, and nothing remains of it.
pub proof fn law_a_chunk_is_played_whole<T>(
    chunk: Seq<T>,
    active: bool,
    others: Seq<Option<Seq<T>>>,
    silence: T,
)
    requires
        others.len() + 1 == chunk.len(),
    ensures
        rendered(Seq::empty(), active, seq![Some(chunk)] + others, silence) == (
            chunk,
            Seq::<T>::empty(),
            true,
        ),
{
    let first = seq![Some(chunk)];
    let none = Seq::<T>::empty();
    assert(first.drop_last() =~= Seq::<Option<Seq<T>>>::empty());
    assert(rendered(none, active, first.drop_last(), silence) == (none, none, active));
    law_output_is_continuous(none, active, first, others, silence);
    lemma_the_rest_is_played(chunk.skip(1), true, others, silence);
    let (begun, rest, now) = rendered(none, active, first, silence);
    assert(begun =~= seq![chunk[0]]);
    assert(chunk.skip(1).take(others.len() as int) =~= chunk.skip(1));
    assert(chunk.skip(1).skip(others.len() as int) =~= none);
    assert(seq![chunk[0]] + chunk.skip(1) =~= chunk);
}

/// Playback is gapless: where one chunk follows the other as soon as it is asked for, the samples
/// of the second come directly behind those of the first.
pub proof fn law_playback_is_gapless<T>(
    a: Seq<T>,
    b: Seq<T>,
    active: bool,
    during_a: Seq<Option<Seq<T>>>,
    during_b: Seq<Option<Seq<T>>>,
    silence: T,
)
    requires
        during_a.len() + 1 == a.len(),
        during_b.len() + 1 == b.len(),
    ensures
        rendered(
            Seq::empty(),
            active,
            (seq![Some(a)] + during_a) + (seq![Some(b)] + during_b),
            silence,
        ) == (a + b, Seq::<T>::empty(), true),
{
    let none = Seq::<T>::empty();
    law_a_chunk_is_played_whole(a, active, during_a, silence);
    law_a_chunk_is_played_whole(b, true, during_b, silence);
    law_output_is_continuous(
        none,
        active,
        seq![Some(a)] + during_a,
        seq![Some(b)] + during_b,
        silence,
    );
}

/// Where nothing is being played and nothing arrives, there is silence.
pub proof fn law_nothing_to_play_is_silence<T>(n: nat, active: bool, silence: T)
    ensures
        ({
            let (out, rest, now) = rendered(
                Seq::empty(),
                active,
                Seq::new(n, |i: int| None::<Seq<T>>),
                silence,
            );
            &&& out == Seq::new(n, |i: int| silence)
            &&& rest.len() == 0
            &&& n > 0 ==> !now
        }),
    decreases n,
{
    let arrivals = Seq::new(n, |i: int| None::<Seq<T>>);
    if n > 0 {
        let fewer = (n - 1) as nat;
        law_nothing_to_play_is_silence(fewer, active, silence);
        assert(arrivals.drop_last() =~= Seq::new(fewer, |i: int| None::<Seq<T>>));
        assert(Seq::new(fewer, |i: int| silence).push(silence) =~= Seq::new(n, |i: int| silence));
    } else {
        assert(Seq::new(n, |i: int| silence) =~= Seq::<T>::empty());
    }
}

/// The chunk that a look for one has found: its last answer, where that one is of the epoch.
pub open spec fn arrival<T>(answers: Seq<Option<AudioChunk<T>>>, epoch: u64) -> Option<Seq<T>> {
    if answers.len() == 0 {
        None
    } else {
        fresh(answers.last(), epoch)
    }
}

/// What has arrived for each of the samples, where `looks` holds the answers that each has asked
/// for.
pub open spec fn arrivals<T>(looks: Seq<Seq<Option<AudioChunk<T>>>>, epoch: u64) -> Seq<
    Option<Seq<T>>,
> {
    looks.map_values(|answers: Seq<Option<AudioChunk<T>>>| arrival(answers, epoch))
}

/// All answers, in order.
pub open spec fn in_a_row<T>(looks: Seq<Seq<Option<AudioChunk<T>>>>) -> Seq<Option<AudioChunk<T>>>
    decreases looks.len(),
{
    if looks.len() == 0 {
        Seq::empty()
    } else {
        in_a_row(looks.drop_last()) + looks.last()
    }
}

/// Whether each sample looks for a chunk where nothing remains of the one before, and no other
/// sample does.
#[verifier::opaque]
pub open spec fn looks_when_due<T>(
    start: Seq<T>,
    active: bool,
    epoch: u64,
    looks: Seq<Seq<Option<AudioChunk<T>>>>,
    silence: T,
) -> bool {
    forall|i: int|
        0 <= i < looks.len() ==> if asks(start, active, arrivals(looks, epoch), silence, i) {
            looked(#[trigger] looks[i], epoch)
        } else {
            looks[i].len() == 0
        }
}

/// Whether a stretch of the output came about by the looks: they have given these answers in this
/// order, and the output is that of what has arrived.
pub open spec fn filled<T>(
    start: Seq<T>,
    active: bool,
    epoch: u64,
    silence: T,
    looks: Seq<Seq<Option<AudioChunk<T>>>>,
    answers: Seq<Option<AudioChunk<T>>>,
    end: (Seq<T>, Seq<T>, bool),
) -> bool {
    &&& looks.len() == end.0.len()
    &&& in_a_row(looks) == answers
    &&& looks_when_due(start, active, epoch, looks, silence)
    &&& rendered(start, active, arrivals(looks, epoch), silence) == end
}

impl<T: Copy> Playback<T> {
    /// Fills a stretch of the output with the chunks that wait. A cancelled output is silent, and
    /// drops the chunk that is being played and those that wait.
    pub fn fill(
        &mut self,
        sink: &mut AudioSink,
        queue: &mut ChunkQueue<T>,
        silence: T,
        data: &mut [T],
    )
        ensures
            final(data)@.len() == old(data)@.len(),
            grew(*old(queue), *final(queue)),
            old(sink).cancelled ==> {
                &&& forall|i: int| 0 <= i < final(data)@.len() ==> final(data)@[i] == silence
                &&& final(self)@.len() == 0
                &&& *final(sink) == (AudioSink { active: false, ..*old(sink) })
                &&& emptied(answers(*old(queue), *final(queue)))
            },
            !old(sink).cancelled ==> {
                &&& exists|looks: Seq<Seq<Option<AudioChunk<T>>>>| #[trigger]
                    filled(
                        current(old(self)@, old(self).epoch(), old(sink).epoch),
                        old(sink).active,
                        old(sink).epoch,
                        silence,
                        looks,
                        answers(*old(queue), *final(queue)),
                        (final(data)@, final(self)@, final(sink).active),
                    )
                &&& *final(sink) == (AudioSink { active: final(sink).active, ..*old(sink) })
                &&& final(self)@.len() > 0 ==> final(self).epoch() == old(sink).epoch
            },
    {
        let n: usize = data.len();
        let mut i: usize = 0;
        if sink.cancelled {
            while i < n
                invariant
                    i <= n,
                    n == data@.len(),
                    forall|j: int| 0 <= j < i ==> data@[j] == silence,
                decreases n - i,
            {
                data[i] = silence;
                i += 1;
            }
            self.cancel();
            queue.drain();
            sink.note_activity(false);
            return;
        }
        let epoch: u64 = sink.epoch;
        self.catch_up(epoch);
        let ghost start = self@;
        let ghost was_active = sink.active;
        let ghost mut looks = Seq::<Seq<Option<AudioChunk<T>>>>::empty();
        assert(data@.take(0) =~= Seq::<T>::empty());
        assert(answers(*queue, *queue) =~= Seq::<Option<AudioChunk<T>>>::empty());
        assert(looks_when_due(start, was_active, epoch, looks, silence)) by {
            reveal(looks_when_due);
        }
        while i < n
            invariant
                i <= n,
                n == data@.len(),
                epoch == sink.epoch,
                looks.len() == i,
                grew(*old(queue), *queue),
                in_a_row(looks) == answers(*old(queue), *queue),
                looks_when_due(start, was_active, epoch, looks, silence),
                rendered(start, was_active, arrivals(looks, epoch), silence) == (
                    data@.take(i as int),
                    self@,
                    sink.active,
                ),
                self@.len() > 0 ==> self.epoch() == epoch,
                *sink == (AudioSink { active: sink.active, ..*old(sink) }),
            decreases n - i,
        {
            let ghost before = looks;
            let ghost earlier = *queue;
            let ghost done = data@;
            let mut arrival: Option<AudioChunk<T>> = None;
            if self.needs_chunk() {
                arrival = queue.poll_fresh(epoch);
            }
            proof {
                let now = answers(earlier, *queue);
                assert(grew(earlier, *queue));
                lemma_grew(*old(queue), earlier, *queue);
                assert(*queue == earlier ==> now =~= Seq::empty());
                looks = looks.push(now);
                assert(looks.drop_last() =~= before);
                lemma_one_look_more(start, was_active, epoch, before, now, silence);
                assert(arrivals(looks, epoch).drop_last() =~= arrivals(before, epoch));
                assert(arrivals(looks, epoch).last() == fresh(arrival, epoch));
                assert(in_a_row(looks) == in_a_row(before) + now);
            }
            match arrival {
                Some(chunk) => self.load(chunk),
                None => {},
            }
            let p = self.next_sample(silence);
            sink.note_activity(p.active);
            data[i] = p.sample;
            assert(data@.take(i + 1) =~= done.take(i as int).push(p.sample));
            i += 1;
        }
        assert(data@.take(n as int) =~= data@);
        assert(filled(
            start,
            was_active,
            epoch,
            silence,
            looks,
            answers(*old(queue), *queue),
            (data@, self@, sink.active),
        ));
    }
}

proof fn lemma_one_look_more<T>(
    start: Seq<T>,
    active: bool,
    epoch: u64,
    looks: Seq<Seq<Option<AudioChunk<T>>>>,
    now: Seq<Option<AudioChunk<T>>>,
    silence: T,
)
    requires
        looks_when_due(start, active, epoch, looks, silence),
        if rendered(start, active, arrivals(looks, epoch), silence).1.len() == 0 {
            looked(now, epoch)
        } else {
            now.len() == 0
        },
    ensures
        looks_when_due(start, active, epoch, looks.push(now), silence),
{
    reveal(looks_when_due);
    let more = looks.push(now);
    assert forall|i: int| 0 <= i < more.len() implies if asks(
        start,
        active,
        arrivals(more, epoch),
        silence,
        i,
    ) {
        looked(#[trigger] more[i], epoch)
    } else {
        more[i].len() == 0
    } by {
        assert(arrivals(more, epoch).take(i) =~= arrivals(looks, epoch).take(i));
        if i < looks.len() {
            assert(more[i] == looks[i]);
            assert(asks(start, active, arrivals(looks, epoch), silence, i) == asks(
                start,
                active,
                arrivals(more, epoch),
                silence,
                i,
            ));
        } else {
            assert(arrivals(looks, epoch).take(i) =~= arrivals(looks, epoch));
        }
    }
}

/// The samples of the chunks of the epoch among the answers, one chunk behind the other.
pub open spec fn fresh_samples<T>(answers: Seq<Option<AudioChunk<T>>>, epoch: u64) -> Seq<T>
    decreases answers.len(),
{
    if answers.len() == 0 {
        Seq::empty()
    } else {
        let before = fresh_samples(answers.drop_last(), epoch);
        match fresh(answers.last(), epoch) {
            Some(samples) => before + samples,
            None => before,
        }
    }
}

/// The samples of the output that are those of chunks, in order.
pub open spec fn heard<T>(
    remaining: Seq<T>,
    active: bool,
    arrivals: Seq<Option<Seq<T>>>,
    silence: T,
) -> Seq<T>
    decreases arrivals.len(),
{
    if arrivals.len() == 0 {
        Seq::empty()
    } else {
        let before = heard(remaining, active, arrivals.drop_last(), silence);
        let (out, _, now) = rendered(remaining, active, arrivals, silence);
        if now {
            before.push(out.last())
        } else {
            before
        }
    }
}

proof fn lemma_fresh_samples<T>(
    a: Seq<Option<AudioChunk<T>>>,
    b: Seq<Option<AudioChunk<T>>>,
    epoch: u64,
)
    ensures
        fresh_samples(a + b, epoch) == fresh_samples(a, epoch) + fresh_samples(b, epoch),
    decreases b.len(),
{
    if b.len() == 0 {
        assert(a + b =~= a);
        assert(fresh_samples(a, epoch) + fresh_samples(b, epoch) =~= fresh_samples(a, epoch));
    } else {
        lemma_fresh_samples(a, b.drop_last(), epoch);
        assert((a + b).drop_last() =~= a + b.drop_last());
        assert(fresh_samples(a + b, epoch) =~= fresh_samples(a, epoch) + fresh_samples(b, epoch));
    }
}

proof fn lemma_stale_samples<T>(answers: Seq<Option<AudioChunk<T>>>, epoch: u64)
    requires
        forall|k: int| 0 <= k < answers.len() ==> fresh(#[trigger] answers[k], epoch) is None,
    ensures
        fresh_samples(answers, epoch).len() == 0,
    decreases answers.len(),
{
    if answers.len() > 0 {
        let init = answers.drop_last();
        assert forall|k: int| 0 <= k < init.len() implies fresh(#[trigger] init[k], epoch) is None by {
            assert(init[k] == answers[k]);
        }
        lemma_stale_samples(init, epoch);
        assert(answers.last() == answers[answers.len() - 1]);
    }
}

proof fn lemma_samples_of_a_look<T>(answers: Seq<Option<AudioChunk<T>>>, epoch: u64)
    requires
        looked(answers, epoch),
    ensures
        fresh_samples(answers, epoch) == (match arrival(answers, epoch) {
            Some(samples) => samples,
            None => Seq::empty(),
        }),
{
    let init = answers.drop_last();
    assert forall|k: int| 0 <= k < init.len() implies fresh(#[trigger] init[k], epoch) is None by {
        assert(stale(answers[k], epoch));
    }
    lemma_stale_samples(init, epoch);
    assert(fresh_samples(init, epoch) =~= Seq::<T>::empty());
    if let Some(samples) = fresh(answers.last(), epoch) {
        assert(fresh_samples(init, epoch) + samples =~= samples);
    }
}

proof fn lemma_due<T>(
    start: Seq<T>,
    active: bool,
    epoch: u64,
    looks: Seq<Seq<Option<AudioChunk<T>>>>,
    silence: T,
    i: int,
)
    requires
        looks_when_due(start, active, epoch, looks, silence),
        0 <= i < looks.len(),
    ensures
        if asks(start, active, arrivals(looks, epoch), silence, i) {
            looked(looks[i], epoch)
        } else {
            looks[i].len() == 0
        },
{
    reveal(looks_when_due);
}

proof fn lemma_looks_before<T>(
    start: Seq<T>,
    active: bool,
    epoch: u64,
    looks: Seq<Seq<Option<AudioChunk<T>>>>,
    silence: T,
    n: int,
)
    requires
        looks_when_due(start, active, epoch, looks, silence),
        0 <= n <= looks.len(),
    ensures
        looks_when_due(start, active, epoch, looks.take(n), silence),
        arrivals(looks.take(n), epoch) == arrivals(looks, epoch).take(n),
{
    reveal(looks_when_due);
    let some = looks.take(n);
    assert(arrivals(some, epoch) =~= arrivals(looks, epoch).take(n));
    assert forall|i: int| 0 <= i < some.len() implies if asks(
        start,
        active,
        arrivals(some, epoch),
        silence,
        i,
    ) {
        looked(#[trigger] some[i], epoch)
    } else {
        some[i].len() == 0
    } by {
        assert(some[i] == looks[i]);
        assert(arrivals(some, epoch).take(i) =~= arrivals(looks, epoch).take(i));
        assert(asks(start, active, arrivals(looks, epoch), silence, i) == asks(
            start,
            active,
            arrivals(some, epoch),
            silence,
            i,
        ));
    }
}

/// Every chunk that is taken out of the queue and is of the epoch is played once, whole and in
/// order: what is heard, and what then remains, is what remained before and then the samples of
/// those chunks.
pub proof fn law_every_chunk_taken_is_played<T>(
    start: Seq<T>,
    active: bool,
    epoch: u64,
    silence: T,
    looks: Seq<Seq<Option<AudioChunk<T>>>>,
    answers: Seq<Option<AudioChunk<T>>>,
    end: (Seq<T>, Seq<T>, bool),
)
    requires
        filled(start, active, epoch, silence, looks, answers, end),
    ensures
        heard(start, active, arrivals(looks, epoch), silence) + end.1 == start + fresh_samples(
            answers,
            epoch,
        ),
{
    lemma_taken_is_played(start, active, epoch, silence, looks);
}

#[verifier::spinoff_prover]
#[verifier::rlimit(40)]
proof fn lemma_taken_is_played<T>(
    start: Seq<T>,
    active: bool,
    epoch: u64,
    silence: T,
    looks: Seq<Seq<Option<AudioChunk<T>>>>,
)
    requires
        looks_when_due(start, active, epoch, looks, silence),
    ensures
        heard(start, active, arrivals(looks, epoch), silence) + rendered(
            start,
            active,
            arrivals(looks, epoch),
            silence,
        ).1 == start + fresh_samples(in_a_row(looks), epoch),
    decreases looks.len(),
{
    let came = arrivals(looks, epoch);
    if looks.len() == 0 {
        assert(heard(start, active, came, silence) + start =~= start + fresh_samples(
            in_a_row(looks),
            epoch,
        ));
    } else {
        let n = looks.len() - 1;
        let init = looks.drop_last();
        assert(looks.take(n) =~= init);
        lemma_looks_before(start, active, epoch, looks, silence, n);
        lemma_taken_is_played(start, active, epoch, silence, init);
        assert(came.take(n) =~= came.drop_last());
        lemma_fresh_samples(in_a_row(init), looks.last(), epoch);
        let before = heard(start, active, arrivals(init, epoch), silence);
        let (_, rest, _) = rendered(start, active, arrivals(init, epoch), silence);
        let (_, end, _) = rendered(start, active, came, silence);
        let all = heard(start, active, came, silence);
        let more = fresh_samples(looks.last(), epoch);
        assert(looks.last() == looks[n]);
        lemma_due(start, active, epoch, looks, silence, n);
        if asks(start, active, came, silence, n) {
            lemma_samples_of_a_look(looks.last(), epoch);
            assert(rest =~= Seq::<T>::empty());
            if more.len() > 0 {
                assert(before.push(more[0]) + more.skip(1) =~= before + rest + more);
            } else {
                assert(all + end =~= before + rest + more);
            }
        } else {
            assert(more =~= Seq::<T>::empty());
            assert(before.push(rest[0]) + rest.skip(1) =~= before + rest + more);
        }
        assert(all + end =~= before + rest + more);
        assert(start + fresh_samples(in_a_row(init), epoch) + more =~= start + fresh_samples(
            in_a_row(looks),
            epoch,
        ));
    }
}

proof fn lemma_row<T>(looks: Seq<Seq<Option<AudioChunk<T>>>>, i: int, n: int)
    requires
        0 <= i <= n <= looks.len(),
    ensures
        in_a_row(looks.take(i)).is_prefix_of(in_a_row(looks.take(n))),
        i < n ==> (in_a_row(looks.take(i)) + looks[i]).is_prefix_of(in_a_row(looks.take(n))),
    decreases n - i,
{
    if i < n {
        let a = looks.take(n - 1);
        let b = looks.take(n);
        assert(b.drop_last() =~= a);
        lemma_row(looks, i, n - 1);
        let x = in_a_row(looks.take(i));
        let y = in_a_row(a);
        let z = in_a_row(b);
        assert(b.last() == looks[n - 1]);
        assert(z == y + looks[n - 1]);
        assert(x =~= z.subrange(0, x.len() as int)) by {
            assert(x == y.subrange(0, x.len() as int));
        }
        if i < n - 1 {
            let w = x + looks[i];
            assert(w == y.subrange(0, w.len() as int));
            assert(w =~= z.subrange(0, w.len() as int));
        } else {
            assert(x + looks[i] =~= z.subrange(0, (x + looks[i]).len() as int));
        }
    }
}

/// A chunk that waits is played at once: where a sample asks for one and the next answer is a chunk
/// of the epoch, its samples come out from there on, and the sample behind them asks for the answer
/// after it.
#[verifier::spinoff_prover]
#[verifier::rlimit(40)]
pub proof fn law_what_waits_is_played_at_once<T>(
    start: Seq<T>,
    active: bool,
    epoch: u64,
    silence: T,
    looks: Seq<Seq<Option<AudioChunk<T>>>>,
    answers: Seq<Option<AudioChunk<T>>>,
    end: (Seq<T>, Seq<T>, bool),
    i: int,
    chunk: AudioChunk<T>,
)
    requires
        filled(start, active, epoch, silence, looks, answers, end),
        0 <= i,
        i + chunk.samples@.len() <= end.0.len(),
        chunk.samples@.len() > 0,
        chunk.epoch == epoch,
        asks(start, active, arrivals(looks, epoch), silence, i),
        answers[in_a_row(looks.take(i)).len() as int] == Some(chunk),
    ensures
        ({
            let after = i + chunk.samples@.len();
            &&& end.0.subrange(i, after) == chunk.samples@
            &&& asks(start, active, arrivals(looks, epoch), silence, after)
            &&& in_a_row(looks.take(after)).len() == in_a_row(looks.take(i)).len() + 1
        }),
{
    let came = arrivals(looks, epoch);
    let samples = chunk.samples@;
    let m = samples.len() as int;
    let none = Seq::<T>::empty();
    let k = in_a_row(looks.take(i)).len() as int;
    lemma_row(looks, i, looks.len() as int);
    assert(looks.take(looks.len() as int) =~= looks);
    let x = in_a_row(looks.take(i)) + looks[i];
    lemma_due(start, active, epoch, looks, silence, i);
    assert(looked(looks[i], epoch));
    assert(x == answers.subrange(0, x.len() as int));
    assert(x[k] == looks[i][0]);
    assert(answers.subrange(0, x.len() as int)[k] == answers[k]);
    assert(fresh(looks[i][0], epoch) is Some);
    assert(looks[i].len() == 1) by {
        if looks[i].len() > 1 {
            assert(stale(looks[i][0], epoch));
        }
    }
    assert(came[i] == Some(samples));
    let (out0, rest0, now0) = rendered(start, active, came.take(i), silence);
    assert(rest0 =~= none);
    assert forall|j: int| 1 <= j <= m implies rendered(
        start,
        active,
        #[trigger] came.take(i + j),
        silence,
    ) == (out0 + samples.take(j), samples.skip(j), true) && in_a_row(looks.take(i + j)).len() == k
        + 1 by {
        lemma_playing_on(start, active, epoch, silence, looks, samples, i, j);
    }
    assert(came.take(i + m) == came.take(i + m));
    let others = came.skip(i + m);
    assert(came =~= came.take(i + m) + others);
    law_output_is_continuous(start, active, came.take(i + m), others, silence);
    lemma_output_length(start, active, came.take(i), silence);
    assert(samples.take(m) =~= samples);
    assert(samples.skip(m) =~= none);
    assert(end.0.subrange(i, i + m) =~= samples);
}

proof fn lemma_output_length<T>(
    remaining: Seq<T>,
    active: bool,
    arrivals: Seq<Option<Seq<T>>>,
    silence: T,
)
    ensures
        rendered(remaining, active, arrivals, silence).0.len() == arrivals.len(),
    decreases arrivals.len(),
{
    if arrivals.len() > 0 {
        lemma_output_length(remaining, active, arrivals.drop_last(), silence);
    }
}

#[verifier::spinoff_prover]
#[verifier::rlimit(40)]
proof fn lemma_playing_on<T>(
    start: Seq<T>,
    active: bool,
    epoch: u64,
    silence: T,
    looks: Seq<Seq<Option<AudioChunk<T>>>>,
    samples: Seq<T>,
    i: int,
    j: int,
)
    requires
        looks_when_due(start, active, epoch, looks, silence),
        0 <= i,
        1 <= j <= samples.len(),
        i + j <= looks.len(),
        asks(start, active, arrivals(looks, epoch), silence, i),
        arrivals(looks, epoch)[i] == Some(samples),
        looks[i].len() == 1,
    ensures
        rendered(start, active, arrivals(looks, epoch).take(i + j), silence) == (
            rendered(start, active, arrivals(looks, epoch).take(i), silence).0 + samples.take(j),
            samples.skip(j),
            true,
        ),
        in_a_row(looks.take(i + j)).len() == in_a_row(looks.take(i)).len() + 1,
    decreases j,
{
    let came = arrivals(looks, epoch);
    let n = i + j - 1;
    lemma_rendered_on(start, active, came, silence, samples, i, j);
    lemma_row_step(looks, n);
    if j > 1 {
        lemma_playing_on(start, active, epoch, silence, looks, samples, i, j - 1);
        assert(!asks(start, active, came, silence, n)) by {
            assert(samples.skip(j - 1).len() > 0);
        }
        lemma_due(start, active, epoch, looks, silence, n);
        assert(looks[n].len() == 0);
    }
}

proof fn lemma_rendered_on<T>(
    start: Seq<T>,
    active: bool,
    came: Seq<Option<Seq<T>>>,
    silence: T,
    samples: Seq<T>,
    i: int,
    j: int,
)
    requires
        0 <= i,
        1 <= j <= samples.len(),
        i + j <= came.len(),
        asks(start, active, came, silence, i),
        came[i] == Some(samples),
    ensures
        rendered(start, active, came.take(i + j), silence) == (
            rendered(start, active, came.take(i), silence).0 + samples.take(j),
            samples.skip(j),
            true,
        ),
    decreases j,
{
    let out0 = rendered(start, active, came.take(i), silence).0;
    lemma_step(start, active, came, silence, i + j - 1);
    if j == 1 {
        assert(out0.push(samples[0]) =~= out0 + samples.take(1));
    } else {
        lemma_rendered_on(start, active, came, silence, samples, i, j - 1);
        let rest = samples.skip(j - 1);
        assert(rest.len() > 0 && rest[0] == samples[j - 1]);
        assert(rest.skip(1) =~= samples.skip(j));
        assert((out0 + samples.take(j - 1)).push(samples[j - 1]) =~= out0 + samples.take(j));
    }
}

proof fn lemma_step<T>(
    start: Seq<T>,
    active: bool,
    came: Seq<Option<Seq<T>>>,
    silence: T,
    n: int,
)
    requires
        0 <= n < came.len(),
    ensures
        ({
            let (out, rest, _) = rendered(start, active, came.take(n), silence);
            let (next, sample, now) = played(
                match came[n] {
                    Some(chunk) if rest.len() == 0 => chunk,
                    _ => rest,
                },
                silence,
            );
            rendered(start, active, came.take(n + 1), silence) == (out.push(sample), next, now)
        }),
{
    assert(came.take(n + 1).drop_last() =~= came.take(n));
}

proof fn lemma_row_step<T>(looks: Seq<Seq<Option<AudioChunk<T>>>>, n: int)
    requires
        0 <= n < looks.len(),
    ensures
        in_a_row(looks.take(n + 1)) == in_a_row(looks.take(n)) + looks[n],
{
    assert(looks.take(n + 1).drop_last() =~= looks.take(n));
}

/// Two chunks that wait on an idle output come out directly one behind the other.
#[verifier::spinoff_prover]
#[verifier::rlimit(40)]
pub proof fn law_two_chunks_that_wait_are_played_without_a_gap<T>(
    active: bool,
    epoch: u64,
    silence: T,
    looks: Seq<Seq<Option<AudioChunk<T>>>>,
    answers: Seq<Option<AudioChunk<T>>>,
    end: (Seq<T>, Seq<T>, bool),
    a: AudioChunk<T>,
    b: AudioChunk<T>,
)
    requires
        filled(Seq::empty(), active, epoch, silence, looks, answers, end),
        a.epoch == epoch,
        b.epoch == epoch,
        a.samples@.len() > 0,
        b.samples@.len() > 0,
        a.samples@.len() + b.samples@.len() <= end.0.len(),
        answers[0] == Some(a),
        answers[1] == Some(b),
    ensures
        end.0.take((a.samples@.len() + b.samples@.len()) as int) == a.samples@ + b.samples@,
{
    let none = Seq::<T>::empty();
    let came = arrivals(looks, epoch);
    let n = a.samples@.len() as int;
    let m = b.samples@.len() as int;
    assert(came.take(0) =~= Seq::<Option<Seq<T>>>::empty());
    assert(asks(none, active, came, silence, 0));
    assert(looks.take(0) =~= Seq::<Seq<Option<AudioChunk<T>>>>::empty());
    assert(in_a_row(looks.take(0)).len() == 0);
    law_what_waits_is_played_at_once(none, active, epoch, silence, looks, answers, end, 0, a);
    law_what_waits_is_played_at_once(none, active, epoch, silence, looks, answers, end, n, b);
    assert(end.0.take(n + m) =~= end.0.subrange(0, n) + end.0.subrange(n, n + m));
}

/// An output that was not cancelled sounds for as long as it plays a chunk or one waits, and an
/// output that was halted does not, whatever it plays and whatever waits.
pub proof fn law_an_output_sounds_until_it_is_halted(sink: AudioSink, queued: bool)
    ensures
        !sink.cancelled && sink.active ==> sounding(sink, queued),
        !sink.cancelled && queued ==> sounding(sink, queued),
        !sink.active && !queued ==> !sounding(sink, queued),
        sink.cancelled ==> !sounding(sink, queued),
        !sounding(halted(sink), queued),
        halted(sink).epoch != sink.epoch,
        halted(sink).sample_rate == sink.sample_rate,
        CHANNELS == 2,
        QUEUE_LIMIT == 32,
{
}

/// One sample after the other is played: the first that remains, and silence where none does.
pub proof fn law_samples_are_played_in_order<T>(remaining: Seq<T>, silence: T)
    ensures
        remaining.len() > 0 ==> played(remaining, silence).1 == remaining[0] && seq![
            remaining[0],
        ] + played(remaining, silence).0 == remaining && played(remaining, silence).2,
        remaining.len() == 0 ==> played(remaining, silence).1 == silence && played(
            remaining,
            silence,
        ).0.len() == 0 && !played(remaining, silence).2,
{
    if remaining.len() > 0 {
        assert(seq![remaining[0]] + remaining.skip(1) =~= remaining);
    }
}

}
