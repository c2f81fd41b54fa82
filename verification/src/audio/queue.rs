//! The chunks that wait to be played: the trusted call into the `crossbeam-channel` crate, and a
//! queue that remembers what it has given.
use crate::audio::sink::{fresh, AudioChunk, QUEUE_LIMIT};
use vstd::prelude::*;

verus! {

/// The receiving end of a channel of the `crossbeam-channel` crate.
#[verifier::external_type_specification]
#[verifier::external_body]
#[verifier::reject_recursive_types(T)]
pub struct ExReceiver<T>(crossbeam_channel::Receiver<T>);

/// `crossbeam_channel::Receiver::try_recv`: the chunk that waits in the channel, where there is
/// one. Which one that is depends on the threads that send, and is not stated.
#[verifier::external_body]
fn take_queued<T>(queue: &crossbeam_channel::Receiver<AudioChunk<T>>) -> Option<AudioChunk<T>> {
    queue.try_recv().ok()
}

/// Calls a function.
fn call<Q, R, F: Fn(&Q) -> R>(f: &F, argument: &Q) -> (r: R)
    requires
        call_requires(*f, (argument,)),
    ensures
        call_ensures(*f, (argument,), r),
{
    f(argument)
}

/// Whether the answer, a chunk or none, is one that a look into the channel can give.
pub closed spec fn received<T>(
    channel: crossbeam_channel::Receiver<AudioChunk<T>>,
    answer: Option<AudioChunk<T>>,
) -> bool {
    call_ensures(take_queued::<T>, (&channel,), answer)
}

/// The receiving end of a channel of chunks, and the answers that it has given so far.
#[verifier::reject_recursive_types(T)]
pub struct ChunkQueue<T> {
    receiver: crossbeam_channel::Receiver<AudioChunk<T>>,
    taken: Ghost<Seq<Option<AudioChunk<T>>>>,
}

/// Whether the queue has only given more answers, each of them one of its channel.
pub open spec fn grew<T>(before: ChunkQueue<T>, after: ChunkQueue<T>) -> bool {
    &&& after.channel() == before.channel()
    &&& before.taken().is_prefix_of(after.taken())
    &&& forall|k: int|
        before.taken().len() <= k < after.taken().len() ==> received(
            before.channel(),
            #[trigger] after.taken()[k],
        )
}

/// The answers that the queue has given in the meantime, in order.
pub open spec fn answers<T>(before: ChunkQueue<T>, after: ChunkQueue<T>) -> Seq<
    Option<AudioChunk<T>>,
> {
    after.taken().skip(before.taken().len() as int)
}

/// What a queue gives in two stretches is what it gives in the first and then in the second.
pub proof fn lemma_grew<T>(a: ChunkQueue<T>, b: ChunkQueue<T>, c: ChunkQueue<T>)
    requires
        grew(a, b),
        grew(b, c),
    ensures
        grew(a, c),
        answers(a, c) == answers(a, b) + answers(b, c),
{
    assert forall|k: int| 0 <= k < b.taken().len() implies b.taken()[k] == c.taken()[k] by {
        assert(c.taken().subrange(0, b.taken().len() as int)[k] == c.taken()[k]);
    }
    assert forall|k: int| 0 <= k < a.taken().len() implies a.taken()[k] == b.taken()[k] by {
        assert(b.taken().subrange(0, a.taken().len() as int)[k] == b.taken()[k]);
    }
    assert(a.taken() =~= c.taken().subrange(0, a.taken().len() as int));
    assert forall|k: int| a.taken().len() <= k < c.taken().len() implies received(
        a.channel(),
        #[trigger] c.taken()[k],
    ) by {
        if k < b.taken().len() {
            assert(received(a.channel(), b.taken()[k]));
        }
    }
    assert(answers(a, c) =~= answers(a, b) + answers(b, c));
}

/// Whether the answer is a chunk of another epoch.
pub open spec fn stale<T>(answer: Option<AudioChunk<T>>, epoch: u64) -> bool {
    answer is Some && fresh(answer, epoch) is None
}

/// Whether the answers are those of one look for a chunk of the epoch: stale ones are passed over,
/// and the look ends with the first other answer, or with more stale ones than can wait at once.
pub open spec fn looked<T>(answers: Seq<Option<AudioChunk<T>>>, epoch: u64) -> bool {
    &&& 0 < answers.len() <= QUEUE_LIMIT + 1
    &&& forall|k: int| 0 <= k < answers.len() - 1 ==> stale(#[trigger] answers[k], epoch)
    &&& stale(answers.last(), epoch) ==> answers.len() == QUEUE_LIMIT + 1
}

/// Whether the answers are those of emptying the queue: chunks, and then none, or more chunks than
/// can wait at once.
pub open spec fn emptied<T>(answers: Seq<Option<AudioChunk<T>>>) -> bool {
    &&& 0 < answers.len() <= QUEUE_LIMIT + 1
    &&& forall|k: int| 0 <= k < answers.len() - 1 ==> (#[trigger] answers[k]) is Some
    &&& answers.last() is Some ==> answers.len() == QUEUE_LIMIT + 1
}

impl<T> ChunkQueue<T> {
    /// The channel.
    pub closed spec fn channel(&self) -> crossbeam_channel::Receiver<AudioChunk<T>> {
        self.receiver
    }

    /// The answers given so far, in order.
    pub closed spec fn taken(&self) -> Seq<Option<AudioChunk<T>>> {
        self.taken@
    }

    /// The queue of a channel.
    pub fn new(receiver: crossbeam_channel::Receiver<AudioChunk<T>>) -> (r: Self)
        ensures
            r.channel() == receiver,
            r.taken().len() == 0,
    {
        ChunkQueue { receiver, taken: Ghost(Seq::empty()) }
    }

    /// Looks into the channel once.
    pub fn poll(&mut self) -> (r: Option<AudioChunk<T>>)
        ensures
            grew(*old(self), *final(self)),
            final(self).taken() == old(self).taken().push(r),
    {
        let r = call(&take_queued::<T>, &self.receiver);
        self.taken = Ghost(self.taken@.push(r));
        r
    }

    /// Looks for a chunk of the epoch. Chunks of another are dropped.
    pub fn poll_fresh(&mut self, epoch: u64) -> (r: Option<AudioChunk<T>>)
        ensures
            grew(*old(self), *final(self)),
            looked(answers(*old(self), *final(self)), epoch),
            r == (if fresh(answers(*old(self), *final(self)).last(), epoch) is Some {
                answers(*old(self), *final(self)).last()
            } else {
                None
            }),
    {
        let mut tries: usize = 0;
        loop
            invariant
                tries <= QUEUE_LIMIT,
                grew(*old(self), *self),
                answers(*old(self), *self).len() == tries,
                forall|k: int|
                    0 <= k < tries ==> stale(#[trigger] answers(*old(self), *self)[k], epoch),
            decreases QUEUE_LIMIT - tries,
        {
            let ghost before = answers(*old(self), *self);
            let answer = self.poll();
            assert(answers(*old(self), *self) =~= before.push(answer));
            let is_stale = match &answer {
                Some(chunk) => chunk.epoch != epoch,
                None => false,
            };
            if !is_stale {
                return answer;
            }
            if tries >= QUEUE_LIMIT {
                return None;
            }
            tries += 1;
        }
    }

    /// Drops the chunks that wait.
    pub fn drain(&mut self)
        ensures
            grew(*old(self), *final(self)),
            emptied(answers(*old(self), *final(self))),
    {
        let mut tries: usize = 0;
        loop
            invariant
                tries <= QUEUE_LIMIT,
                grew(*old(self), *self),
                answers(*old(self), *self).len() == tries,
                forall|k: int| 0 <= k < tries ==> (#[trigger] answers(*old(self), *self)[k]) is Some,
            decreases QUEUE_LIMIT - tries,
        {
            let ghost before = answers(*old(self), *self);
            let answer = self.poll();
            assert(answers(*old(self), *self) =~= before.push(answer));
            if answer.is_none() || tries >= QUEUE_LIMIT {
                return;
            }
            tries += 1;
        }
    }
}

}
