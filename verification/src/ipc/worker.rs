//! The arbitration between the sessions that want to speak: one queue for each of them, and one
//! session that speaks.
use std::collections::{HashMap, VecDeque};
use vstd::prelude::*;
use vstd::std_specs::hash::*;

verus! {

/// What the worker is told.
#[derive(Debug)]
pub enum WorkerMessage {
    SynthesizeAndPlay { connection_id: u64, id: u64, text: String },
    StopSession { connection_id: u64 },
    StopAll,
    SessionDisconnect { connection_id: u64 },
    SetVoice { voice: String },
    SetSpeed { speed: u32 },
    Shutdown,
}

/// What else a message asks for.
#[derive(Debug)]
pub enum WorkerEffect {
    /// Nothing else.
    Continue,
    /// The worker ends.
    Exit,
    /// The audio that sounds is halted.
    Halt,
    /// The audio that sounds is halted, and the daemon is no longer busy.
    HaltAll,
    /// The engine speaks with another voice.
    UseVoice { voice: String },
    /// The engine speaks at another pace.
    UseSpeed { speed: u32 },
}

/// What the worker does next.
#[derive(Debug)]
pub enum Decision {
    /// Another session is next, but what the active one said still sounds: look again soon.
    Wait,
    /// The sentence is synthesized and played.
    Speak { connection_id: u64, id: u64, text: String },
    /// No sentence waits: the next message is awaited.
    Idle,
}

/// What the worker is told, as a value.
pub enum MessageView {
    SynthesizeAndPlay { connection_id: u64, id: u64, text: Seq<char> },
    StopSession { connection_id: u64 },
    StopAll,
    SessionDisconnect { connection_id: u64 },
    SetVoice { voice: Seq<char> },
    SetSpeed { speed: u32 },
    Shutdown,
}

impl View for WorkerMessage {
    type V = MessageView;

    open spec fn view(&self) -> MessageView {
        match self {
            WorkerMessage::SynthesizeAndPlay {
                connection_id,
                id,
                text,
            } => MessageView::SynthesizeAndPlay {
                connection_id: *connection_id,
                id: *id,
                text: text@,
            },
            WorkerMessage::StopSession { connection_id } => MessageView::StopSession {
                connection_id: *connection_id,
            },
            WorkerMessage::StopAll => MessageView::StopAll,
            WorkerMessage::SessionDisconnect { connection_id } => MessageView::SessionDisconnect {
                connection_id: *connection_id,
            },
            WorkerMessage::SetVoice { voice } => MessageView::SetVoice { voice: voice@ },
            WorkerMessage::SetSpeed { speed } => MessageView::SetSpeed { speed: *speed },
            WorkerMessage::Shutdown => MessageView::Shutdown,
        }
    }
}

/// What else a message asks for, as a value.
pub enum EffectView {
    Continue,
    Exit,
    Halt,
    HaltAll,
    UseVoice { voice: Seq<char> },
    UseSpeed { speed: u32 },
}

impl View for WorkerEffect {
    type V = EffectView;

    open spec fn view(&self) -> EffectView {
        match self {
            WorkerEffect::Continue => EffectView::Continue,
            WorkerEffect::Exit => EffectView::Exit,
            WorkerEffect::Halt => EffectView::Halt,
            WorkerEffect::HaltAll => EffectView::HaltAll,
            WorkerEffect::UseVoice { voice } => EffectView::UseVoice { voice: voice@ },
            WorkerEffect::UseSpeed { speed } => EffectView::UseSpeed { speed: *speed },
        }
    }
}

/// How long the worker sleeps, in milliseconds, before it looks again whether audio still sounds.
pub const WAIT_MILLIS: u64 = 20;

/// How long the worker awaits a message, in milliseconds, while audio still sounds.
pub const IDLE_MILLIS: u64 = 30;

/// How long an idle worker awaits a message before it looks again: for as long as it takes, unless
/// audio still sounds.
pub fn idle_timeout(playing: bool) -> (r: Option<u64>)
    ensures
        r == (if playing {
            Some(IDLE_MILLIS)
        } else {
            None
        }),
{
    if playing {
        Some(IDLE_MILLIS)
    } else {
        None
    }
}

/// Whether the daemon is busy after a message.
pub open spec fn busy_after(effect: EffectView, busy: bool) -> bool {
    busy && effect !is HaltAll
}

/// Whether the daemon is busy after a decision, where `playing` says whether audio sounds.
pub open spec fn busy_during(decision: DecisionView, playing: bool, busy: bool) -> bool {
    match decision {
        DecisionView::Wait => busy,
        DecisionView::Speak { .. } => true,
        DecisionView::Idle => playing,
    }
}

/// Decides whether the daemon is busy after a message.
pub fn busy_after_message(effect: &WorkerEffect, busy: bool) -> (r: bool)
    ensures
        r == busy_after(effect@, busy),
{
    busy && !matches!(effect, WorkerEffect::HaltAll)
}

/// Decides whether the daemon is busy after a decision: while it synthesizes, and for as long as
/// audio sounds.
pub fn busy_after_decision(decision: &Decision, playing: bool, busy: bool) -> (r: bool)
    ensures
        r == busy_during(decision@, playing, busy),
{
    match decision {
        Decision::Wait => busy,
        Decision::Speak { .. } => true,
        Decision::Idle => playing,
    }
}

/// A sentence that waits: its number and its text.
pub type TaskView = (u64, Seq<char>);

/// The sentences that wait, by session; the sessions in the order in which they get their turns;
/// the session that speaks; and whether that one has said everything and is kept only because it
/// still sounds.
#[verifier::ext_equal]
pub struct Schedule {
    pub queues: Map<u64, Seq<TaskView>>,
    pub order: Seq<u64>,
    pub active: Option<u64>,
    pub lingering: bool,
}

/// What the worker does next, as a value.
pub enum DecisionView {
    Wait,
    Speak { connection_id: u64, id: u64, text: Seq<char> },
    Idle,
}

impl View for Decision {
    type V = DecisionView;

    open spec fn view(&self) -> DecisionView {
        match self {
            Decision::Wait => DecisionView::Wait,
            Decision::Speak { connection_id, id, text } => DecisionView::Speak {
                connection_id: *connection_id,
                id: *id,
                text: text@,
            },
            Decision::Idle => DecisionView::Idle,
        }
    }
}

/// The sentences of a session that wait.
pub open spec fn waiting(s: Schedule, session: u64) -> Seq<TaskView> {
    if s.queues.contains_key(session) {
        s.queues[session]
    } else {
        Seq::empty()
    }
}

/// Whether a sentence of the session waits.
pub open spec fn ready(s: Schedule, session: u64) -> bool {
    waiting(s, session).len() > 0
}

/// The schedule of a worker that has not been told anything.
pub open spec fn empty_schedule() -> Schedule {
    Schedule { queues: Map::empty(), order: Seq::empty(), active: None, lingering: false }
}

/// The sessions other than one.
pub open spec fn other_than(session: u64) -> spec_fn(u64) -> bool {
    |c: u64| c != session
}

/// The schedule without the session.
pub open spec fn without(s: Schedule, session: u64) -> Schedule {
    Schedule {
        queues: s.queues.remove(session),
        order: s.order.filter(other_than(session)),
        active: if s.active == Some(session) {
            None
        } else {
            s.active
        },
        lingering: s.lingering && s.active != Some(session),
    }
}

/// Whether the session is kept as the active one only because it still sounds.
pub open spec fn lingers(s: Schedule, session: u64) -> bool {
    s.active == Some(session) && s.lingering
}

/// The schedule after the session has gone away. What still sounds of a session that has said
/// everything is heard to its end, and the other sessions wait for it.
pub open spec fn departed(s: Schedule, session: u64) -> Schedule {
    if lingers(s, session) {
        Schedule { active: s.active, lingering: true, ..without(s, session) }
    } else {
        without(s, session)
    }
}

/// The schedule with one more sentence of the session.
pub open spec fn with_task(s: Schedule, session: u64, task: TaskView) -> Schedule {
    Schedule {
        queues: s.queues.insert(session, waiting(s, session).push(task)),
        order: if s.order.contains(session) {
            s.order
        } else {
            s.order.push(session)
        },
        ..s
    }
}

/// The schedule after a message.
pub open spec fn processed(s: Schedule, message: MessageView) -> Schedule {
    match message {
        MessageView::SynthesizeAndPlay { connection_id, id, text } => with_task(
            s,
            connection_id,
            (id, text),
        ),
        MessageView::StopSession { connection_id } => without(s, connection_id),
        MessageView::SessionDisconnect { connection_id } => departed(s, connection_id),
        MessageView::StopAll => empty_schedule(),
        _ => s,
    }
}

/// What else a message asks for.
pub open spec fn effect(s: Schedule, message: MessageView) -> EffectView {
    match message {
        MessageView::SynthesizeAndPlay { .. } => EffectView::Continue,
        MessageView::StopSession { connection_id } => if s.active == Some(connection_id) {
            EffectView::Halt
        } else {
            EffectView::Continue
        },
        MessageView::SessionDisconnect { connection_id } => if s.active == Some(connection_id)
            && !s.lingering {
            EffectView::Halt
        } else {
            EffectView::Continue
        },
        MessageView::StopAll => EffectView::HaltAll,
        MessageView::SetVoice { voice } => EffectView::UseVoice { voice },
        MessageView::SetSpeed { speed } => EffectView::UseSpeed { speed },
        MessageView::Shutdown => EffectView::Exit,
    }
}

/// The first session from place `i` of the order on, other than `session`, of which a sentence
/// waits.
pub open spec fn next_ready(s: Schedule, session: u64, i: int) -> Option<u64>
    decreases s.order.len() - i,
{
    if i < 0 || i >= s.order.len() {
        None
    } else if s.order[i] != session && ready(s, s.order[i]) {
        Some(s.order[i])
    } else {
        next_ready(s, session, i + 1)
    }
}

/// The schedule with the first session in order of which a sentence waits as the active one. The
/// sessions before it leave the order.
pub open spec fn started(s: Schedule) -> Schedule
    decreases s.order.len(),
{
    if s.order.len() == 0 {
        Schedule { active: None, ..s }
    } else if ready(s, s.order[0]) {
        Schedule { active: Some(s.order[0]), ..s }
    } else {
        started(Schedule { order: s.order.skip(1), ..s })
    }
}

/// The schedule with the session that speaks next as the active one, or none where that session
/// has to wait for the audio that sounds. A session whose sentences have all been synthesized
/// stays active for as long as they sound. A session whose turn has ended leaves the order, so that
/// it comes behind those that wait when it has more to say.
pub open spec fn settled(s: Schedule, playing: bool) -> Option<Schedule> {
    match s.active {
        Some(session) => if ready(s, session) {
            Some(Schedule { lingering: false, ..s })
        } else {
            match next_ready(s, session, 0) {
                Some(next) => if playing {
                    None
                } else {
                    Some(
                        Schedule {
                            queues: s.queues,
                            order: s.order.filter(other_than(session)),
                            active: Some(next),
                            lingering: false,
                        },
                    )
                },
                None => if playing {
                    Some(Schedule { lingering: true, ..s })
                } else {
                    Some(started(Schedule { lingering: false, ..s }))
                },
            }
        },
        None => Some(started(Schedule { lingering: false, ..s })),
    }
}

/// The next sentence of the active session leaves its queue.
pub open spec fn taken(s: Schedule) -> (Schedule, DecisionView) {
    match s.active {
        Some(session) => if ready(s, session) {
            let queue = waiting(s, session);
            (
                Schedule {
                    queues: if queue.len() > 1 {
                        s.queues.insert(session, queue.skip(1))
                    } else {
                        s.queues.remove(session)
                    },
                    ..s
                },
                DecisionView::Speak { connection_id: session, id: queue[0].0, text: queue[0].1 },
            )
        } else {
            (s, DecisionView::Idle)
        },
        None => (s, DecisionView::Idle),
    }
}

/// The schedule after a decision, and the decision.
pub open spec fn arbitrated(s: Schedule, playing: bool) -> (Schedule, DecisionView) {
    match settled(s, playing) {
        Some(next) => taken(next),
        None => (s, DecisionView::Wait),
    }
}

/// The sentences of a queue.
pub open spec fn tasks(v: Seq<(u64, String)>) -> Seq<TaskView> {
    v.map_values(|t: (u64, String)| (t.0, t.1@))
}

/// The queues and the order that the worker keeps.
#[derive(Debug)]
pub struct WorkerState {
    session_queues: HashMap<u64, VecDeque<(u64, String)>>,
    session_order: VecDeque<u64>,
    active_session: Option<u64>,
    lingering: bool,
}

impl View for WorkerState {
    type V = Schedule;

    closed spec fn view(&self) -> Schedule {
        Schedule {
            queues: self.session_queues@.map_values(|q: VecDeque<(u64, String)>| tasks(q@)),
            order: self.session_order@,
            active: self.active_session,
            lingering: self.lingering,
        }
    }
}

impl WorkerState {
    /// A worker that has not been told anything.
    pub fn new() -> (r: Self)
        ensures
            r@ == empty_schedule(),
    {
        let r = WorkerState {
            session_queues: HashMap::new(),
            session_order: VecDeque::new(),
            active_session: None,
            lingering: false,
        };
        assert(r@ =~= empty_schedule());
        r
    }

    /// Whether a sentence of the session waits.
    fn is_ready(&self, session: u64) -> (b: bool)
        ensures
            b == ready(self@, session),
    {
        broadcast use group_hash_axioms;

        match self.session_queues.get(&session) {
            Some(queue) => {
                assert(waiting(self@, session) == tasks(queue@));
                queue.len() > 0
            },
            None => false,
        }
    }

    /// Takes the session out of the order.
    fn leave_order(&mut self, session: u64)
        ensures
            final(self)@ == (Schedule {
                order: old(self)@.order.filter(other_than(session)),
                ..old(self)@
            }),
    {
        let ghost start = self@;
        let ghost keep = other_than(session);
        let mut order: VecDeque<u64> = VecDeque::new();
        let mut i: usize = 0;
        assert(start.order.take(0).filter(keep) =~= Seq::<u64>::empty()) by {
            reveal(Seq::filter);
        }
        while i < self.session_order.len()
            invariant
                i <= self.session_order@.len(),
                self.session_order@ == start.order,
                order@ == start.order.take(i as int).filter(keep),
                keep == other_than(session),
            decreases self.session_order.len() - i,
        {
            let c: u64 = self.session_order[i];
            proof {
                let next = start.order.take(i + 1);
                assert(next.drop_last() == start.order.take(i as int));
                reveal(Seq::filter);
            }
            if c != session {
                order.push_back(c);
            }
            i += 1;
        }
        assert(start.order.take(i as int) == start.order);
        self.session_order = order;
        assert(self@ =~= (Schedule { order: start.order.filter(keep), ..start }));
    }

    /// Drops what waits of the session, and its place in the order.
    fn dismiss(&mut self, session: u64)
        ensures
            final(self)@ == without(old(self)@, session),
    {
        broadcast use group_hash_axioms;

        let ghost start = self@;
        self.leave_order(session);
        self.session_queues.remove(&session);
        if self.active_session == Some(session) {
            self.active_session = None;
            self.lingering = false;
        }
        assert(self@ =~= without(start, session));
    }

    /// Takes note of a message, and says what else it asks for.
    pub fn process_msg(&mut self, message: WorkerMessage) -> (r: WorkerEffect)
        ensures
            final(self)@ == processed(old(self)@, message@),
            r@ == effect(old(self)@, message@),
    {
        broadcast use group_hash_axioms;

        let ghost start = self@;
        match message {
            WorkerMessage::Shutdown => WorkerEffect::Exit,
            WorkerMessage::StopAll => {
                self.session_queues.clear();
                self.session_order.clear();
                self.active_session = None;
                self.lingering = false;
                assert(self@ =~= empty_schedule());
                WorkerEffect::HaltAll
            },
            WorkerMessage::StopSession { connection_id } => {
                let speaks = self.active_session == Some(connection_id);
                self.dismiss(connection_id);
                if speaks {
                    WorkerEffect::Halt
                } else {
                    WorkerEffect::Continue
                }
            },
            WorkerMessage::SessionDisconnect { connection_id } => {
                let speaks = self.active_session == Some(connection_id);
                let lingers = speaks && self.lingering;
                self.dismiss(connection_id);
                if lingers {
                    self.active_session = Some(connection_id);
                    self.lingering = true;
                    assert(self@ =~= departed(start, connection_id));
                    WorkerEffect::Continue
                } else if speaks {
                    WorkerEffect::Halt
                } else {
                    WorkerEffect::Continue
                }
            },
            WorkerMessage::SetVoice { voice } => WorkerEffect::UseVoice { voice },
            WorkerMessage::SetSpeed { speed } => WorkerEffect::UseSpeed { speed },
            WorkerMessage::SynthesizeAndPlay { connection_id, id, text } => {
                let ghost task = (id, text@);
                let mut queue = match self.session_queues.remove(&connection_id) {
                    Some(queue) => queue,
                    None => VecDeque::new(),
                };
                assert(tasks(queue@) =~= waiting(start, connection_id));
                let ghost before = queue@;
                queue.push_back((id, text));
                assert(tasks(queue@) =~= tasks(before).push(task));
                self.session_queues.insert(connection_id, queue);
                let mut known = false;
                let mut i: usize = 0;
                while i < self.session_order.len() && !known
                    invariant
                        i <= self.session_order@.len(),
                        known ==> self.session_order@.contains(connection_id),
                        !known ==> forall|j: int|
                            0 <= j < i ==> self.session_order@[j] != connection_id,
                    decreases self.session_order.len() - i + (if known {
                        0int
                    } else {
                        1int
                    }),
                {
                    if self.session_order[i] == connection_id {
                        known = true;
                    } else {
                        i += 1;
                    }
                }
                if !known {
                    self.session_order.push_back(connection_id);
                }
                assert(self@ =~= with_task(start, connection_id, task));
                WorkerEffect::Continue
            },
        }
    }

    /// Decides what is done next, where `playing` says whether audio still sounds.
    pub fn arbitrate(&mut self, playing: bool) -> (r: Decision)
        ensures
            (final(self)@, r@) == arbitrated(old(self)@, playing),
    {
        let ghost start = self@;
        match self.active_session {
            Some(session) => {
                if self.is_ready(session) {
                    self.lingering = false;
                } else {
                    match self.find_next(session) {
                        Some(next) => {
                            if playing {
                                return Decision::Wait;
                            }
                            self.leave_order(session);
                            self.active_session = Some(next);
                            self.lingering = false;
                        },
                        None => {
                            if playing {
                                self.lingering = true;
                            } else {
                                self.lingering = false;
                                assert(self@ =~= (Schedule { lingering: false, ..start }));
                                self.start();
                            }
                        },
                    }
                }
            },
            None => {
                self.lingering = false;
                assert(self@ =~= (Schedule { lingering: false, ..start }));
                self.start();
            },
        }
        assert(self@ =~= settled(start, playing)->0);
        assert(settled(start, playing) == Some(self@));
        self.take()
    }

    /// The first session in order, other than `session`, of which a sentence waits.
    fn find_next(&self, session: u64) -> (r: Option<u64>)
        ensures
            r == next_ready(self@, session, 0),
    {
        let mut i: usize = 0;
        while i < self.session_order.len()
            invariant
                i <= self.session_order@.len(),
                next_ready(self@, session, 0) == next_ready(self@, session, i as int),
            decreases self.session_order.len() - i,
        {
            let c: u64 = self.session_order[i];
            if c != session && self.is_ready(c) {
                return Some(c);
            }
            i += 1;
        }
        None
    }

    /// Makes the first session in order of which a sentence waits the active one.
    fn start(&mut self)
        ensures
            final(self)@ == started(old(self)@),
    {
        let ghost whole = started(self@);
        self.active_session = None;
        proof {
            lemma_started_ignores_active(old(self)@);
        }
        while self.session_order.len() > 0
            invariant_except_break
                self.active_session is None,
                started(self@) == whole,
            ensures
                self@ == whole,
            decreases self.session_order.len(),
        {
            let c: u64 = self.session_order[0];
            if self.is_ready(c) {
                let ghost here = self@;
                self.active_session = Some(c);
                assert(self@ =~= (Schedule { active: Some(c), ..here }));
                break ;
            }
            let ghost here = self@;
            self.session_order.pop_front();
            assert(self@ =~= (Schedule { order: here.order.skip(1), ..here }));
        }
    }

    /// Takes the next sentence of the active session out of its queue.
    fn take(&mut self) -> (r: Decision)
        ensures
            (final(self)@, r@) == taken(old(self)@),
    {
        broadcast use group_hash_axioms;

        let ghost start = self@;
        match self.active_session {
            Some(session) => {
                if !self.is_ready(session) {
                    return Decision::Idle;
                }
                match self.session_queues.remove(&session) {
                    Some(mut queue) => {
                        assert(waiting(start, session) == tasks(queue@));
                        let ghost before = queue@;
                        let task = queue.pop_front();
                        assert(tasks(queue@) =~= tasks(before).skip(1));
                        if queue.len() > 0 {
                            self.session_queues.insert(session, queue);
                        }
                        assert(self@ =~= taken(start).0);
                        match task {
                            Some((id, text)) => Decision::Speak { connection_id: session, id, text },
                            None => Decision::Idle,
                        }
                    },
                    None => Decision::Idle,
                }
            },
            None => Decision::Idle,
        }
    }
}

/// Whether every session of which a sentence waits stands in the order, none twice, and no other
/// but the active one.
pub open spec fn orderly(s: Schedule) -> bool {
    &&& s.order.no_duplicates()
    &&& forall|c: u64| #[trigger] ready(s, c) ==> s.order.contains(c)
    &&& forall|i: int|
        0 <= i < s.order.len() && s.active != Some(#[trigger] s.order[i]) ==> ready(s, s.order[i])
}

/// A worker begins in order.
pub proof fn law_a_worker_begins_in_order()
    ensures
        orderly(empty_schedule()),
{
}

/// No message brings the schedule out of order: what waits is never forgotten.
pub proof fn law_messages_keep_the_order(s: Schedule, message: MessageView)
    requires
        orderly(s),
    ensures
        orderly(processed(s, message)),
{
    let t = processed(s, message);
    match message {
        MessageView::SynthesizeAndPlay { connection_id, id, text } => {
            assert forall|c: u64| #[trigger] ready(t, c) implies t.order.contains(c) by {
                if c == connection_id {
                    if !s.order.contains(c) {
                        assert(t.order.last() == c);
                    }
                } else {
                    assert(ready(s, c));
                    let k = choose|k: int| 0 <= k < s.order.len() && s.order[k] == c;
                    assert(t.order[k] == c);
                }
            }
            assert forall|i: int|
                0 <= i < t.order.len() && t.active != Some(#[trigger] t.order[i]) implies ready(
                t,
                t.order[i],
            ) by {
                if i < s.order.len() {
                    assert(t.order[i] == s.order[i]);
                }
            }
        },
        MessageView::StopSession { connection_id } => {
            lemma_without_keeps_the_order(s, connection_id);
        },
        MessageView::SessionDisconnect { connection_id } => {
            lemma_without_keeps_the_order(s, connection_id);
            let u = without(s, connection_id);
            assert forall|c: u64| #[trigger] ready(t, c) implies t.order.contains(c) by {
                assert(ready(u, c));
            }
            assert forall|i: int|
                0 <= i < t.order.len() && t.active != Some(#[trigger] t.order[i]) implies ready(
                t,
                t.order[i],
            ) by {
                assert(u.order[i] == t.order[i]);
                assert(ready(u, u.order[i]));
            }
        },
        _ => {},
    }
}

/// No decision brings the schedule out of order.
pub proof fn law_decisions_keep_the_order(s: Schedule, playing: bool)
    requires
        orderly(s),
    ensures
        orderly(arbitrated(s, playing).0),
{
    if let Some(t) = settled(s, playing) {
        lemma_settled(s, playing);
        let u = taken(t).0;
        assert forall|c: u64| #[trigger] ready(u, c) implies u.order.contains(c) by {
            assert(ready(t, c));
        }
        assert forall|i: int|
            0 <= i < u.order.len() && u.active != Some(#[trigger] u.order[i]) implies ready(
            u,
            u.order[i],
        ) by {
            assert(t.order[i] == u.order[i]);
        }
    }
}

/// A session that is stopped loses what waited of it and its place in the order. The other
/// sessions keep both.
pub proof fn law_a_stop_concerns_one_session(s: Schedule, session: u64, other: u64)
    requires
        session != other,
    ensures
        !ready(without(s, session), session),
        !without(s, session).order.contains(session),
        waiting(without(s, session), other) == waiting(s, other),
        s.order.contains(other) ==> without(s, session).order.contains(other),
{
    let keep = other_than(session);
    lemma_filtered(s.order, keep);
    if s.order.contains(other) {
        let k = choose|k: int| 0 <= k < s.order.len() && s.order[k] == other;
        assert(keep(s.order[k]));
    }
}

/// Audio is halted on behalf of a session only where that session speaks, and always then. What
/// sounds of a session that has said everything is halted by a stop, and not by its departure.
pub proof fn law_only_the_speaker_is_halted(s: Schedule, session: u64)
    ensures
        effect(s, MessageView::StopSession { connection_id: session }) is Halt <==> s.active
            == Some(session),
        effect(s, MessageView::SessionDisconnect { connection_id: session }) is Halt <==> s.active
            == Some(session) && !s.lingering,
{
}

/// Stopping everything leaves no sentence waiting, and no session active.
pub proof fn law_stopping_all_leaves_nothing(s: Schedule, session: u64)
    ensures
        !ready(processed(s, MessageView::StopAll), session),
        processed(s, MessageView::StopAll).active is None,
        effect(s, MessageView::StopAll) is HaltAll,
{
}

/// The sentences of a session are spoken in the order in which they came: what is spoken is the
/// one that waited longest, and the rest waits on. Nothing of the other sessions is touched.
pub proof fn law_first_come_first_spoken(s: Schedule, playing: bool)
    ensures
        match arbitrated(s, playing) {
            (t, DecisionView::Speak { connection_id, id, text }) => {
                &&& waiting(s, connection_id) == seq![(id, text)] + waiting(t, connection_id)
                &&& t.active == Some(connection_id)
                &&& forall|other: u64|
                    other != connection_id ==> #[trigger] waiting(t, other) == waiting(s, other)
            },
            (t, _) => forall|c: u64| #[trigger] waiting(t, c) == waiting(s, c),
        },
{
    if let Some(t) = settled(s, playing) {
        lemma_settled(s, playing);
        assert(forall|c: u64| #[trigger] waiting(t, c) == waiting(s, c));
        if let Some(session) = t.active {
            if ready(t, session) {
                let queue = waiting(t, session);
                assert(queue =~= seq![queue[0]] + queue.skip(1));
            }
        }
    }
}

/// A session that speaks is not interrupted by another for as long as a sentence of it waits.
pub proof fn law_the_speaker_goes_on(s: Schedule, playing: bool)
    requires
        s.active matches Some(session) && ready(s, session),
    ensures
        arbitrated(s, playing).1 matches DecisionView::Speak { connection_id, .. }
            && Some(connection_id) == s.active,
{
}

/// Sessions never interleave. Whoever is heard is the active session: where that holds, it holds
/// after any message and any decision, and a sentence that is spoken while audio sounds is one of
/// the session that is heard.
pub proof fn law_sessions_never_interleave(
    s: Schedule,
    heard: Option<u64>,
    message: MessageView,
)
    requires
        heard is Some ==> heard == s.active,
    ensures
        ({
            let after = match effect(s, message) {
                EffectView::Halt => None,
                EffectView::HaltAll => None,
                _ => heard,
            };
            after is Some ==> after == processed(s, message).active
        }),
        match arbitrated(s, heard is Some) {
            (t, DecisionView::Speak { connection_id, .. }) => {
                &&& t.active == Some(connection_id)
                &&& heard is Some ==> heard == Some(connection_id)
            },
            (t, _) => heard is Some ==> heard == t.active,
        },
{
    lemma_settled(s, heard is Some);
}

/// No sentence is left waiting: where the worker idles nothing waits, and where nothing sounds
/// and something waits, a sentence is spoken.
pub proof fn law_what_waits_is_spoken(s: Schedule, playing: bool)
    requires
        orderly(s),
    ensures
        arbitrated(s, playing).1 is Idle ==> forall|c: u64| !#[trigger] ready(s, c),
        !playing && (exists|c: u64| #[trigger] ready(s, c)) ==> arbitrated(s, playing).1 is Speak,
        arbitrated(s, playing).1 is Wait ==> playing && arbitrated(s, playing).0 == s,
{
    lemma_started(s);
    if let Some(session) = s.active {
        lemma_next_ready(s, session, 0);
    }
    if arbitrated(s, playing).1 is Idle {
        assert forall|c: u64| !#[trigger] ready(s, c) by {
            if ready(s, c) {
                let k = choose|k: int| 0 <= k < s.order.len() && s.order[k] == c;
                assert(s.order[k] == c);
            }
        }
    }
}

/// Turns go round: where the active session has nothing more to say and nothing sounds, it leaves
/// the order, the first of the others speaks and stands first, and each session that stood behind
/// the one whose turn has ended comes one place forward. So a session that waits is passed over by
/// no other that came later, and by each that came before it for one turn at most.
pub proof fn law_turns_go_round(s: Schedule, session: u64, k: int)
    requires
        orderly(s),
        s.active == Some(session),
        !ready(s, session),
        0 <= k < s.order.len(),
        s.order[k] != session,
    ensures
        ({
            let (t, d) = arbitrated(s, false);
            &&& d matches DecisionView::Speak { connection_id, .. } && connection_id == t.order[0]
            &&& t.active == Some(t.order[0])
            &&& !t.order.contains(session)
            &&& forall|p: int|
                0 <= p < s.order.len() && #[trigger] s.order[p] == session ==> t.order[if p < k {
                    k - 1
                } else {
                    k
                }] == s.order[k]
            &&& !s.order.contains(session) ==> t.order == s.order
        }),
        arbitrated(s, true) == (s, DecisionView::Wait),
{
    let rest = s.order.filter(other_than(session));
    lemma_filtered(s.order, other_than(session));
    lemma_next_ready(s, session, 0);
    assert(ready(s, s.order[k]));
    assert(next_ready(s, session, 0) is Some);
    let next = next_ready(s, session, 0)->0;
    if s.order.contains(session) {
        let p = choose|p: int| 0 <= p < s.order.len() && s.order[p] == session;
        lemma_filter_removes(s.order, p);
        assert(forall|q: int|
            0 <= q < s.order.len() && #[trigger] s.order[q] == session ==> q == p);
        let first = if p == 0 {
            1int
        } else {
            0int
        };
        assert(rest[0] == s.order[first]);
        assert(ready(s, s.order[first]));
        assert(next == s.order[first]);
    } else {
        lemma_filter_keeps_all(s.order, session);
        assert(s.order[0] != session);
        assert(ready(s, s.order[0]));
        assert(next == s.order[0]);
    }
}

/// No message of another session pushes a session back in the order.
pub proof fn law_messages_push_no_one_back(s: Schedule, message: MessageView, k: int)
    requires
        orderly(s),
        0 <= k < s.order.len(),
        message !is StopAll,
        message != (MessageView::StopSession { connection_id: s.order[k] }),
        message != (MessageView::SessionDisconnect { connection_id: s.order[k] }),
    ensures
        ({
            let t = processed(s, message);
            k < t.order.len() && t.order[k] == s.order[k] || 0 <= k - 1 < t.order.len()
                && t.order[k - 1] == s.order[k]
        }),
{
    let gone = match message {
        MessageView::StopSession { connection_id } => Some(connection_id),
        MessageView::SessionDisconnect { connection_id } => Some(connection_id),
        _ => None,
    };
    if let Some(session) = gone {
        if s.order.contains(session) {
            let p = choose|p: int| 0 <= p < s.order.len() && s.order[p] == session;
            lemma_filter_removes(s.order, p);
        } else {
            lemma_filter_keeps_all(s.order, session);
        }
    }
}

proof fn lemma_filter_keeps_all(s: Seq<u64>, session: u64)
    requires
        !s.contains(session),
    ensures
        s.filter(other_than(session)) == s,
    decreases s.len(),
{
    reveal(Seq::filter);
    if s.len() > 0 {
        let init = s.drop_last();
        assert(!init.contains(session)) by {
            if init.contains(session) {
                let k = choose|k: int| 0 <= k < init.len() && init[k] == session;
                assert(s[k] == session);
            }
        }
        lemma_filter_keeps_all(init, session);
        assert(s[s.len() - 1] == s.last());
        assert(init.push(s.last()) =~= s);
    }
}

proof fn lemma_filter_removes(s: Seq<u64>, p: int)
    requires
        s.no_duplicates(),
        0 <= p < s.len(),
    ensures
        s.filter(other_than(s[p])) == s.remove(p),
    decreases s.len(),
{
    reveal(Seq::filter);
    let init = s.drop_last();
    if p == s.len() - 1 {
        assert(!init.contains(s[p])) by {
            if init.contains(s[p]) {
                let k = choose|k: int| 0 <= k < init.len() && init[k] == s[p];
                assert(s[k] == s[p]);
            }
        }
        lemma_filter_keeps_all(init, s[p]);
        assert(s.remove(p) =~= init);
    } else {
        lemma_filter_removes(init, p);
        assert(init[p] == s[p]);
        assert(s.last() != s[p]);
        assert(init.remove(p).push(s.last()) =~= s.remove(p));
    }
}

proof fn lemma_filtered(s: Seq<u64>, keep: spec_fn(u64) -> bool)
    ensures
        forall|i: int| 0 <= i < s.filter(keep).len() ==> keep(#[trigger] s.filter(keep)[i]),
        forall|i: int| 0 <= i < s.len() && keep(s[i]) ==> s.filter(keep).contains(#[trigger] s[i]),
        forall|i: int| 0 <= i < s.filter(keep).len() ==> s.contains(#[trigger] s.filter(keep)[i]),
        s.no_duplicates() ==> s.filter(keep).no_duplicates(),
    decreases s.len(),
{
    reveal(Seq::filter);
    let out = s.filter(keep);
    if s.len() > 0 {
        let init = s.drop_last();
        lemma_filtered(init, keep);
        let sub = init.filter(keep);
        assert forall|i: int| 0 <= i < out.len() implies keep(#[trigger] out[i]) && s.contains(
            out[i],
        ) by {
            if i < sub.len() {
                assert(out[i] == sub[i]);
                let k = choose|k: int| 0 <= k < init.len() && init[k] == sub[i];
                assert(s[k] == out[i]);
            } else {
                assert(out[i] == s.last());
            }
        }
        assert forall|i: int| 0 <= i < s.len() && keep(s[i]) implies out.contains(
            #[trigger] s[i],
        ) by {
            if i < init.len() {
                assert(init[i] == s[i]);
                let k = choose|k: int| 0 <= k < sub.len() && sub[k] == init[i];
                assert(out[k] == s[i]);
            } else {
                assert(out.last() == s[i]);
            }
        }
        if s.no_duplicates() {
            assert(init.no_duplicates());
            assert forall|i: int, j: int| 0 <= i < j < out.len() implies out[i] != out[j] by {
                assert(out[i] == sub[i]);
                if j < sub.len() {
                    assert(out[j] == sub[j]);
                } else {
                    let k = choose|k: int| 0 <= k < init.len() && init[k] == sub[i];
                    assert(s[k] == out[i]);
                    assert(out[j] == s[s.len() - 1]);
                }
            }
        }
    }
}

proof fn lemma_without_keeps_the_order(s: Schedule, session: u64)
    requires
        orderly(s),
    ensures
        orderly(without(s, session)),
{
    let t = without(s, session);
    let keep = other_than(session);
    lemma_filtered(s.order, keep);
    assert forall|c: u64| #[trigger] ready(t, c) implies t.order.contains(c) by {
        assert(ready(s, c));
        let k = choose|k: int| 0 <= k < s.order.len() && s.order[k] == c;
        assert(keep(s.order[k]));
    }
    assert forall|i: int| 0 <= i < t.order.len() && t.active != Some(
        #[trigger] t.order[i],
    ) implies ready(t, t.order[i]) by {
        assert(s.order.contains(t.order[i]));
        let k = choose|k: int| 0 <= k < s.order.len() && s.order[k] == t.order[i];
        assert(keep(t.order[i]));
        assert(ready(s, s.order[k]));
    }
}

proof fn lemma_settled(s: Schedule, playing: bool)
    ensures
        settled(s, playing) matches Some(t) ==> {
            &&& t.queues == s.queues
            &&& playing && s.active is Some ==> t.active == s.active
            &&& orderly(s) ==> orderly(t)
        },
{
    let plain = Schedule { lingering: false, ..s };
    lemma_started(plain);
    if let Some(t) = settled(s, playing) {
        if let Some(session) = s.active {
            lemma_next_ready(s, session, 0);
            lemma_filtered(s.order, other_than(session));
        }
        if orderly(s) {
            assert forall|c: u64| #[trigger] ready(t, c) implies t.order.contains(c) by {
                assert(ready(s, c));
                assert(ready(plain, c));
                let k = choose|k: int| 0 <= k < s.order.len() && s.order[k] == c;
                assert(plain.order.contains(c));
                if let Some(session) = s.active {
                    assert(other_than(session)(s.order[k]) == (c != session));
                }
            }
            assert forall|i: int|
                0 <= i < t.order.len() && t.active != Some(#[trigger] t.order[i]) implies ready(
                t,
                t.order[i],
            ) by {
                assert(s.order.contains(t.order[i]));
                let k = choose|k: int| 0 <= k < s.order.len() && s.order[k] == t.order[i];
                if s.active == Some(s.order[k]) {
                    let session = s.order[k];
                    assert(other_than(session)(session) == false);
                } else {
                    assert(ready(s, s.order[k]));
                }
            }
        }
    }
}

proof fn lemma_next_ready(s: Schedule, session: u64, i: int)
    requires
        0 <= i,
    ensures
        match next_ready(s, session, i) {
            Some(next) => next != session && ready(s, next) && exists|k: int|
                i <= k < s.order.len() && #[trigger] s.order[k] == next && forall|j: int|
                    i <= j < k ==> s.order[j] == session || !ready(s, #[trigger] s.order[j]),
            None => forall|j: int|
                i <= j < s.order.len() ==> s.order[j] == session || !ready(
                    s,
                    #[trigger] s.order[j],
                ),
        },
    decreases s.order.len() - i,
{
    if i < s.order.len() {
        if s.order[i] != session && ready(s, s.order[i]) {
        } else {
            lemma_next_ready(s, session, i + 1);
        }
    }
}

proof fn lemma_started(s: Schedule)
    ensures
        started(s).queues == s.queues,
        started(s).active matches Some(c) ==> ready(s, c),
        started(s).active is None ==> forall|j: int|
            0 <= j < s.order.len() ==> !ready(s, #[trigger] s.order[j]),
        s.order.no_duplicates() ==> started(s).order.no_duplicates(),
        forall|c: u64| ready(s, c) && s.order.contains(c) ==> #[trigger] started(s).order.contains(c),
        forall|i: int|
            0 <= i < started(s).order.len() ==> s.order.contains(#[trigger] started(s).order[i]),
        started(s).order.len() > 0 ==> started(s).active == Some(started(s).order[0]),
        started(s).active is None ==> started(s).order.len() == 0,
    decreases s.order.len(),
{
    if s.order.len() > 0 && !ready(s, s.order[0]) {
        let rest = Schedule { order: s.order.skip(1), ..s };
        lemma_started(rest);
        assert forall|j: int| 0 <= j < s.order.len() && started(s).active is None implies !ready(
            s,
            #[trigger] s.order[j],
        ) by {
            if j > 0 {
                assert(rest.order[j - 1] == s.order[j]);
                assert(!ready(rest, rest.order[j - 1]));
            }
        }
        assert forall|c: u64| ready(s, c) && s.order.contains(c) implies #[trigger] started(
            s,
        ).order.contains(c) by {
            let k = choose|k: int| 0 <= k < s.order.len() && s.order[k] == c;
            assert(rest.order[k - 1] == c);
            assert(ready(rest, c));
        }
        assert forall|i: int| 0 <= i < started(s).order.len() implies s.order.contains(
            #[trigger] started(s).order[i],
        ) by {
            assert(rest.order.contains(started(rest).order[i]));
            let k = choose|k: int|
                0 <= k < rest.order.len() && rest.order[k] == started(rest).order[i];
            assert(s.order[k + 1] == started(s).order[i]);
        }
    }
}

proof fn lemma_started_ignores_active(s: Schedule)
    ensures
        started(Schedule { active: None, ..s }) == started(s),
    decreases s.order.len(),
{
    if s.order.len() > 0 && !ready(s, s.order[0]) {
        lemma_started_ignores_active(Schedule { order: s.order.skip(1), ..s });
    }
}

/// Each message has its effect: a sentence that is to be spoken disturbs nothing, stopping everyone
/// halts all audio, a voice and a pace go to the engine as they are, and a shutdown ends the worker.
pub proof fn law_each_message_has_its_effect(
    s: Schedule,
    session: u64,
    id: u64,
    text: Seq<char>,
    speed: u32,
)
    ensures
        effect(s, MessageView::SynthesizeAndPlay { connection_id: session, id, text })
            == EffectView::Continue,
        effect(s, MessageView::StopAll) == EffectView::HaltAll,
        effect(s, MessageView::SetVoice { voice: text }) == (EffectView::UseVoice { voice: text }),
        effect(s, MessageView::SetSpeed { speed }) == (EffectView::UseSpeed { speed }),
        effect(s, MessageView::Shutdown) == EffectView::Exit,
        processed(s, MessageView::SetVoice { voice: text }) == s,
        processed(s, MessageView::SetSpeed { speed }) == s,
        processed(s, MessageView::Shutdown) == s,
{
}

/// A session that has nothing to say yet gets its turn behind all others, and one that already
/// waits for its turn keeps its place.
pub proof fn law_a_new_session_comes_last(s: Schedule, session: u64, id: u64, text: Seq<char>)
    ensures
        ({
            let t = processed(
                s,
                MessageView::SynthesizeAndPlay { connection_id: session, id, text },
            );
            &&& s.order.contains(session) ==> t.order == s.order
            &&& !s.order.contains(session) ==> t.order == s.order.push(session)
            &&& waiting(t, session) == waiting(s, session).push((id, text))
            &&& t.active == s.active
            &&& t.lingering == s.lingering
        }),
{
}

/// A session that goes away leaves nothing waiting. It stays the one that is heard only where it
/// has said everything and still sounds.
pub proof fn law_a_session_that_goes_leaves_nothing(s: Schedule, session: u64)
    ensures
        ({
            let t = processed(s, MessageView::SessionDisconnect { connection_id: session });
            &&& waiting(t, session).len() == 0
            &&& !t.order.contains(session)
            &&& t.active == Some(session) <==> s.active == Some(session) && s.lingering
            &&& s.active != Some(session) ==> t.active == s.active
        }),
{
    let keep = other_than(session);
    let t = processed(s, MessageView::SessionDisconnect { connection_id: session });
    if t.order.contains(session) {
        s.order.lemma_filter_contains_rev(keep, session);
        assert(keep(session));
    }
}

/// The daemon is busy from the moment it has something to speak until the audio has ended: it is
/// when it speaks, it is no longer when it idles in silence or everyone was stopped, and no other
/// message changes that.
pub proof fn law_the_daemon_is_busy_while_it_speaks(s: Schedule, message: MessageView, busy: bool)
    ensures
        busy_after(effect(s, message), busy) <==> busy && message !is StopAll,
        ({
            let (t, d) = arbitrated(s, false);
            &&& d is Speak ==> busy_during(d, false, busy)
            &&& d is Idle ==> !busy_during(d, false, busy)
        }),
        ({
            let (t, d) = arbitrated(s, true);
            &&& d is Wait ==> busy_during(d, true, busy) == busy
            &&& d !is Wait ==> busy_during(d, true, busy)
        }),
{
}

/// While audio sounds an idle worker looks again after 30 milliseconds, and a worker that waits for
/// it to end after 20.
pub proof fn law_the_worker_looks_again_soon()
    ensures
        IDLE_MILLIS == 30,
        WAIT_MILLIS == 20,
{
}

}
