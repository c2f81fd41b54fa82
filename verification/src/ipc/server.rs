//! What the daemon does with the requests of its clients.
use crate::config::Config;
use crate::ipc::protocol::{
    done, invalid_request, IpcRequest, IpcResponse, RequestView, ResponseView, Speed, SpeedView,
};
use crate::ipc::worker::{
    arbitrated, effect, empty_schedule, processed, ready, waiting, without, DecisionView,
    EffectView, MessageView, Schedule, WorkerMessage,
};
use crate::text::chunker::{
    cut, joined, law_chunks_are_the_spoken_pieces, law_cut_keeps_every_character, texts,
    ChunkerState, SentenceChunker,
};
use crate::text::decimal::{decimal, decimal_text, law_decimals_are_told_apart};
use crate::text::filter::cleaned;
use vstd::prelude::*;

verus! {

/// What the daemon keeps for all of its clients.
#[derive(Debug)]
pub struct DaemonServer {
    current_request_id: u64,
    next_connection_id: u64,
    active_clients: usize,
    current_voice: String,
    current_speed: Speed,
    model_name: String,
    sample_rate: u32,
    summarize_code_blocks: bool,
    sustained_words: usize,
}

/// What the daemon keeps for all of its clients, as a value.
#[verifier::ext_equal]
pub struct ServerView {
    /// The number of the next sentence.
    pub next_request: u64,
    /// The number of the next connection.
    pub next_connection: u64,
    pub clients: usize,
    pub voice: Seq<char>,
    pub speed: SpeedView,
    pub model: Seq<char>,
    pub sample_rate: u32,
    pub summarize: bool,
    pub target: nat,
}

impl View for DaemonServer {
    type V = ServerView;

    closed spec fn view(&self) -> ServerView {
        ServerView {
            next_request: self.current_request_id,
            next_connection: self.next_connection_id,
            clients: self.active_clients,
            voice: self.current_voice@,
            speed: self.current_speed@,
            model: self.model_name@,
            sample_rate: self.sample_rate,
            summarize: self.summarize_code_blocks,
            target: self.sustained_words as nat,
        }
    }
}

/// What the daemon keeps for one client.
pub struct ClientHandler {
    connection_id: u64,
    chunker: SentenceChunker,
    said_directly: bool,
}

/// What the daemon keeps for one client, as a value.
#[verifier::ext_equal]
pub struct ClientView {
    pub connection_id: u64,
    pub chunker: ChunkerState,
    pub target: nat,
    pub summarize: bool,
    /// Whether what the worker was last told to speak is a text said directly.
    pub direct: bool,
}

impl View for ClientHandler {
    type V = ClientView;

    closed spec fn view(&self) -> ClientView {
        ClientView {
            connection_id: self.connection_id,
            chunker: self.chunker.state(),
            target: self.chunker.target(),
            summarize: self.chunker.summarizes(),
            direct: self.said_directly,
        }
    }
}

/// What a request leads to.
#[derive(Debug)]
pub struct Reply {
    /// What the worker is told, in this order.
    pub messages: Vec<WorkerMessage>,
    /// What the client is answered.
    pub response: IpcResponse,
    /// Whether the daemon ends.
    pub shutdown: bool,
}

/// What a request leads to, as a value.
#[verifier::ext_equal]
pub struct Outcome {
    pub client: ClientView,
    pub server: ServerView,
    pub messages: Seq<MessageView>,
    pub response: ResponseView,
    pub shutdown: bool,
}

/// The messages as values.
pub open spec fn message_views(v: Seq<WorkerMessage>) -> Seq<MessageView> {
    v.map_values(|m: WorkerMessage| m@)
}

/// The number that is `i` after `first`. After the largest number comes zero.
pub open spec fn nth_id(first: u64, i: int) -> u64 {
    ((first + i) % 0x1_0000_0000_0000_0000) as u64
}

/// The sentences of a session, numbered from `first` on, as messages.
pub open spec fn numbered(session: u64, first: u64, chunks: Seq<Seq<char>>) -> Seq<MessageView> {
    Seq::new(
        chunks.len(),
        |i: int|
            MessageView::SynthesizeAndPlay {
                connection_id: session,
                id: nth_id(first, i),
                text: chunks[i],
            },
    )
}

/// The client with nothing in its chunker.
pub open spec fn cleared(client: ClientView) -> ClientView {
    ClientView { chunker: ChunkerState { buffer: Seq::empty(), first: true }, ..client }
}

/// The client with nothing in its chunker, and nothing said.
pub open spec fn silenced(client: ClientView) -> ClientView {
    ClientView { direct: false, ..cleared(client) }
}

/// The daemon after it has numbered `n` sentences.
pub open spec fn counted(server: ServerView, n: int) -> ServerView {
    ServerView { next_request: nth_id(server.next_request, n), ..server }
}

/// Why the daemon does not shut down.
pub open spec fn refusal(clients: usize) -> Seq<char> {
    "Refusing shutdown: "@ + decimal(clients as nat)
        + " Pi sessions are currently connected. Run /speak off to mute this session, or /speak shutdown --force to terminate for all sessions."@
}

/// Success with a message.
pub open spec fn success(message: Seq<char>) -> ResponseView {
    ResponseView::Done { message: Some(message) }
}

/// What a request leads to, where `busy` says whether the daemon is speaking.
pub open spec fn handled(
    client: ClientView,
    server: ServerView,
    request: RequestView,
    busy: bool,
) -> Outcome {
    let session = client.connection_id;
    let stop = MessageView::StopSession { connection_id: session };
    match request {
        RequestView::Feed { text } => {
            let c = cut(
                ChunkerState { buffer: client.chunker.buffer + text, first: client.chunker.first },
                client.target,
                client.summarize,
            );
            Outcome {
                client: ClientView {
                    chunker: c.end,
                    direct: client.direct && c.chunks.len() == 0,
                    ..client
                },
                server: counted(server, c.chunks.len() as int),
                messages: numbered(session, server.next_request, c.chunks),
                response: ResponseView::Done { message: None },
                shutdown: false,
            }
        },
        RequestView::Flush => {
            let rest = cleaned(client.summarize, client.chunker.buffer);
            let chunks = if rest.len() > 0 {
                seq![rest]
            } else {
                Seq::empty()
            };
            Outcome {
                client: ClientView {
                    direct: client.direct && chunks.len() == 0,
                    ..cleared(client)
                },
                server: counted(server, chunks.len() as int),
                messages: numbered(session, server.next_request, chunks),
                response: ResponseView::Done { message: None },
                shutdown: false,
            }
        },
        RequestView::Say { text } => Outcome {
            client: ClientView { direct: true, ..cleared(client) },
            server: counted(server, 1),
            messages: seq![stop] + numbered(session, server.next_request, seq![text]),
            response: success("Queued for playback"@),
            shutdown: false,
        },
        RequestView::Stop { all } => Outcome {
            client: silenced(client),
            server,
            messages: seq![
                if all {
                    MessageView::StopAll
                } else {
                    stop
                },
            ],
            response: success("Stopped"@),
            shutdown: false,
        },
        RequestView::StopAll => Outcome {
            client: silenced(client),
            server,
            messages: seq![MessageView::StopAll],
            response: success("All speech stopped"@),
            shutdown: false,
        },
        RequestView::SetVoice { voice } => Outcome {
            client,
            server: ServerView { voice, ..server },
            messages: seq![MessageView::SetVoice { voice }],
            response: success("Voice switched to '"@ + voice + "'"@),
            shutdown: false,
        },
        RequestView::SetSpeed { speed } => Outcome {
            client,
            server: ServerView { speed, ..server },
            messages: seq![MessageView::SetSpeed { speed: speed.bits }],
            response: success("Speaking speed set to "@ + speed.shown + "x"@),
            shutdown: false,
        },
        RequestView::Status => Outcome {
            client,
            server,
            messages: Seq::empty(),
            response: ResponseView::Status {
                playing: busy,
                model: server.model,
                sample_rate: server.sample_rate,
                client_count: server.clients,
                voice: Some(server.voice),
                speed: Some(server.speed),
            },
            shutdown: false,
        },
        RequestView::Shutdown { force } => if !force && server.clients > 1 {
            Outcome {
                client,
                server,
                messages: Seq::empty(),
                response: ResponseView::Error { error: refusal(server.clients) },
                shutdown: false,
            }
        } else {
            Outcome {
                client: silenced(client),
                server,
                messages: seq![MessageView::StopAll],
                response: success("Daemon shutting down"@),
                shutdown: true,
            }
        },
    }
}

/// The name of the model.
pub const MODEL_NAME: &'static str = "Kokoro-82M (Expressive Neural)";

/// Reads as `before`, the text and `after`.
fn between(before: &str, text: &str, after: &str) -> (r: String)
    ensures
        r@ == before@ + text@ + after@,
{
    let mut r = before.to_owned();
    r.append(text);
    r.append(after);
    r
}

impl DaemonServer {
    /// A daemon without clients. `shown` is the pace of the settings as it is shown.
    pub fn new(config: &Config, shown: String) -> (r: Self)
        ensures
            r@ == (ServerView {
                next_request: 0,
                next_connection: 1,
                clients: 0,
                voice: config.kokoro_voice@,
                speed: SpeedView { bits: config.kokoro_speed, shown: shown@ },
                model: MODEL_NAME@,
                sample_rate: config.target_sample_rate,
                summarize: config.summarize_code_blocks,
                target: config.sustained_words as nat,
            }),
    {
        DaemonServer {
            current_request_id: 0,
            next_connection_id: 1,
            active_clients: 0,
            current_voice: config.kokoro_voice.clone(),
            current_speed: Speed { bits: config.kokoro_speed, shown },
            model_name: MODEL_NAME.to_owned(),
            sample_rate: config.target_sample_rate,
            summarize_code_blocks: config.summarize_code_blocks,
            sustained_words: config.sustained_words,
        }
    }

    /// Takes on a client.
    pub fn connect(&mut self) -> (r: ClientHandler)
        ensures
            r@ == joined_client(old(self)@),
            final(self)@ == joined_server(old(self)@),
    {
        let connection_id: u64 = self.next_connection_id;
        self.next_connection_id = connection_id.wrapping_add(1);
        self.active_clients = self.active_clients.wrapping_add(1);
        ClientHandler {
            connection_id,
            chunker: SentenceChunker::new(self.summarize_code_blocks, self.sustained_words),
            said_directly: false,
        }
    }

    /// Lets a client go, and says what the worker is told. A text that was said directly is spoken
    /// although its client has gone, so that the worker is told nothing.
    pub fn disconnect(&mut self, client: ClientHandler) -> (r: Option<WorkerMessage>)
        ensures
            (match r {
                Some(message) => seq![message@],
                None => Seq::empty(),
            }) == parting(client@),
            final(self)@ == left_server(old(self)@),
    {
        self.active_clients = self.active_clients.wrapping_sub(1);
        if client.said_directly {
            None
        } else {
            Some(WorkerMessage::SessionDisconnect { connection_id: client.connection_id })
        }
    }

    /// Numbers a sentence.
    fn next_id(&mut self) -> (r: u64)
        ensures
            r == old(self)@.next_request,
            final(self)@ == counted(old(self)@, 1),
    {
        let id: u64 = self.current_request_id;
        self.current_request_id = id.wrapping_add(1);
        id
    }
}

/// The client that the daemon takes on next.
pub open spec fn joined_client(server: ServerView) -> ClientView {
    ClientView {
        connection_id: server.next_connection,
        chunker: ChunkerState { buffer: Seq::empty(), first: true },
        target: server.target,
        summarize: server.summarize,
        direct: false,
    }
}

/// The daemon with one more client.
pub open spec fn joined_server(server: ServerView) -> ServerView {
    ServerView {
        next_connection: nth_id(server.next_connection, 1),
        clients: server.clients.wrapping_add(1),
        ..server
    }
}

/// What the worker is told when a client goes.
pub open spec fn parting(client: ClientView) -> Seq<MessageView> {
    if client.direct {
        Seq::empty()
    } else {
        seq![MessageView::SessionDisconnect { connection_id: client.connection_id }]
    }
}

/// The daemon with one client less.
pub open spec fn left_server(server: ServerView) -> ServerView {
    ServerView { clients: server.clients.wrapping_sub(1), ..server }
}

impl ClientHandler {
    /// The number of the connection.
    pub fn connection_id(&self) -> (r: u64)
        ensures
            r == self@.connection_id,
    {
        self.connection_id
    }

    /// Handles a request. `busy` says whether the daemon is speaking.
    pub fn handle(
        &mut self,
        server: &mut DaemonServer,
        request: IpcRequest,
        busy: bool,
    ) -> (r: Reply)
        ensures
            (Outcome {
                client: final(self)@,
                server: final(server)@,
                messages: message_views(r.messages@),
                response: r.response@,
                shutdown: r.shutdown,
            }) == handled(old(self)@, old(server)@, request@, busy),
    {
        let ghost client = self@;
        let ghost start = server@;
        let ghost whole = handled(client, start, request@, busy);
        let mut messages: Vec<WorkerMessage> = Vec::new();
        let mut shutdown = false;
        let response = match request {
            IpcRequest::Feed { text } => {
                let chunks = self.chunker.feed(text.as_str());
                if chunks.len() > 0 {
                    self.said_directly = false;
                }
                assert(texts(chunks@).len() == chunks@.len());
                self.enqueue(server, chunks, &mut messages);
                IpcResponse::Done { message: None }
            },
            IpcRequest::Flush => {
                let mut chunks: Vec<String> = Vec::new();
                if let Some(rest) = self.chunker.flush() {
                    chunks.push(rest);
                    self.said_directly = false;
                }
                self.enqueue(server, chunks, &mut messages);
                IpcResponse::Done { message: None }
            },
            IpcRequest::Say { text } => {
                self.chunker.reset();
                messages.push(WorkerMessage::StopSession { connection_id: self.connection_id });
                let mut chunks: Vec<String> = Vec::new();
                chunks.push(text);
                self.said_directly = true;
                self.enqueue(server, chunks, &mut messages);
                done("Queued for playback")
            },
            IpcRequest::Stop { all } => {
                self.chunker.reset();
                self.said_directly = false;
                if all {
                    messages.push(WorkerMessage::StopAll);
                } else {
                    messages.push(WorkerMessage::StopSession { connection_id: self.connection_id });
                }
                done("Stopped")
            },
            IpcRequest::StopAll => {
                self.chunker.reset();
                self.said_directly = false;
                messages.push(WorkerMessage::StopAll);
                done("All speech stopped")
            },
            IpcRequest::SetVoice { voice } => {
                let message = between("Voice switched to '", voice.as_str(), "'");
                server.current_voice = voice.clone();
                messages.push(WorkerMessage::SetVoice { voice });
                IpcResponse::Done { message: Some(message) }
            },
            IpcRequest::SetSpeed { speed } => {
                let message = between("Speaking speed set to ", speed.shown.as_str(), "x");
                messages.push(WorkerMessage::SetSpeed { speed: speed.bits });
                server.current_speed = speed;
                IpcResponse::Done { message: Some(message) }
            },
            IpcRequest::Status => IpcResponse::Status {
                playing: busy,
                model: server.model_name.clone(),
                sample_rate: server.sample_rate,
                client_count: server.active_clients,
                voice: Some(server.current_voice.clone()),
                speed: Some(server.current_speed.clone()),
            },
            IpcRequest::Shutdown { force } => {
                if !force && server.active_clients > 1 {
                    let count = decimal_text(server.active_clients as u64);
                    IpcResponse::Error {
                        error: between(
                            "Refusing shutdown: ",
                            count.as_str(),
                            " Pi sessions are currently connected. Run /speak off to mute this session, or /speak shutdown --force to terminate for all sessions.",
                        ),
                    }
                } else {
                    self.chunker.reset();
                    self.said_directly = false;
                    messages.push(WorkerMessage::StopAll);
                    shutdown = true;
                    done("Daemon shutting down")
                }
            },
        };
        assert(message_views(messages@) =~= whole.messages);
        assert(self@ =~= whole.client);
        assert(server@ =~= whole.server);
        Reply { messages, response, shutdown }
    }

    /// Responds to a line that was read as a request, or was found not to be one for the reason
    /// given. A line that is no request changes nothing.
    pub fn respond(
        &mut self,
        server: &mut DaemonServer,
        parsed: Result<IpcRequest, String>,
        busy: bool,
    ) -> (r: Reply)
        ensures
            (Outcome {
                client: final(self)@,
                server: final(server)@,
                messages: message_views(r.messages@),
                response: r.response@,
                shutdown: r.shutdown,
            }) == (match parsed {
                Ok(request) => handled(old(self)@, old(server)@, request@, busy),
                Err(cause) => Outcome {
                    client: old(self)@,
                    server: old(server)@,
                    messages: Seq::empty(),
                    response: ResponseView::Error { error: "Invalid JSON request: "@ + cause@ },
                    shutdown: false,
                },
            }),
    {
        match parsed {
            Ok(request) => self.handle(server, request, busy),
            Err(cause) => {
                let messages: Vec<WorkerMessage> = Vec::new();
                assert(message_views(messages@) =~= Seq::<MessageView>::empty());
                Reply { messages, response: invalid_request(cause.as_str()), shutdown: false }
            },
        }
    }

    /// Numbers the sentences and tells the worker of them.
    fn enqueue(
        &self,
        server: &mut DaemonServer,
        chunks: Vec<String>,
        messages: &mut Vec<WorkerMessage>,
    )
        ensures
            message_views(final(messages)@) == message_views(old(messages)@) + numbered(
                self@.connection_id,
                old(server)@.next_request,
                texts(chunks@),
            ),
            final(server)@ == counted(old(server)@, chunks@.len() as int),
    {
        let ghost start = server@;
        let ghost before = message_views(messages@);
        let ghost all = numbered(self@.connection_id, start.next_request, texts(chunks@));
        assert(server@ =~= counted(start, 0));
        assert(message_views(messages@) =~= before + all.take(0));
        let mut i: usize = 0;
        while i < chunks.len()
            invariant
                i <= chunks@.len(),
                all == numbered(self@.connection_id, start.next_request, texts(chunks@)),
                server@ == counted(start, i as int),
                message_views(messages@) == before + all.take(i as int),
            decreases chunks.len() - i,
        {
            let id: u64 = server.next_id();
            let ghost earlier = messages@;
            messages.push(
                WorkerMessage::SynthesizeAndPlay {
                    connection_id: self.connection_id,
                    id,
                    text: chunks[i].clone(),
                },
            );
            assert(message_views(messages@) =~= message_views(earlier).push(all[i as int]));
            assert(before + all.take(i + 1) =~= (before + all.take(i as int)).push(all[i as int]));
            i += 1;
        }
        assert(all.take(i as int) =~= all);
    }
}

/// The schedule after the worker has been told the messages, in order.
pub open spec fn told(s: Schedule, messages: Seq<MessageView>) -> Schedule
    decreases messages.len(),
{
    if messages.len() == 0 {
        s
    } else {
        processed(told(s, messages.drop_last()), messages.last())
    }
}

proof fn lemma_told_one(s: Schedule, message: MessageView)
    ensures
        told(s, seq![message]) == processed(s, message),
{
    let m = seq![message];
    assert(m.drop_last() =~= Seq::<MessageView>::empty());
    assert(told(s, m.drop_last()) == s);
}

/// A shutdown without force is refused for as long as other sessions are connected, and a refused
/// shutdown changes nothing.
pub proof fn law_a_refused_shutdown_changes_nothing(
    client: ClientView,
    server: ServerView,
    busy: bool,
)
    requires
        server.clients > 1,
    ensures
        handled(client, server, RequestView::Shutdown { force: false }, busy) == (Outcome {
            client,
            server,
            messages: Seq::empty(),
            response: ResponseView::Error { error: refusal(server.clients) },
            shutdown: false,
        }),
{
}

/// The daemon ends only on a shutdown request, and on each one that comes with force or from the
/// last session. Then nothing is left to speak.
pub proof fn law_only_a_shutdown_ends_the_daemon(
    client: ClientView,
    server: ServerView,
    request: RequestView,
    busy: bool,
    s: Schedule,
)
    ensures
        handled(client, server, request, busy).shutdown <==> (request matches RequestView::Shutdown {
            force,
        } && (force || server.clients <= 1)),
        handled(client, server, request, busy).shutdown ==> told(
            s,
            handled(client, server, request, busy).messages,
        ) == empty_schedule(),
{
    lemma_told_one(s, MessageView::StopAll);
}

/// A stop takes away what waits of the session that asks for it, halts the audio exactly where
/// that session speaks, and leaves the other sessions as they are.
pub proof fn law_a_stop_silences_its_own_session(
    client: ClientView,
    server: ServerView,
    busy: bool,
    s: Schedule,
    other: u64,
)
    requires
        other != client.connection_id,
    ensures
        ({
            let o = handled(client, server, RequestView::Stop { all: false }, busy);
            let after = told(s, o.messages);
            &&& o.messages.len() == 1
            &&& after == without(s, client.connection_id)
            &&& waiting(after, client.connection_id).len() == 0
            &&& waiting(after, other) == waiting(s, other)
            &&& effect(s, o.messages[0]) == (if s.active == Some(client.connection_id) {
                EffectView::Halt
            } else {
                EffectView::Continue
            })
            &&& o.client == silenced(client)
            &&& o.server == server
        }),
{
    lemma_told_one(s, MessageView::StopSession { connection_id: client.connection_id });
}

/// Stopping all sessions leaves nothing to speak and halts the audio, whoever speaks.
pub proof fn law_a_stop_for_all_silences_everyone(
    client: ClientView,
    server: ServerView,
    request: RequestView,
    busy: bool,
    s: Schedule,
)
    requires
        request == (RequestView::Stop { all: true }) || request == RequestView::StopAll,
    ensures
        ({
            let o = handled(client, server, request, busy);
            &&& o.messages.len() == 1
            &&& told(s, o.messages) == empty_schedule()
            &&& effect(s, o.messages[0]) == EffectView::HaltAll
            &&& o.client == silenced(client)
        }),
{
    lemma_told_one(s, MessageView::StopAll);
}

/// A text that is said directly takes the place of everything that waited of its session. The
/// other sessions keep what waits of them.
pub proof fn law_a_text_said_directly_comes_first(
    client: ClientView,
    server: ServerView,
    text: Seq<char>,
    busy: bool,
    s: Schedule,
    other: u64,
)
    requires
        other != client.connection_id,
    ensures
        ({
            let o = handled(client, server, RequestView::Say { text }, busy);
            let after = told(s, o.messages);
            &&& waiting(after, client.connection_id) == seq![(server.next_request, text)]
            &&& waiting(after, other) == waiting(s, other)
        }),
{
    let o = handled(client, server, RequestView::Say { text }, busy);
    let stop = MessageView::StopSession { connection_id: client.connection_id };
    assert(o.messages.drop_last() =~= seq![stop]);
    lemma_told_one(s, stop);
    let after = told(s, o.messages);
    assert(nth_id(server.next_request, 0) == server.next_request);
    assert(waiting(after, client.connection_id) =~= seq![(server.next_request, text)]);
}

/// A text that is said directly is spoken although its client goes away at once: what the worker is
/// told by the request and by the parting leaves the text waiting, and where no session speaks or
/// waits it is the next that is spoken.
pub proof fn law_a_text_said_directly_is_heard_out(
    client: ClientView,
    server: ServerView,
    text: Seq<char>,
    busy: bool,
    s: Schedule,
)
    ensures
        ({
            let o = handled(client, server, RequestView::Say { text }, busy);
            let after = told(s, o.messages + parting(o.client));
            &&& waiting(after, client.connection_id) == seq![(server.next_request, text)]
            &&& s.active is None && s.order.len() == 0 ==> arbitrated(after, false).1 == (
            DecisionView::Speak {
                connection_id: client.connection_id,
                id: server.next_request,
                text,
            })
        }),
{
    let o = handled(client, server, RequestView::Say { text }, busy);
    assert(o.messages + parting(o.client) =~= o.messages);
    let other: u64 = if client.connection_id == 0 {
        1
    } else {
        0
    };
    law_a_text_said_directly_comes_first(client, server, text, busy, s, other);
    let after = told(s, o.messages);
    let stop = MessageView::StopSession { connection_id: client.connection_id };
    assert(o.messages.drop_last() =~= seq![stop]);
    lemma_told_one(s, stop);
    let stopped = told(s, seq![stop]);
    if s.active is None && s.order.len() == 0 {
        assert(stopped.order.len() == 0) by {
            reveal(Seq::filter);
        }
        assert(after.order =~= seq![client.connection_id]);
        assert(after.order[0] == client.connection_id);
        assert(ready(after, client.connection_id));
    }
}

/// A client that has streamed its text, or stopped, takes what waits of it along when it goes.
pub proof fn law_a_stream_ends_with_its_client(client: ClientView, s: Schedule)
    requires
        !client.direct,
    ensures
        waiting(told(s, parting(client)), client.connection_id).len() == 0,
{
    lemma_told_one(s, MessageView::SessionDisconnect { connection_id: client.connection_id });
}

/// Sentences that are told to the worker wait behind those of their session that already wait, in
/// their order and with their numbers. Nothing of the other sessions is touched.
pub proof fn law_sentences_queue_up_in_order(
    s: Schedule,
    session: u64,
    first: u64,
    chunks: Seq<Seq<char>>,
)
    ensures
        ({
            let after = told(s, numbered(session, first, chunks));
            &&& waiting(after, session) == waiting(s, session) + Seq::new(
                chunks.len(),
                |i: int| (nth_id(first, i), chunks[i]),
            )
            &&& forall|other: u64|
                other != session ==> #[trigger] waiting(after, other) == waiting(s, other)
            &&& after.active == s.active
        }),
    decreases chunks.len(),
{
    let messages = numbered(session, first, chunks);
    let queued = Seq::new(chunks.len(), |i: int| (nth_id(first, i), chunks[i]));
    if chunks.len() == 0 {
        assert(waiting(s, session) + queued =~= waiting(s, session));
    } else {
        let init = chunks.drop_last();
        law_sentences_queue_up_in_order(s, session, first, init);
        assert(messages.drop_last() =~= numbered(session, first, init));
        let before = told(s, messages.drop_last());
        let queued_init = Seq::new(init.len(), |i: int| (nth_id(first, i), init[i]));
        assert(queued =~= queued_init.push(queued.last()));
        assert(waiting(told(s, messages), session) =~= waiting(s, session) + queued);
        assert forall|other: u64| other != session implies #[trigger] waiting(
            told(s, messages),
            other,
        ) == waiting(s, other) by {
            assert(waiting(before, other) == waiting(s, other));
        }
    }
}

/// A voice that is set reaches the engine, and so does a pace: the worker is told one thing, which
/// makes the engine use that voice or that pace and leaves the sessions as they are.
pub proof fn law_a_voice_that_is_set_reaches_the_engine(
    client: ClientView,
    server: ServerView,
    voice: Seq<char>,
    speed: SpeedView,
    busy: bool,
    s: Schedule,
)
    ensures
        ({
            let o = handled(client, server, RequestView::SetVoice { voice }, busy);
            &&& o.messages.len() == 1
            &&& effect(s, o.messages[0]) == (EffectView::UseVoice { voice })
            &&& told(s, o.messages) == s
            &&& o.server.voice == voice
            &&& o.client == client
        }),
        ({
            let o = handled(client, server, RequestView::SetSpeed { speed }, busy);
            &&& o.messages.len() == 1
            &&& effect(s, o.messages[0]) == (EffectView::UseSpeed { speed: speed.bits })
            &&& told(s, o.messages) == s
            &&& o.server.speed == speed
            &&& o.client == client
        }),
{
    lemma_told_one(s, MessageView::SetVoice { voice });
    lemma_told_one(s, MessageView::SetSpeed { speed: speed.bits });
}

/// What is fed is spoken or kept, and nothing of it is lost: the sentences that it completes wait
/// behind those of its session that already wait, in order, and what they were cut from and what is
/// kept make up what was kept and what was fed.
pub proof fn law_what_is_fed_is_spoken_or_kept(
    client: ClientView,
    server: ServerView,
    text: Seq<char>,
    busy: bool,
    s: Schedule,
    other: u64,
)
    requires
        other != client.connection_id,
    ensures
        ({
            let o = handled(client, server, RequestView::Feed { text }, busy);
            let after = told(s, o.messages);
            let added = waiting(after, client.connection_id).skip(
                waiting(s, client.connection_id).len() as int,
            );
            &&& waiting(after, client.connection_id).take(
                waiting(s, client.connection_id).len() as int,
            ) == waiting(s, client.connection_id)
            &&& exists|pieces: Seq<Seq<char>>|
                #![trigger joined(pieces)]
                {
                    &&& joined(pieces) + o.client.chunker.buffer == client.chunker.buffer + text
                    &&& added.map_values(|t: (u64, Seq<char>)| t.1) == pieces.map_values(
                        |p: Seq<char>| cleaned(client.summarize, p),
                    ).filter(|t: Seq<char>| t.len() > 0)
                }
            &&& forall|i: int|
                0 <= i < added.len() ==> (#[trigger] added[i]).0 == nth_id(server.next_request, i)
            &&& o.server.next_request == nth_id(server.next_request, added.len() as int)
            &&& waiting(after, other) == waiting(s, other)
            &&& after.active == s.active
        }),
{
    let start = ChunkerState {
        buffer: client.chunker.buffer + text,
        first: client.chunker.first,
    };
    let c = cut(start, client.target, client.summarize);
    let o = handled(client, server, RequestView::Feed { text }, busy);
    let after = told(s, o.messages);
    let before = waiting(s, client.connection_id);
    law_sentences_queue_up_in_order(s, client.connection_id, server.next_request, c.chunks);
    law_cut_keeps_every_character(start, client.target, client.summarize);
    law_chunks_are_the_spoken_pieces(start, client.target, client.summarize);
    let queued = Seq::new(c.chunks.len(), |i: int| (nth_id(server.next_request, i), c.chunks[i]));
    let added = waiting(after, client.connection_id).skip(before.len() as int);
    assert(waiting(after, client.connection_id).take(before.len() as int) =~= before);
    assert(added =~= queued);
    assert(added.map_values(|t: (u64, Seq<char>)| t.1) =~= c.chunks);
    assert(joined(c.pieces) + o.client.chunker.buffer == client.chunker.buffer + text);
}

/// A flush has all that was kept spoken: where anything of it is to be spoken it is the last that
/// waits of its session, and nothing is kept.
pub proof fn law_a_flush_speaks_the_rest(
    client: ClientView,
    server: ServerView,
    busy: bool,
    s: Schedule,
    other: u64,
)
    requires
        other != client.connection_id,
    ensures
        ({
            let o = handled(client, server, RequestView::Flush, busy);
            let after = told(s, o.messages);
            let rest = cleaned(client.summarize, client.chunker.buffer);
            let before = waiting(s, client.connection_id);
            &&& rest.len() > 0 ==> waiting(after, client.connection_id) == before.push(
                (server.next_request, rest),
            ) && o.server.next_request == nth_id(server.next_request, 1)
            &&& rest.len() == 0 ==> o.messages.len() == 0 && o.server == server
            &&& o.client.chunker.buffer.len() == 0
            &&& o.client.chunker.first
            &&& waiting(after, other) == waiting(s, other)
        }),
{
    let o = handled(client, server, RequestView::Flush, busy);
    let rest = cleaned(client.summarize, client.chunker.buffer);
    let after = told(s, o.messages);
    let before = waiting(s, client.connection_id);
    if rest.len() > 0 {
        law_sentences_queue_up_in_order(
            s,
            client.connection_id,
            server.next_request,
            seq![rest],
        );
        assert(nth_id(server.next_request, 0) == server.next_request);
        assert(waiting(after, client.connection_id) =~= before.push((server.next_request, rest)));
    } else {
        assert(nth_id(server.next_request, 0) == server.next_request);
        assert(o.server =~= server);
    }
}

/// A text that is said directly cuts its own session short: the audio is halted where that session
/// speaks, and goes on where another does.
pub proof fn law_a_text_said_directly_cuts_its_session_short(
    client: ClientView,
    server: ServerView,
    text: Seq<char>,
    busy: bool,
    s: Schedule,
)
    ensures
        ({
            let o = handled(client, server, RequestView::Say { text }, busy);
            &&& o.messages.len() == 2
            &&& effect(s, o.messages[0]) == (if s.active == Some(client.connection_id) {
                EffectView::Halt
            } else {
                EffectView::Continue
            })
            &&& effect(told(s, o.messages.take(1)), o.messages[1]) == EffectView::Continue
            &&& o.server.next_request == nth_id(server.next_request, 1)
            &&& o.client.direct
        }),
{
}

/// Whoever streams or stops has not said a text directly: a request that tells the worker of
/// streamed sentences, or to stop, ends that, and one that tells it nothing leaves it as it was.
pub proof fn law_a_stream_takes_the_place_of_a_text_said_directly(
    client: ClientView,
    server: ServerView,
    request: RequestView,
    busy: bool,
)
    ensures
        ({
            let o = handled(client, server, request, busy);
            &&& (request is Feed || request is Flush) && o.messages.len() > 0 ==> !o.client.direct
            &&& request is Stop || request is StopAll ==> !o.client.direct
            &&& o.messages.len() == 0 ==> o.client.direct == client.direct
            &&& request is SetVoice || request is SetSpeed ==> o.client.direct == client.direct
            &&& request is Say ==> o.client.direct
        }),
{
}

/// The voice is changed only by a request that sets it, and so is the pace. The model, the sample
/// rate and how text is cut up are changed by none.
pub proof fn law_settings_change_only_when_set(
    client: ClientView,
    server: ServerView,
    request: RequestView,
    busy: bool,
)
    ensures
        ({
            let o = handled(client, server, request, busy);
            &&& request !is SetVoice ==> o.server.voice == server.voice
            &&& request !is SetSpeed ==> o.server.speed == server.speed
            &&& o.server.model == server.model
            &&& o.server.sample_rate == server.sample_rate
            &&& o.server.summarize == server.summarize
            &&& o.server.target == server.target
            &&& o.client.target == client.target
            &&& o.client.summarize == client.summarize
        }),
{
}

/// A request that speaks for one session touches no other: only stopping everyone, shutting down
/// and the settings concern more than the session that asks.
pub proof fn law_a_request_speaks_for_its_session(
    client: ClientView,
    server: ServerView,
    request: RequestView,
    busy: bool,
    i: int,
)
    requires
        request is Feed || request is Flush || request is Say || request == (RequestView::Stop {
            all: false,
        }),
        0 <= i < handled(client, server, request, busy).messages.len(),
    ensures
        match handled(client, server, request, busy).messages[i] {
            MessageView::SynthesizeAndPlay { connection_id, .. } => connection_id
                == client.connection_id,
            MessageView::StopSession { connection_id } => connection_id == client.connection_id,
            _ => false,
        },
{
}

/// What each request is answered. Feeding and flushing are answered without a word.
pub proof fn law_every_request_is_answered(
    client: ClientView,
    server: ServerView,
    text: Seq<char>,
    speed: SpeedView,
    flag: bool,
    busy: bool,
)
    ensures
        handled(client, server, RequestView::Feed { text }, busy).response == (ResponseView::Done {
            message: None,
        }),
        handled(client, server, RequestView::Flush, busy).response == (ResponseView::Done {
            message: None,
        }),
        handled(client, server, RequestView::Say { text }, busy).response == (ResponseView::Done {
            message: Some("Queued for playback"@),
        }),
        handled(client, server, RequestView::Stop { all: flag }, busy).response == (
        ResponseView::Done { message: Some("Stopped"@) }),
        handled(client, server, RequestView::StopAll, busy).response == (ResponseView::Done {
            message: Some("All speech stopped"@),
        }),
        handled(client, server, RequestView::SetVoice { voice: text }, busy).response == (
        ResponseView::Done { message: Some("Voice switched to '"@ + text + "'"@) }),
        handled(client, server, RequestView::SetSpeed { speed }, busy).response == (
        ResponseView::Done { message: Some("Speaking speed set to "@ + speed.shown + "x"@) }),
        server.clients <= 1 || flag ==> handled(
            client,
            server,
            RequestView::Shutdown { force: flag },
            busy,
        ).response == (ResponseView::Done { message: Some("Daemon shutting down"@) }),
        server.clients > 1 && !flag ==> handled(
            client,
            server,
            RequestView::Shutdown { force: flag },
            busy,
        ).response is Error,
{
}

/// A refusal names the number of sessions: two refusals are the same only where the numbers are.
pub proof fn law_a_refusal_names_the_sessions(a: usize, b: usize)
    requires
        refusal(a) == refusal(b),
    ensures
        a == b,
{
    let before = "Refusing shutdown: "@;
    let after =
        " Pi sessions are currently connected. Run /speak off to mute this session, or /speak shutdown --force to terminate for all sessions."@;
    let x = decimal(a as nat);
    let y = decimal(b as nat);
    let n = before.len() as int;
    assert(refusal(a).len() == n + x.len() + after.len());
    assert(refusal(b).len() == n + y.len() + after.len());
    assert(x.len() == y.len());
    assert(refusal(a).subrange(n, n + x.len()) =~= x);
    assert(refusal(b).subrange(n, n + y.len()) =~= y);
    law_decimals_are_told_apart(a as nat, b as nat);
}

/// A client that the daemon takes on has said and kept nothing, has a number of its own, and is
/// served as the settings say; one that goes is counted no longer.
pub proof fn law_a_client_begins_afresh(server: ServerView)
    ensures
        joined_client(server).chunker.buffer.len() == 0,
        joined_client(server).chunker.first,
        !joined_client(server).direct,
        joined_client(server).connection_id == server.next_connection,
        joined_client(server).target == server.target,
        joined_client(server).summarize == server.summarize,
        server.clients < usize::MAX ==> joined_server(server).clients == server.clients + 1,
        server.clients > 0 ==> left_server(server).clients == server.clients - 1,
        server.next_connection < u64::MAX ==> joined_server(server).next_connection
            == server.next_connection + 1,
        joined_server(server).voice == server.voice && joined_server(server).speed == server.speed
            && joined_server(server).next_request == server.next_request,
        left_server(server).voice == server.voice && left_server(server).speed == server.speed
            && left_server(server).next_request == server.next_request
            && left_server(server).next_connection == server.next_connection,
{
}

/// A client whose stream is cut off takes its audio along: where it speaks, and has more to say,
/// the audio is halted when it goes.
pub proof fn law_a_speaker_that_goes_is_cut_off(client: ClientView, s: Schedule)
    requires
        !client.direct,
    ensures
        parting(client).len() == 1,
        s.active == Some(client.connection_id) && !s.lingering ==> effect(s, parting(client)[0])
            == EffectView::Halt,
        s.active != Some(client.connection_id) ==> effect(s, parting(client)[0])
            == EffectView::Continue,
{
}

/// A flush, a text that is said directly and a stop leave nothing behind in the chunker of the
/// session.
pub proof fn law_a_turn_ends_clean(
    client: ClientView,
    server: ServerView,
    request: RequestView,
    busy: bool,
)
    requires
        request is Flush || request is Say || request is Stop || request is StopAll,
    ensures
        handled(client, server, request, busy).client.chunker == cleared(client).chunker,
{
}

/// No two sentences have the same number, within one request and from one to the next, until the
/// numbers start over.
pub proof fn law_sentences_are_told_apart(first: u64, n: int, i: int, j: int)
    requires
        0 <= n,
        0 <= i < j < n,
        n <= 0x1_0000_0000_0000_0000,
    ensures
        nth_id(first, i) != nth_id(first, j),
        nth_id(nth_id(first, n), i) == nth_id(first, n + i),
{
    let m = 0x1_0000_0000_0000_0000int;
    assert((first + i) % m != (first + j) % m);
    assert(((first + n) % m + i) % m == (first + n + i) % m);
}

/// The status reports the voice and the pace that were set last.
pub proof fn law_the_status_reports_what_was_set(
    client: ClientView,
    server: ServerView,
    asking: ClientView,
    voice: Seq<char>,
    speed: SpeedView,
    busy: bool,
)
    ensures
        ({
            let a = handled(client, server, RequestView::SetVoice { voice }, busy);
            let b = handled(client, a.server, RequestView::SetSpeed { speed }, busy);
            handled(asking, b.server, RequestView::Status, busy).response == (ResponseView::Status {
                playing: busy,
                model: server.model,
                sample_rate: server.sample_rate,
                client_count: server.clients,
                voice: Some(voice),
                speed: Some(speed),
            })
        }),
{
}

/// Asking for the status changes nothing.
pub proof fn law_the_status_changes_nothing(client: ClientView, server: ServerView, busy: bool)
    ensures
        ({
            let o = handled(client, server, RequestView::Status, busy);
            &&& o.client == client
            &&& o.server == server
            &&& o.messages.len() == 0
            &&& !o.shutdown
        }),
{
}

/// No request changes who is connected, or the identity of the client that makes it.
pub proof fn law_requests_keep_the_connections(
    client: ClientView,
    server: ServerView,
    request: RequestView,
    busy: bool,
)
    ensures
        ({
            let o = handled(client, server, request, busy);
            &&& o.server.clients == server.clients
            &&& o.server.next_connection == server.next_connection
            &&& o.client.connection_id == client.connection_id
        }),
{
}

/// A client that comes and goes leaves the count as it was, and the next one gets another number.
pub proof fn law_clients_are_counted(server: ServerView)
    ensures
        left_server(joined_server(server)).clients == server.clients,
        joined_client(joined_server(server)).connection_id != joined_client(server).connection_id,
        joined_client(left_server(joined_server(server))).connection_id != joined_client(
            server,
        ).connection_id,
{
}

}
