//! The command line client: which request a command makes, and how the response reads.
use crate::ipc::protocol::{IpcRequest, IpcResponse, RequestView, ResponseView, Speed, SpeedView};
use crate::ipc::server::{
    handled, law_a_stop_for_all_silences_everyone, law_a_stop_silences_its_own_session,
    law_a_text_said_directly_comes_first, law_a_voice_that_is_set_reaches_the_engine, told,
    ClientView, ServerView,
};
use crate::ipc::worker::{effect, empty_schedule, waiting, without, EffectView, Schedule};
use crate::text::chars::{contains_text, occurs_at};
use crate::text::decimal::{decimal, decimal_text};
use vstd::prelude::*;

verus! {

/// A command for a daemon that runs.
#[derive(Debug)]
pub enum ClientCommand {
    /// Speak a given text sentence immediately
    Say { text: String },
    /// Change or view the active voice
    Voice { name: Option<String> },
    /// Change speaking speed
    Speed { multiplier: Speed },
    /// Stop and silence any active speech playback
    Stop { all: bool },
    /// Query the daemon status
    Status,
    /// Gracefully stop and shut down the background TTS daemon
    Shutdown { force: bool },
}

/// The request that a command makes. Without a name, the voice is asked for with the status.
pub open spec fn requested(command: ClientCommand) -> RequestView {
    match command {
        ClientCommand::Say { text } => RequestView::Say { text: text@ },
        ClientCommand::Voice { name } => match name {
            Some(voice) => RequestView::SetVoice { voice: voice@ },
            None => RequestView::Status,
        },
        ClientCommand::Speed { multiplier } => RequestView::SetSpeed { speed: multiplier@ },
        ClientCommand::Stop { all } => RequestView::Stop { all },
        ClientCommand::Status => RequestView::Status,
        ClientCommand::Shutdown { force } => RequestView::Shutdown { force },
    }
}

/// Makes the request of a command.
pub fn request_for(command: ClientCommand) -> (r: IpcRequest)
    ensures
        r@ == requested(command),
{
    match command {
        ClientCommand::Say { text } => IpcRequest::Say { text },
        ClientCommand::Voice { name } => match name {
            Some(voice) => IpcRequest::SetVoice { voice },
            None => IpcRequest::Status,
        },
        ClientCommand::Speed { multiplier } => IpcRequest::SetSpeed { speed: multiplier },
        ClientCommand::Stop { all } => IpcRequest::Stop { all },
        ClientCommand::Status => IpcRequest::Status,
        ClientCommand::Shutdown { force } => IpcRequest::Shutdown { force },
    }
}

/// What a client prints.
#[derive(Debug)]
pub enum Output {
    Nothing,
    /// A line on the standard output.
    Line(String),
    /// A line on the standard error output.
    ErrorLine(String),
}

/// What a client prints, as a value.
#[verifier::ext_equal]
pub enum OutputView {
    Nothing,
    Line(Seq<char>),
    ErrorLine(Seq<char>),
}

impl View for Output {
    type V = OutputView;

    open spec fn view(&self) -> OutputView {
        match self {
            Output::Nothing => OutputView::Nothing,
            Output::Line(s) => OutputView::Line(s@),
            Output::ErrorLine(s) => OutputView::ErrorLine(s@),
        }
    }
}

/// The voice as the status shows it.
pub open spec fn voice_info(voice: Option<Seq<char>>) -> Seq<char> {
    match voice {
        Some(v) => " | voice: "@ + v,
        None => Seq::empty(),
    }
}

/// The pace as the status shows it.
pub open spec fn speed_info(speed: Option<SpeedView>) -> Seq<char> {
    match speed {
        Some(s) => " | speed: "@ + s.shown + "x"@,
        None => Seq::empty(),
    }
}

/// A truth value in words.
pub open spec fn truth(b: bool) -> Seq<char> {
    if b {
        "true"@
    } else {
        "false"@
    }
}

/// How a response reads.
pub open spec fn printed(response: ResponseView) -> OutputView {
    match response {
        ResponseView::Done { message } => match message {
            Some(m) => OutputView::Line(m),
            None => OutputView::Nothing,
        },
        ResponseView::Status {
            playing,
            model,
            sample_rate,
            client_count,
            voice,
            speed,
        } => OutputView::Line(
            "Daemon Status: playing="@ + truth(playing) + ", clients="@ + decimal(
                client_count as nat,
            ) + ", model="@ + model + ", rate="@ + decimal(sample_rate as nat) + "Hz"@
                + voice_info(voice) + speed_info(speed),
        ),
        ResponseView::Error { error } => OutputView::ErrorLine("Daemon Error: "@ + error),
    }
}

/// Makes a response readable.
pub fn render(response: &IpcResponse) -> (r: Output)
    ensures
        r@ == printed(response@),
{
    match response {
        IpcResponse::Done { message } => match message {
            Some(m) => Output::Line(m.clone()),
            None => Output::Nothing,
        },
        IpcResponse::Status { playing, model, sample_rate, client_count, voice, speed } => {
            let mut line = "Daemon Status: playing=".to_owned();
            if *playing {
                line.append("true");
            } else {
                line.append("false");
            }
            line.append(", clients=");
            line.append(decimal_text(*client_count as u64).as_str());
            line.append(", model=");
            line.append(model.as_str());
            line.append(", rate=");
            line.append(decimal_text(*sample_rate as u64).as_str());
            line.append("Hz");
            let ghost start = line@;
            match voice {
                Some(v) => {
                    line.append(" | voice: ");
                    line.append(v.as_str());
                },
                None => {},
            }
            assert(line@ =~= start + voice_info(response@->voice));
            let ghost middle = line@;
            match speed {
                Some(s) => {
                    line.append(" | speed: ");
                    line.append(s.shown.as_str());
                    line.append("x");
                },
                None => {},
            }
            assert(line@ =~= middle + speed_info(response@->speed));
            Output::Line(line)
        },
        IpcResponse::Error { error } => {
            let mut line = "Daemon Error: ".to_owned();
            line.append(error.as_str());
            Output::ErrorLine(line)
        },
    }
}

/// A command does what it says. A text that is to be said is what its session says next; a voice and
/// a pace reach the engine; a stop silences the session of the client or everyone; and the daemon
/// ends where it is told to with force or no other session is connected.
pub proof fn law_commands_do_what_they_say(
    client: ClientView,
    server: ServerView,
    text: String,
    speed: Speed,
    flag: bool,
    busy: bool,
    s: Schedule,
)
    ensures
        ({
            let o = handled(client, server, requested(ClientCommand::Say { text }), busy);
            waiting(told(s, o.messages), client.connection_id) == seq![(server.next_request, text@)]
        }),
        ({
            let o = handled(
                client,
                server,
                requested(ClientCommand::Voice { name: Some(text) }),
                busy,
            );
            o.messages.len() == 1 && effect(s, o.messages[0]) == (EffectView::UseVoice {
                voice: text@,
            })
        }),
        ({
            let o = handled(
                client,
                server,
                requested(ClientCommand::Speed { multiplier: speed }),
                busy,
            );
            o.messages.len() == 1 && effect(s, o.messages[0]) == (EffectView::UseSpeed {
                speed: speed.bits,
            })
        }),
        ({
            let o = handled(client, server, requested(ClientCommand::Stop { all: flag }), busy);
            &&& waiting(told(s, o.messages), client.connection_id).len() == 0
            &&& flag ==> told(s, o.messages) == empty_schedule()
            &&& !flag ==> told(s, o.messages) == without(s, client.connection_id)
        }),
        handled(client, server, requested(ClientCommand::Shutdown { force: flag }), busy).shutdown
            <==> flag || server.clients <= 1,
{
    let other: u64 = if client.connection_id == 0 {
        1
    } else {
        0
    };
    law_a_text_said_directly_comes_first(client, server, text@, busy, s, other);
    law_a_voice_that_is_set_reaches_the_engine(client, server, text@, speed@, busy, s);
    law_a_stop_silences_its_own_session(client, server, busy, s, other);
    law_a_stop_for_all_silences_everyone(
        client,
        server,
        RequestView::Stop { all: true },
        busy,
        s,
    );
}

/// Asking for the voice, or for the status, changes nothing and shows what the daemon does: the
/// line that is printed begins with whether it speaks, and names the voice and the pace that it
/// speaks with.
pub proof fn law_the_status_is_shown(
    client: ClientView,
    server: ServerView,
    command: ClientCommand,
    busy: bool,
)
    requires
        command is Status || command == (ClientCommand::Voice { name: None }),
    ensures
        ({
            let o = handled(client, server, requested(command), busy);
            &&& o.client == client && o.server == server && o.messages.len() == 0
            &&& printed(o.response) matches OutputView::Line(line) && {
                &&& occurs_at(
                    line,
                    "Daemon Status: playing="@ + (if busy {
                        "true"@
                    } else {
                        "false"@
                    }) + ", clients="@ + decimal(server.clients as nat),
                    0,
                )
                &&& contains_text(line, " | voice: "@ + server.voice)
                &&& contains_text(line, " | speed: "@ + server.speed.shown + "x"@)
                &&& contains_text(line, ", model="@ + server.model)
                &&& contains_text(line, ", rate="@ + decimal(server.sample_rate as nat) + "Hz"@)
            }
        }),
{
    let o = handled(client, server, requested(command), busy);
    let start = "Daemon Status: playing="@ + truth(busy) + ", clients="@ + decimal(
        server.clients as nat,
    );
    let model = ", model="@ + server.model;
    let rate = ", rate="@ + decimal(server.sample_rate as nat) + "Hz"@;
    let voice = " | voice: "@ + server.voice;
    let speed = " | speed: "@ + server.speed.shown + "x"@;
    let line = printed(o.response)->Line_0;
    assert(line =~= start + model + rate + voice + speed);
    let a = start.len() as int;
    let b = a + model.len();
    let c = b + rate.len();
    let d = c + voice.len();
    assert(line.subrange(0, a) =~= start);
    assert(line.subrange(a, b) =~= model);
    assert(occurs_at(line, model, a));
    assert(line.subrange(b, c) =~= rate);
    assert(occurs_at(line, rate, b));
    assert(line.subrange(c, d) =~= voice);
    assert(occurs_at(line, voice, c));
    assert(line.subrange(d, d + speed.len()) =~= speed);
    assert(occurs_at(line, speed, d));
}

/// A daemon that names neither a voice nor a pace is shown without them.
pub proof fn law_what_is_not_named_is_not_shown(
    playing: bool,
    model: Seq<char>,
    sample_rate: u32,
    client_count: usize,
)
    ensures
        printed(
            ResponseView::Status {
                playing,
                model,
                sample_rate,
                client_count,
                voice: None,
                speed: None,
            },
        ) matches OutputView::Line(line) && line == "Daemon Status: playing="@ + truth(playing)
            + ", clients="@ + decimal(client_count as nat) + ", model="@ + model + ", rate="@
            + decimal(sample_rate as nat) + "Hz"@,
{
    let line = "Daemon Status: playing="@ + truth(playing) + ", clients="@ + decimal(
        client_count as nat,
    ) + ", model="@ + model + ", rate="@ + decimal(sample_rate as nat) + "Hz"@;
    assert(line + Seq::<char>::empty() + Seq::<char>::empty() =~= line);
}

/// What the daemon answers is printed as it is, an error on the standard error output, and nothing
/// where it answers without a word.
pub proof fn law_an_answer_is_printed(message: Seq<char>)
    ensures
        printed(ResponseView::Done { message: Some(message) }) == OutputView::Line(message),
        printed(ResponseView::Done { message: None }) == OutputView::Nothing,
        printed(ResponseView::Error { error: message }) == OutputView::ErrorLine(
            "Daemon Error: "@ + message,
        ),
{
}

}
