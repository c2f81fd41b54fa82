//! The requests that a client makes of the daemon, and the responses.
use vstd::prelude::*;

verus! {

/// A speaking pace: the bits of the multiplier as a 32-bit float, and the multiplier as it is
/// shown, with two decimals.
#[derive(Debug)]
pub struct Speed {
    pub bits: u32,
    pub shown: String,
}

/// A speaking pace as a value.
pub struct SpeedView {
    pub bits: u32,
    pub shown: Seq<char>,
}

impl View for Speed {
    type V = SpeedView;

    open spec fn view(&self) -> SpeedView {
        SpeedView { bits: self.bits, shown: self.shown@ }
    }
}

impl Clone for Speed {
    fn clone(&self) -> (r: Self)
        ensures
            r@ == self@,
    {
        Speed { bits: self.bits, shown: self.shown.clone() }
    }
}

/// IPC Request message sent from Pi extension or CLI to pi-speak daemon.
#[derive(Debug)]
pub enum IpcRequest {
    /// Feed a streaming token chunk from the assistant
    Feed { text: String },
    /// Flush any remaining buffered text at the end of the turn
    Flush,
    /// Speak a complete text directly
    Say { text: String },
    /// Immediately interrupt and halt playback for this session (or all sessions if all=true)
    Stop { all: bool },
    /// Immediately interrupt and halt playback across ALL sessions (used by mic barge-in)
    StopAll,
    /// Switch voice dynamically (e.g. "af_heart", "am_adam", "bf_emma")
    SetVoice { voice: String },
    /// Set speaking speed multiplier (e.g. 0.8 to 2.0)
    SetSpeed { speed: Speed },
    /// Query status of the daemon
    Status,
    /// Gracefully shut down the daemon and unlink socket (requires force if other sessions connected)
    Shutdown { force: bool },
}

/// IPC Response sent back from daemon.
#[derive(Debug)]
pub enum IpcResponse {
    Done { message: Option<String> },
    Status {
        playing: bool,
        model: String,
        sample_rate: u32,
        client_count: usize,
        voice: Option<String>,
        speed: Option<Speed>,
    },
    Error { error: String },
}

/// A request as a value.
pub enum RequestView {
    Feed { text: Seq<char> },
    Flush,
    Say { text: Seq<char> },
    Stop { all: bool },
    StopAll,
    SetVoice { voice: Seq<char> },
    SetSpeed { speed: SpeedView },
    Status,
    Shutdown { force: bool },
}

impl View for IpcRequest {
    type V = RequestView;

    open spec fn view(&self) -> RequestView {
        match self {
            IpcRequest::Feed { text } => RequestView::Feed { text: text@ },
            IpcRequest::Flush => RequestView::Flush,
            IpcRequest::Say { text } => RequestView::Say { text: text@ },
            IpcRequest::Stop { all } => RequestView::Stop { all: *all },
            IpcRequest::StopAll => RequestView::StopAll,
            IpcRequest::SetVoice { voice } => RequestView::SetVoice { voice: voice@ },
            IpcRequest::SetSpeed { speed } => RequestView::SetSpeed { speed: speed@ },
            IpcRequest::Status => RequestView::Status,
            IpcRequest::Shutdown { force } => RequestView::Shutdown { force: *force },
        }
    }
}

/// A response as a value.
#[verifier::ext_equal]
pub enum ResponseView {
    Done { message: Option<Seq<char>> },
    Status {
        playing: bool,
        model: Seq<char>,
        sample_rate: u32,
        client_count: usize,
        voice: Option<Seq<char>>,
        speed: Option<SpeedView>,
    },
    Error { error: Seq<char> },
}

/// The text, where there is one.
pub open spec fn text_if_any(s: Option<String>) -> Option<Seq<char>> {
    match s {
        Some(t) => Some(t@),
        None => None,
    }
}

impl View for IpcResponse {
    type V = ResponseView;

    open spec fn view(&self) -> ResponseView {
        match self {
            IpcResponse::Done { message } => ResponseView::Done { message: text_if_any(*message) },
            IpcResponse::Status {
                playing,
                model,
                sample_rate,
                client_count,
                voice,
                speed,
            } => ResponseView::Status {
                playing: *playing,
                model: model@,
                sample_rate: *sample_rate,
                client_count: *client_count,
                voice: text_if_any(*voice),
                speed: match speed {
                    Some(s) => Some(s@),
                    None => None,
                },
            },
            IpcResponse::Error { error } => ResponseView::Error { error: error@ },
        }
    }
}

/// Success with a message.
pub fn done(message: &str) -> (r: IpcResponse)
    ensures
        r@ == (ResponseView::Done { message: Some(message@) }),
{
    IpcResponse::Done { message: Some(message.to_owned()) }
}

/// The response to a line that is no request.
pub fn invalid_request(cause: &str) -> (r: IpcResponse)
    ensures
        r@ == (ResponseView::Error { error: "Invalid JSON request: "@ + cause@ }),
{
    let mut error = "Invalid JSON request: ".to_owned();
    error.append(cause);
    IpcResponse::Error { error }
}

}
