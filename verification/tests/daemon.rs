use pi_speak::config::{Config, Location, Root};
use pi_speak::ipc::client::{render, request_for, ClientCommand, Output};
use pi_speak::ipc::protocol::{invalid_request, Speed};
use pi_speak::ipc::server::{ClientHandler, Reply};
use pi_speak::ipc::startup::{next_step, Action, Ending, Event, Stage};
use pi_speak::ipc::worker::{
    busy_after_decision, busy_after_message, idle_timeout, Decision, WorkerEffect, WorkerMessage, WorkerState, IDLE_MILLIS,
};
use pi_speak::ipc::{DaemonServer, IpcRequest, IpcResponse};

fn pace(value: f32) -> Speed {
    Speed {
        bits: value.to_bits(),
        shown: format!("{:.2}", value),
    }
}

fn daemon() -> DaemonServer {
    let config = Config::from_environment(
        Location {
            root: Root::Given,
            path: String::new(),
        },
        Location {
            root: Root::WorkingDir,
            path: "models".to_string(),
        },
        None,
        None,
    );
    DaemonServer::new(&config, "1.15".to_string())
}

fn say(connection_id: u64, id: u64, text: &str) -> WorkerMessage {
    WorkerMessage::SynthesizeAndPlay {
        connection_id,
        id,
        text: text.to_string(),
    }
}

fn spoken(decision: Decision) -> Option<(u64, u64, String)> {
    match decision {
        Decision::Speak {
            connection_id,
            id,
            text,
        } => Some((connection_id, id, text)),
        _ => None,
    }
}

fn message_of(reply: &Reply) -> Option<&str> {
    match &reply.response {
        IpcResponse::Done { message } => message.as_deref(),
        _ => None,
    }
}

#[test]
fn sentences_of_a_session_are_spoken_in_order() {
    let mut worker = WorkerState::new();
    worker.process_msg(say(1, 0, "one"));
    worker.process_msg(say(1, 1, "two"));
    assert_eq!(spoken(worker.arbitrate(false)), Some((1, 0, "one".to_string())));
    assert_eq!(spoken(worker.arbitrate(true)), Some((1, 1, "two".to_string())));
    assert!(matches!(worker.arbitrate(true), Decision::Idle));
    assert!(matches!(worker.arbitrate(false), Decision::Idle));
}

#[test]
fn another_session_waits_until_the_audio_has_ended() {
    let mut worker = WorkerState::new();
    worker.process_msg(say(1, 0, "one"));
    worker.process_msg(say(2, 1, "other"));
    worker.process_msg(say(1, 2, "two"));
    assert_eq!(spoken(worker.arbitrate(false)), Some((1, 0, "one".to_string())));
    assert_eq!(spoken(worker.arbitrate(true)), Some((1, 2, "two".to_string())));
    assert!(matches!(worker.arbitrate(true), Decision::Wait));
    assert_eq!(spoken(worker.arbitrate(false)), Some((2, 1, "other".to_string())));
}

#[test]
fn a_session_that_still_sounds_can_be_stopped() {
    let mut worker = WorkerState::new();
    worker.process_msg(say(1, 0, "one"));
    worker.arbitrate(false);
    assert!(matches!(worker.arbitrate(true), Decision::Idle));
    assert!(matches!(
        worker.process_msg(WorkerMessage::StopSession { connection_id: 2 }),
        WorkerEffect::Continue
    ));
    assert!(matches!(
        worker.process_msg(WorkerMessage::StopSession { connection_id: 1 }),
        WorkerEffect::Halt
    ));
}

#[test]
fn a_session_that_goes_away_is_heard_to_its_end() {
    let mut worker = WorkerState::new();
    worker.process_msg(say(1, 0, "one"));
    worker.arbitrate(false);
    assert!(matches!(worker.arbitrate(true), Decision::Idle));
    assert!(matches!(
        worker.process_msg(WorkerMessage::SessionDisconnect { connection_id: 1 }),
        WorkerEffect::Continue
    ));
    worker.process_msg(say(2, 1, "other"));
    assert!(matches!(worker.arbitrate(true), Decision::Wait));
    assert_eq!(spoken(worker.arbitrate(false)), Some((2, 1, "other".to_string())));
}

#[test]
fn turns_go_round() {
    let mut worker = WorkerState::new();
    worker.process_msg(say(1, 0, "a"));
    worker.process_msg(say(2, 1, "b"));
    worker.process_msg(say(3, 2, "c"));
    assert_eq!(spoken(worker.arbitrate(false)).unwrap().0, 1);
    assert_eq!(spoken(worker.arbitrate(false)).unwrap().0, 2);
    worker.process_msg(say(1, 3, "a again"));
    assert_eq!(spoken(worker.arbitrate(false)).unwrap().0, 3);
    worker.process_msg(say(2, 4, "b again"));
    assert_eq!(spoken(worker.arbitrate(false)).unwrap().0, 1);
    assert_eq!(spoken(worker.arbitrate(false)).unwrap().0, 2);
}

#[test]
fn a_stop_leaves_the_other_sessions_alone() {
    let mut worker = WorkerState::new();
    worker.process_msg(say(1, 0, "one"));
    worker.process_msg(say(2, 1, "other"));
    worker.process_msg(say(1, 2, "two"));
    worker.arbitrate(false);
    assert!(matches!(
        worker.process_msg(WorkerMessage::SessionDisconnect { connection_id: 1 }),
        WorkerEffect::Halt
    ));
    assert_eq!(spoken(worker.arbitrate(false)), Some((2, 1, "other".to_string())));
    assert!(matches!(worker.arbitrate(false), Decision::Idle));
}

#[test]
fn stopping_all_empties_the_queues() {
    let mut worker = WorkerState::new();
    worker.process_msg(say(1, 0, "one"));
    worker.process_msg(say(2, 1, "other"));
    assert!(matches!(
        worker.process_msg(WorkerMessage::StopAll),
        WorkerEffect::HaltAll
    ));
    assert!(matches!(worker.arbitrate(false), Decision::Idle));
}

#[test]
fn the_engine_is_told_of_voice_and_pace() {
    let mut worker = WorkerState::new();
    match worker.process_msg(WorkerMessage::SetVoice {
        voice: "af_heart".to_string(),
    }) {
        WorkerEffect::UseVoice { voice } => assert_eq!(voice, "af_heart"),
        other => panic!("{:?}", other),
    }
    assert!(matches!(
        worker.process_msg(WorkerMessage::SetSpeed { speed: 7 }),
        WorkerEffect::UseSpeed { speed: 7 }
    ));
    assert!(matches!(
        worker.process_msg(WorkerMessage::Shutdown),
        WorkerEffect::Exit
    ));
}

#[test]
fn a_worker_turns_to_the_next_in_order() {
    let mut worker = WorkerState::new();
    worker.process_msg(say(3, 0, "c"));
    worker.process_msg(say(1, 1, "a"));
    worker.process_msg(say(2, 2, "b"));
    let order: Vec<u64> = (0..3)
        .map(|_| spoken(worker.arbitrate(false)).unwrap().0)
        .collect();
    assert_eq!(order, vec![3, 1, 2]);
}

#[test]
fn fed_text_is_told_to_the_worker_sentence_by_sentence() {
    let mut server = daemon();
    let mut client = server.connect();
    assert_eq!(client.connection_id(), 1);
    let reply = client.handle(
        &mut server,
        IpcRequest::Feed {
            text: "Hello there, sir. And then".to_string(),
        },
        false,
    );
    assert!(message_of(&reply).is_none());
    match &reply.messages[..] {
        [WorkerMessage::SynthesizeAndPlay {
            connection_id: 1,
            id: 0,
            text,
        }] => assert_eq!(text, "Hello there, sir."),
        other => panic!("{:?}", other),
    }
    let reply = client.handle(&mut server, IpcRequest::Flush, false);
    match &reply.messages[..] {
        [WorkerMessage::SynthesizeAndPlay {
            connection_id: 1,
            id: 1,
            text,
        }] => assert_eq!(text, "And then"),
        other => panic!("{:?}", other),
    }
    let reply = client.handle(&mut server, IpcRequest::Flush, false);
    assert!(reply.messages.is_empty());
}

#[test]
fn a_text_said_directly_supersedes_what_waits() {
    let mut server = daemon();
    let mut client = server.connect();
    client.handle(
        &mut server,
        IpcRequest::Feed {
            text: "left over".to_string(),
        },
        false,
    );
    let reply = client.handle(
        &mut server,
        IpcRequest::Say {
            text: "now".to_string(),
        },
        false,
    );
    assert_eq!(message_of(&reply), Some("Queued for playback"));
    assert_eq!(reply.messages.len(), 2);
    assert!(matches!(
        reply.messages[0],
        WorkerMessage::StopSession { connection_id: 1 }
    ));
    assert!(matches!(
        reply.messages[1],
        WorkerMessage::SynthesizeAndPlay { id: 0, .. }
    ));
    let reply = client.handle(&mut server, IpcRequest::Flush, false);
    assert!(reply.messages.is_empty());
}

#[test]
fn a_client_stops_itself_or_everyone() {
    let mut server = daemon();
    let mut client = server.connect();
    let reply = client.handle(&mut server, IpcRequest::Stop { all: false }, false);
    assert_eq!(message_of(&reply), Some("Stopped"));
    assert!(matches!(
        reply.messages[..],
        [WorkerMessage::StopSession { connection_id: 1 }]
    ));
    let reply = client.handle(&mut server, IpcRequest::Stop { all: true }, false);
    assert_eq!(message_of(&reply), Some("Stopped"));
    assert!(matches!(reply.messages[..], [WorkerMessage::StopAll]));
    let reply = client.handle(&mut server, IpcRequest::StopAll, false);
    assert_eq!(message_of(&reply), Some("All speech stopped"));
    assert!(matches!(reply.messages[..], [WorkerMessage::StopAll]));
}

#[test]
fn the_status_reports_what_was_set() {
    let mut server = daemon();
    let mut client = server.connect();
    let reply = client.handle(
        &mut server,
        IpcRequest::SetVoice {
            voice: "af_heart".to_string(),
        },
        false,
    );
    assert_eq!(message_of(&reply), Some("Voice switched to 'af_heart'"));
    let reply = client.handle(&mut server, IpcRequest::SetSpeed { speed: pace(1.5) }, false);
    assert_eq!(message_of(&reply), Some("Speaking speed set to 1.50x"));
    let reply = client.handle(&mut server, IpcRequest::Status, true);
    match render(&reply.response) {
        Output::Line(line) => assert_eq!(
            line,
            "Daemon Status: playing=true, clients=1, model=Kokoro-82M (Expressive Neural), rate=48000Hz | voice: af_heart | speed: 1.50x"
        ),
        other => panic!("{:?}", other),
    }
}

#[test]
fn a_shutdown_is_refused_while_others_are_connected() {
    let mut server = daemon();
    let mut client = server.connect();
    let other = server.connect();
    let reply = client.handle(&mut server, IpcRequest::Shutdown { force: false }, false);
    assert!(!reply.shutdown);
    assert!(reply.messages.is_empty());
    match &reply.response {
        IpcResponse::Error { error } => assert_eq!(
            error,
            "Refusing shutdown: 2 Pi sessions are currently connected. Run /speak off to mute this session, or /speak shutdown --force to terminate for all sessions."
        ),
        other => panic!("{:?}", other),
    }
    let message = server.disconnect(other);
    assert!(matches!(
        message,
        Some(WorkerMessage::SessionDisconnect { connection_id: 2 })
    ));
    let reply = client.handle(&mut server, IpcRequest::Shutdown { force: false }, false);
    assert!(reply.shutdown);
    assert_eq!(message_of(&reply), Some("Daemon shutting down"));
    assert!(matches!(reply.messages[..], [WorkerMessage::StopAll]));
}

#[test]
fn a_shutdown_with_force_is_not_refused() {
    let mut server = daemon();
    let mut client = server.connect();
    let _other: ClientHandler = server.connect();
    assert!(client
        .handle(&mut server, IpcRequest::Shutdown { force: true }, false)
        .shutdown);
}

#[test]
fn connections_have_numbers_of_their_own() {
    let mut server = daemon();
    let a = server.connect();
    let b = server.connect();
    assert_eq!((a.connection_id(), b.connection_id()), (1, 2));
    server.disconnect(a);
    assert_eq!(server.connect().connection_id(), 3);
}

#[test]
fn a_line_that_is_no_request_changes_nothing() {
    let mut server = daemon();
    let mut client = server.connect();
    let reply = client.respond(&mut server, Err("expected value".to_string()), false);
    assert!(reply.messages.is_empty());
    assert!(!reply.shutdown);
    match reply.response {
        IpcResponse::Error { error } => {
            assert_eq!(error, "Invalid JSON request: expected value")
        }
        other => panic!("{:?}", other),
    }
    let reply = client.respond(&mut server, Ok(IpcRequest::Status), false);
    assert!(matches!(
        reply.response,
        IpcResponse::Status {
            client_count: 1,
            playing: false,
            ..
        }
    ));
}

#[test]
fn a_request_that_cannot_be_read_is_answered() {
    match invalid_request("EOF while parsing") {
        IpcResponse::Error { error } => {
            assert_eq!(error, "Invalid JSON request: EOF while parsing")
        }
        other => panic!("{:?}", other),
    }
}

#[test]
fn commands_make_requests() {
    assert!(matches!(
        request_for(ClientCommand::Voice { name: None }),
        IpcRequest::Status
    ));
    match request_for(ClientCommand::Voice {
        name: Some("bf_emma".to_string()),
    }) {
        IpcRequest::SetVoice { voice } => assert_eq!(voice, "bf_emma"),
        other => panic!("{:?}", other),
    }
    match request_for(ClientCommand::Say {
        text: "hi".to_string(),
    }) {
        IpcRequest::Say { text } => assert_eq!(text, "hi"),
        other => panic!("{:?}", other),
    }
    match request_for(ClientCommand::Speed {
        multiplier: pace(0.9),
    }) {
        IpcRequest::SetSpeed { speed } => assert_eq!(speed.bits, 0.9f32.to_bits()),
        other => panic!("{:?}", other),
    }
    assert!(matches!(
        request_for(ClientCommand::Stop { all: true }),
        IpcRequest::Stop { all: true }
    ));
    assert!(matches!(request_for(ClientCommand::Status), IpcRequest::Status));
    assert!(matches!(
        request_for(ClientCommand::Shutdown { force: true }),
        IpcRequest::Shutdown { force: true }
    ));
}

#[test]
fn responses_are_made_readable() {
    assert!(matches!(
        render(&IpcResponse::Done { message: None }),
        Output::Nothing
    ));
    match render(&IpcResponse::Error {
        error: "broken".to_string(),
    }) {
        Output::ErrorLine(line) => assert_eq!(line, "Daemon Error: broken"),
        other => panic!("{:?}", other),
    }
    match render(&IpcResponse::Status {
        playing: false,
        model: "m".to_string(),
        sample_rate: 44100,
        client_count: 0,
        voice: None,
        speed: None,
    }) {
        Output::Line(line) => assert_eq!(
            line,
            "Daemon Status: playing=false, clients=0, model=m, rate=44100Hz"
        ),
        other => panic!("{:?}", other),
    }
}

#[test]
fn a_first_daemon_binds_under_the_lock() {
    let (stage, action) = next_step(Stage::Looking, Event::Looked { exists: false });
    assert_eq!((stage, action), (Stage::MakingDirectory, Action::MakeDirectory));
    let (stage, action) = next_step(stage, Event::Performed);
    assert_eq!((stage, action), (Stage::Locking, Action::TakeLock));
    let (stage, action) = next_step(stage, Event::Locked { held: true });
    assert_eq!((stage, action), (Stage::Clearing, Action::RemoveSocketIfAny));
    let (stage, action) = next_step(stage, Event::Performed);
    assert_eq!((stage, action), (Stage::Binding, Action::BindSocket));
    let (stage, action) = next_step(stage, Event::Performed);
    assert_eq!((stage, action), (Stage::Serving, Action::AwaitEvent));
    let (stage, action) = next_step(stage, Event::Accepted { connected: true });
    assert_eq!((stage, action), (Stage::Serving, Action::ServeClient));
    let (stage, action) = next_step(stage, Event::Accepted { connected: false });
    assert_eq!((stage, action), (Stage::Serving, Action::ReportAcceptError));
    let (stage, action) = next_step(stage, Event::ShutdownRequested { requested: false });
    assert_eq!((stage, action), (Stage::Serving, Action::AwaitEvent));
    for (event, ending) in [
        (
            Event::ShutdownRequested { requested: true },
            Ending::Requested,
        ),
        (Event::Terminated, Ending::Terminated),
        (Event::Interrupted, Ending::Interrupted),
    ] {
        assert_eq!(
            next_step(stage, event),
            (
                Stage::Ended,
                Action::End {
                    ending,
                    served: true
                }
            )
        );
    }
}

#[test]
fn a_second_daemon_ends() {
    let (stage, action) = next_step(Stage::Looking, Event::Looked { exists: true });
    assert_eq!((stage, action), (Stage::Asking, Action::AskListener));
    assert_eq!(
        next_step(stage, Event::Asked { answered: true }),
        (
            Stage::Ended,
            Action::End {
                ending: Ending::AlreadyRunning,
                served: false
            }
        )
    );
    let (stage, action) = next_step(stage, Event::Asked { answered: false });
    assert_eq!((stage, action), (Stage::RemovingStale, Action::RemoveSocket));
    let (stage, _) = next_step(stage, Event::Performed);
    let (stage, _) = next_step(stage, Event::Performed);
    assert_eq!(
        next_step(stage, Event::Locked { held: false }),
        (
            Stage::Ended,
            Action::End {
                ending: Ending::LockHeld,
                served: false
            }
        )
    );
}

#[test]
fn an_event_out_of_turn_is_passed_over() {
    assert_eq!(
        next_step(Stage::Looking, Event::Locked { held: true }),
        (Stage::Looking, Action::AwaitEvent)
    );
    assert_eq!(
        next_step(Stage::Ended, Event::Performed),
        (Stage::Ended, Action::AwaitEvent)
    );
}

#[test]
fn a_text_said_directly_is_heard_out() {
    let mut server = daemon();
    let mut worker = WorkerState::new();
    let mut client = server.connect();
    let reply = client.handle(
        &mut server,
        IpcRequest::Say {
            text: "Hello".to_string(),
        },
        false,
    );
    for message in reply.messages {
        worker.process_msg(message);
    }
    assert!(server.disconnect(client).is_none());
    assert_eq!(
        spoken(worker.arbitrate(false)),
        Some((1, 0, "Hello".to_string()))
    );
}

#[test]
fn a_stream_ends_with_its_client() {
    let mut server = daemon();
    let mut client = server.connect();
    client.handle(
        &mut server,
        IpcRequest::Say {
            text: "Hello".to_string(),
        },
        false,
    );
    client.handle(
        &mut server,
        IpcRequest::Feed {
            text: "And a sentence. ".to_string(),
        },
        false,
    );
    assert!(matches!(
        server.disconnect(client),
        Some(WorkerMessage::SessionDisconnect { connection_id: 1 })
    ));
    let mut client = server.connect();
    client.handle(
        &mut server,
        IpcRequest::Say {
            text: "Hello".to_string(),
        },
        false,
    );
    client.handle(&mut server, IpcRequest::Stop { all: false }, false);
    assert!(server.disconnect(client).is_some());
}

#[test]
fn the_daemon_is_busy_while_it_speaks() {
    let speak = Decision::Speak {
        connection_id: 1,
        id: 0,
        text: "x".to_string(),
    };
    assert!(busy_after_decision(&speak, false, false));
    assert!(busy_after_decision(&Decision::Idle, true, false));
    assert!(!busy_after_decision(&Decision::Idle, false, true));
    assert!(busy_after_decision(&Decision::Wait, false, true));
    assert!(!busy_after_decision(&Decision::Wait, true, false));
    assert!(!busy_after_message(&WorkerEffect::HaltAll, true));
    assert!(busy_after_message(&WorkerEffect::Halt, true));
    assert!(!busy_after_message(&WorkerEffect::Continue, false));
}

#[test]
fn an_idle_worker_looks_again_while_audio_sounds() {
    assert_eq!(idle_timeout(true), Some(IDLE_MILLIS));
    assert_eq!(idle_timeout(false), None);
}
