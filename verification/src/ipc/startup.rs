//! The life of the daemon process: how it makes sure that it is the only one, and when it ends.
use vstd::prelude::*;

verus! {

/// How far the process has come.
#[derive(Debug, Clone, Copy, PartialEq, Eq, Structural)]
pub enum Stage {
    /// It looks whether the socket exists.
    Looking,
    /// It asks whoever listens on the socket.
    Asking,
    /// It removes a socket that nobody listens on.
    RemovingStale,
    /// It makes the directory of the socket.
    MakingDirectory,
    /// It takes the lock beside the socket.
    Locking,
    /// It holds the lock and removes a socket that is in the way.
    Clearing,
    /// It holds the lock and binds the socket.
    Binding,
    /// It holds the lock and serves its clients.
    Serving,
    /// It has ended.
    Ended,
}

/// What has happened.
#[derive(Debug, Clone, Copy, PartialEq, Eq, Structural)]
pub enum Event {
    /// The socket was looked for.
    Looked { exists: bool },
    /// Whoever listens was connected to and sent a request, or was not.
    Asked { answered: bool },
    /// What was to be done is done.
    Performed,
    /// The lock was asked for.
    Locked { held: bool },
    /// A client has connected, or failed to.
    Accepted { connected: bool },
    /// A client has asked the daemon to shut down, or the request was withdrawn.
    ShutdownRequested { requested: bool },
    /// The process was told to terminate.
    Terminated,
    /// The process was interrupted.
    Interrupted,
}

/// Why the process ends.
#[derive(Debug, Clone, Copy, PartialEq, Eq, Structural)]
pub enum Ending {
    /// A daemon is already running and responsive.
    AlreadyRunning,
    /// Another daemon holds the lock.
    LockHeld,
    /// A client has asked for it.
    Requested,
    /// The process was told to terminate.
    Terminated,
    /// The process was interrupted.
    Interrupted,
}

/// What is to be done.
#[derive(Debug, Clone, Copy, PartialEq, Eq, Structural)]
pub enum Action {
    AskListener,
    RemoveSocket,
    MakeDirectory,
    TakeLock,
    RemoveSocketIfAny,
    BindSocket,
    AwaitEvent,
    ServeClient,
    ReportAcceptError,
    /// The process ends. Where it has served, the worker is told to shut down and the socket and
    /// the lock file are unlinked.
    End { ending: Ending, served: bool },
}

/// Whether the process holds the lock.
pub open spec fn holds_lock(stage: Stage) -> bool {
    stage == Stage::Clearing || stage == Stage::Binding || stage == Stage::Serving
}

/// Whether the event can happen at the stage.
pub open spec fn expected(stage: Stage, event: Event) -> bool {
    match stage {
        Stage::Looking => event is Looked,
        Stage::Asking => event is Asked,
        Stage::RemovingStale => event is Performed,
        Stage::MakingDirectory => event is Performed,
        Stage::Locking => event is Locked,
        Stage::Clearing => event is Performed,
        Stage::Binding => event is Performed,
        Stage::Serving => event is Accepted || event is ShutdownRequested || event is Terminated
            || event is Interrupted,
        Stage::Ended => false,
    }
}

/// The next stage, and what is to be done, after an event that can happen at the stage.
pub open spec fn moved(stage: Stage, event: Event) -> (Stage, Action) {
    match event {
        Event::Looked { exists } => if exists {
            (Stage::Asking, Action::AskListener)
        } else {
            (Stage::MakingDirectory, Action::MakeDirectory)
        },
        Event::Asked { answered } => if answered {
            (Stage::Ended, Action::End { ending: Ending::AlreadyRunning, served: false })
        } else {
            (Stage::RemovingStale, Action::RemoveSocket)
        },
        Event::Performed => match stage {
            Stage::RemovingStale => (Stage::MakingDirectory, Action::MakeDirectory),
            Stage::MakingDirectory => (Stage::Locking, Action::TakeLock),
            Stage::Clearing => (Stage::Binding, Action::BindSocket),
            Stage::Binding => (Stage::Serving, Action::AwaitEvent),
            _ => (stage, Action::AwaitEvent),
        },
        Event::Locked { held } => if held {
            (Stage::Clearing, Action::RemoveSocketIfAny)
        } else {
            (Stage::Ended, Action::End { ending: Ending::LockHeld, served: false })
        },
        Event::Accepted { connected } => if connected {
            (stage, Action::ServeClient)
        } else {
            (stage, Action::ReportAcceptError)
        },
        Event::ShutdownRequested { requested } => if requested {
            (Stage::Ended, Action::End { ending: Ending::Requested, served: true })
        } else {
            (stage, Action::AwaitEvent)
        },
        Event::Terminated => (
            Stage::Ended,
            Action::End { ending: Ending::Terminated, served: true },
        ),
        Event::Interrupted => (
            Stage::Ended,
            Action::End { ending: Ending::Interrupted, served: true },
        ),
    }
}

/// The next stage, and what is to be done. An event that cannot happen at the stage is passed over.
pub open spec fn step(stage: Stage, event: Event) -> (Stage, Action) {
    if expected(stage, event) {
        moved(stage, event)
    } else {
        (stage, Action::AwaitEvent)
    }
}

/// Whether the event can happen at the stage.
pub fn is_expected(stage: Stage, event: Event) -> (b: bool)
    ensures
        b == expected(stage, event),
{
    match event {
        Event::Looked { .. } => matches!(stage, Stage::Looking),
        Event::Asked { .. } => matches!(stage, Stage::Asking),
        Event::Performed => matches!(
            stage,
            Stage::RemovingStale | Stage::MakingDirectory | Stage::Clearing | Stage::Binding
        ),
        Event::Locked { .. } => matches!(stage, Stage::Locking),
        _ => matches!(stage, Stage::Serving),
    }
}

/// Goes on to the next stage, and says what is to be done.
pub fn next_step(stage: Stage, event: Event) -> (r: (Stage, Action))
    ensures
        r == step(stage, event),
{
    if !is_expected(stage, event) {
        return (stage, Action::AwaitEvent);
    }
    match event {
        Event::Looked { exists } => if exists {
            (Stage::Asking, Action::AskListener)
        } else {
            (Stage::MakingDirectory, Action::MakeDirectory)
        },
        Event::Asked { answered } => if answered {
            (Stage::Ended, Action::End { ending: Ending::AlreadyRunning, served: false })
        } else {
            (Stage::RemovingStale, Action::RemoveSocket)
        },
        Event::Performed => match stage {
            Stage::RemovingStale => (Stage::MakingDirectory, Action::MakeDirectory),
            Stage::MakingDirectory => (Stage::Locking, Action::TakeLock),
            Stage::Clearing => (Stage::Binding, Action::BindSocket),
            _ => (Stage::Serving, Action::AwaitEvent),
        },
        Event::Locked { held } => if held {
            (Stage::Clearing, Action::RemoveSocketIfAny)
        } else {
            (Stage::Ended, Action::End { ending: Ending::LockHeld, served: false })
        },
        Event::Accepted { connected } => if connected {
            (stage, Action::ServeClient)
        } else {
            (stage, Action::ReportAcceptError)
        },
        Event::ShutdownRequested { requested } => if requested {
            (Stage::Ended, Action::End { ending: Ending::Requested, served: true })
        } else {
            (stage, Action::AwaitEvent)
        },
        Event::Terminated => (
            Stage::Ended,
            Action::End { ending: Ending::Terminated, served: true },
        ),
        Event::Interrupted => (
            Stage::Ended,
            Action::End { ending: Ending::Interrupted, served: true },
        ),
    }
}

/// The stage after the events.
pub open spec fn reached(events: Seq<Event>) -> Stage
    decreases events.len(),
{
    if events.len() == 0 {
        Stage::Looking
    } else {
        step(reached(events.drop_last()), events.last()).0
    }
}

/// At most one daemon serves: a process that clears, binds or serves the socket has taken the
/// lock before.
pub proof fn law_the_lock_comes_first(events: Seq<Event>)
    requires
        holds_lock(reached(events)),
    ensures
        events.contains(Event::Locked { held: true }),
    decreases events.len(),
{
    if events.len() > 0 {
        let init = events.drop_last();
        if events.last() == (Event::Locked { held: true }) {
        } else {
            law_the_lock_comes_first(init);
            let k = choose|k: int| 0 <= k < init.len() && init[k] == (Event::Locked { held: true });
            assert(events[k] == init[k]);
        }
    }
}

/// The socket is bound only under the lock, and removed only under the lock or after nobody
/// answered on it.
pub proof fn law_a_live_socket_is_left_alone(stage: Stage, event: Event)
    ensures
        step(stage, event).1 is BindSocket ==> holds_lock(stage) && holds_lock(
            step(stage, event).0,
        ),
        step(stage, event).1 is RemoveSocketIfAny ==> event == (Event::Locked { held: true }),
        step(stage, event).1 is RemoveSocket ==> event == (Event::Asked { answered: false }),
{
}

/// A process that finds a running daemon, or another one with the lock, ends at once, and only a
/// process that has served tells its worker to shut down.
pub proof fn law_a_duplicate_ends_quietly(stage: Stage, event: Event)
    ensures
        step(stage, event).1 matches Action::End { ending, served } ==> {
            &&& step(stage, event).0 == Stage::Ended
            &&& served <==> stage == Stage::Serving
            &&& served <==> ending != Ending::AlreadyRunning && ending != Ending::LockHeld
        },
        step(Stage::Asking, Event::Asked { answered: true }).1 == (Action::End {
            ending: Ending::AlreadyRunning,
            served: false,
        }),
        step(Stage::Locking, Event::Locked { held: false }).1 == (Action::End {
            ending: Ending::LockHeld,
            served: false,
        }),
{
}

/// A daemon that serves goes on until a client asks for its end or it gets a signal.
pub proof fn law_a_daemon_serves_until_told(event: Event)
    ensures
        step(Stage::Serving, event).0 == Stage::Ended <==> (event is Terminated
            || event is Interrupted || event == (Event::ShutdownRequested { requested: true })),
        step(Stage::Serving, event).0 != Stage::Ended ==> step(Stage::Serving, event).0
            == Stage::Serving,
{
}

/// How far along a stage is.
pub open spec fn progress(stage: Stage) -> int {
    match stage {
        Stage::Looking => 0,
        Stage::Asking => 1,
        Stage::RemovingStale => 2,
        Stage::MakingDirectory => 3,
        Stage::Locking => 4,
        Stage::Clearing => 5,
        Stage::Binding => 6,
        Stage::Serving => 7,
        Stage::Ended => 8,
    }
}

/// A process comes up step by step: until it serves, each event that can happen takes it further,
/// and no event ever takes it back. Events that cannot happen change nothing.
pub proof fn law_a_process_comes_up_step_by_step(stage: Stage, event: Event)
    ensures
        progress(step(stage, event).0) >= progress(stage),
        expected(stage, event) && stage != Stage::Serving ==> progress(step(stage, event).0)
            > progress(stage),
        !expected(stage, event) ==> step(stage, event).0 == stage,
{
}

/// Whoever comes to a stage is told to do what the stage is for.
pub proof fn law_each_stage_has_its_action(stage: Stage, event: Event)
    requires
        step(stage, event).0 != stage,
    ensures
        match step(stage, event).0 {
            Stage::Looking => false,
            Stage::Asking => step(stage, event).1 == Action::AskListener,
            Stage::RemovingStale => step(stage, event).1 == Action::RemoveSocket,
            Stage::MakingDirectory => step(stage, event).1 == Action::MakeDirectory,
            Stage::Locking => step(stage, event).1 == Action::TakeLock,
            Stage::Clearing => step(stage, event).1 == Action::RemoveSocketIfAny,
            Stage::Binding => step(stage, event).1 == Action::BindSocket,
            Stage::Serving => step(stage, event).1 == Action::AwaitEvent,
            Stage::Ended => step(stage, event).1 is End,
        },
{
}

/// A process whose every step succeeds comes to serve: a socket that is there is asked, one that
/// nobody answers on is removed, and then the directory is made, the lock taken, the way cleared and
/// the socket bound, one after the other.
pub proof fn law_a_process_comes_to_serve(stage: Stage, event: Event)
    requires
        expected(stage, event),
    ensures
        stage == Stage::Looking ==> step(stage, event).0 == (if event == (Event::Looked {
            exists: true,
        }) {
            Stage::Asking
        } else {
            Stage::MakingDirectory
        }),
        stage == Stage::Asking && event == (Event::Asked { answered: false }) ==> step(
            stage,
            event,
        ).0 == Stage::RemovingStale,
        stage == Stage::RemovingStale ==> step(stage, event).0 == Stage::MakingDirectory,
        stage == Stage::MakingDirectory ==> step(stage, event).0 == Stage::Locking,
        stage == Stage::Locking && event == (Event::Locked { held: true }) ==> step(stage, event).0
            == Stage::Clearing,
        stage == Stage::Clearing ==> step(stage, event).0 == Stage::Binding,
        stage == Stage::Binding ==> step(stage, event).0 == Stage::Serving,
{
}

/// A daemon that serves takes on every client that connects, reports one that fails to, passes over
/// a shutdown that was withdrawn, and ends for the reason that it was given.
pub proof fn law_a_daemon_serves_its_clients(connected: bool)
    ensures
        step(Stage::Serving, Event::Accepted { connected }) == (
            Stage::Serving,
            if connected {
                Action::ServeClient
            } else {
                Action::ReportAcceptError
            },
        ),
        step(Stage::Serving, Event::ShutdownRequested { requested: false }) == (
            Stage::Serving,
            Action::AwaitEvent,
        ),
        step(Stage::Serving, Event::ShutdownRequested { requested: true }).1 == (Action::End {
            ending: Ending::Requested,
            served: true,
        }),
        step(Stage::Serving, Event::Terminated).1 == (Action::End {
            ending: Ending::Terminated,
            served: true,
        }),
        step(Stage::Serving, Event::Interrupted).1 == (Action::End {
            ending: Ending::Interrupted,
            served: true,
        }),
{
}

}
