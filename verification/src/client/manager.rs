//! The phases of the client's background loop, and how what the loop
//! receives in each phase moves it on.
use vstd::prelude::*;
use super::dead_render::LiveSocketError;

verus! {

/// The phase of the client's background loop.
#[derive(Debug, Clone, Copy, PartialEq, Eq, Structural)]
pub enum Phase {
    Disconnected,
    Connecting,
    Connected,
    Reconnecting,
    FatalError,
}

impl Phase {
    /// The name of the phase, as the client's status reports it.
    pub fn name(&self) -> (r: &'static str)
        ensures
            r@ == phase_name(*self),
    {
        match self {
            Phase::Disconnected => "disconnected",
            Phase::Connecting => "connecting",
            Phase::Reconnecting => "reconnecting",
            Phase::Connected => "connected",
            Phase::FatalError => "error",
        }
    }
}

/// The name of a phase.
pub open spec fn phase_name(p: Phase) -> Seq<char> {
    match p {
        Phase::Disconnected => "disconnected"@,
        Phase::Connecting => "connecting"@,
        Phase::Reconnecting => "reconnecting"@,
        Phase::Connected => "connected"@,
        Phase::FatalError => "error"@,
    }
}

/// A status of the web socket.
#[derive(Debug, Clone, Copy, PartialEq, Eq, Structural)]
pub enum SocketStatus {
    NeverConnected,
    Connected,
    WaitingToReconnect,
    Disconnected,
    ShuttingDown,
    ShutDown,
}

/// How a navigation of the connected client ended.
#[derive(Debug, Clone, Copy, PartialEq, Eq, Structural)]
pub enum NavOutcome {
    /// The new view was joined.
    Joined,
    /// The server rejected the join; its reply is handled.
    JoinRejected,
    /// It failed otherwise.
    Failed,
}

/// What the background loop received while waiting in a phase.
#[derive(Debug, Clone, Copy, PartialEq, Eq, Structural)]
pub enum LoopEvent {
    /// Shutdown of the client was requested.
    Cancelled,
    /// Every handle that sends the loop messages is gone.
    MessagesClosed,
    /// A reconnect was asked for. `remote` when the server asked for it;
    /// then `url_parses` tells whether its URL parses and `nav_refused`
    /// whether the navigation history refused to record it.
    Reconnect { remote: bool, url_parses: bool, nav_refused: bool },
    /// A disconnect was asked for.
    Disconnect,
    /// A call, a cast or an upload was served by the connected client.
    Served,
    /// A navigation was asked of the connected client, as for a reconnect,
    /// and when it was attempted, it ended as `outcome`.
    Navigate { remote: bool, url_parses: bool, nav_refused: bool, outcome: NavOutcome },
    /// An event of the server was handled; `ok` is false when that failed.
    ServerEvent { ok: bool },
    /// The socket reported a status; none when reading it failed.
    Socket(Option<SocketStatus>),
    /// The connection attempt connected.
    ConnectionMade,
    /// The connection attempt failed.
    ConnectionFailed,
    /// The task of the connection attempt panicked.
    ConnectionPanicked,
}

/// Whether the loop can receive `e` in phase `p`: what it waits for in that
/// phase. The live reload channel of a fatal error is not listened to.
pub open spec fn can_happen(p: Phase, e: LoopEvent) -> bool {
    match e {
        LoopEvent::Cancelled | LoopEvent::MessagesClosed | LoopEvent::Reconnect { .. } | LoopEvent::Disconnect => true,
        LoopEvent::Served | LoopEvent::Navigate { .. } | LoopEvent::ServerEvent { .. } => p == Phase::Connected,
        LoopEvent::Socket(_) => p == Phase::Connected || p == Phase::Reconnecting,
        LoopEvent::ConnectionMade | LoopEvent::ConnectionFailed | LoopEvent::ConnectionPanicked => p == Phase::Connecting,
    }
}

/// What is released on leaving a phase.
#[derive(Debug, Clone, Copy, PartialEq, Eq, Structural)]
pub enum Cleanup {
    Nothing,
    /// Shut the client down.
    ShutdownClient,
    /// Wait for the connection attempt, and shut its client down if it
    /// connected.
    EndAttempt,
    /// Wait for the connection attempt, and disconnect and shut down its
    /// socket if it connected.
    DisconnectAttempt,
    /// Leave the live reload channel, if there is one.
    LeaveLiveReload,
}

/// What the loop does on an event: what it releases, whether it starts a
/// connection attempt, cancels the client, answers the disconnect asked
/// for, publishes the new status and tells the handler of it, and the phase
/// it goes to; `failed` when the phase is a fatal error.
#[derive(Debug, Clone, Copy, PartialEq, Eq, Structural)]
pub struct Transition {
    pub next: Phase,
    pub failed: bool,
    pub cleanup: Cleanup,
    pub connect: bool,
    pub cancel: bool,
    pub answer_disconnect: bool,
    pub publish: bool,
    pub notify: bool,
}

/// The loop stays where it is.
pub open spec fn stay(p: Phase) -> Transition {
    Transition { next: p, failed: false, cleanup: Cleanup::Nothing, connect: false, cancel: false,
        answer_disconnect: false, publish: false, notify: false }
}

/// The loop moves to `next`, releasing `cleanup`; a new phase is published
/// and the handler told of it.
pub open spec fn go(p: Phase, next: Phase, cleanup: Cleanup) -> Transition {
    Transition { next, failed: false, cleanup, connect: false, cancel: false,
        answer_disconnect: false, publish: next != p, notify: next != p }
}

/// The loop fails, releasing `cleanup`: a fatal error, whose status is
/// published and the handler told of.
pub open spec fn fail(cleanup: Cleanup) -> Transition {
    Transition { next: Phase::FatalError, failed: true, cleanup, connect: false, cancel: false,
        answer_disconnect: false, publish: true, notify: true }
}

/// What is released on leaving phase `p`.
pub open spec fn release(p: Phase) -> Cleanup {
    match p {
        Phase::Disconnected => Cleanup::Nothing,
        Phase::Connecting => Cleanup::EndAttempt,
        Phase::Connected | Phase::Reconnecting => Cleanup::ShutdownClient,
        Phase::FatalError => Cleanup::LeaveLiveReload,
    }
}

/// Where the loop goes on a status of the socket, from phase `p`.
pub open spec fn on_socket(p: Phase, s: SocketStatus) -> Transition {
    match s {
        SocketStatus::Connected => go(p, Phase::Connected, Cleanup::Nothing),
        SocketStatus::Disconnected | SocketStatus::NeverConnected | SocketStatus::WaitingToReconnect =>
            go(p, Phase::Reconnecting, Cleanup::Nothing),
        SocketStatus::ShuttingDown | SocketStatus::ShutDown =>
            Transition { cancel: true, ..go(p, Phase::Disconnected, Cleanup::Nothing) },
    }
}

/// When every sender of messages is gone: the loop cancels the client and
/// disconnects, shutting a client down; from connecting it only ends the
/// attempt and does not cancel; disconnected, it fails.
pub open spec fn on_closed(p: Phase) -> Transition {
    match p {
        Phase::Disconnected => Transition { cancel: true, ..fail(Cleanup::Nothing) },
        Phase::Connecting => go(p, Phase::Disconnected, Cleanup::EndAttempt),
        Phase::FatalError => Transition { cancel: true, ..go(p, Phase::Disconnected, Cleanup::Nothing) },
        _ => Transition { cancel: true, ..go(p, Phase::Disconnected, Cleanup::ShutdownClient) },
    }
}

/// A reconnect releases what the phase holds and starts a connection
/// attempt, unless the server asked for it while connected and either its
/// URL does not parse (a failure) or the history refused it (nothing
/// changes).
pub open spec fn on_reconnect(p: Phase, remote: bool, url_parses: bool, nav_refused: bool) -> Transition {
    if p == Phase::Connected && remote && !url_parses {
        fail(Cleanup::Nothing)
    } else if p == Phase::Connected && remote && nav_refused {
        stay(p)
    } else {
        Transition { connect: true, ..go(p, Phase::Connecting, release(p)) }
    }
}

/// A disconnect releases what the phase holds (a connection attempt is
/// disconnected), is answered, and disconnects.
pub open spec fn on_disconnect(p: Phase) -> Transition {
    let cleanup = if p == Phase::Connecting { Cleanup::DisconnectAttempt } else { release(p) };
    Transition { answer_disconnect: true, ..go(p, Phase::Disconnected, cleanup) }
}

/// A navigation is checked as a reconnect is, and then fails the loop only
/// when it failed other than by a rejected join; a joined view publishes
/// the status again.
pub open spec fn on_navigate(p: Phase, remote: bool, url_parses: bool, nav_refused: bool, outcome: NavOutcome) -> Transition {
    if remote && !url_parses {
        fail(Cleanup::Nothing)
    } else if remote && nav_refused {
        stay(p)
    } else {
        match outcome {
            NavOutcome::Joined => Transition { publish: true, ..stay(p) },
            NavOutcome::JoinRejected => stay(p),
            NavOutcome::Failed => fail(Cleanup::ShutdownClient),
        }
    }
}

/// A server event changes nothing, unless handling it failed.
pub open spec fn on_server_event(p: Phase, ok: bool) -> Transition {
    if ok { stay(p) } else { fail(Cleanup::ShutdownClient) }
}

/// A socket status moves the loop as [on_socket] says; one that cannot be
/// read fails the loop.
pub open spec fn on_socket_read(p: Phase, s: Option<SocketStatus>) -> Transition {
    match s {
        None => fail(Cleanup::Nothing),
        Some(st) => on_socket(p, st),
    }
}

/// What is released on leaving phase `p`.
fn release_of(p: Phase) -> (r: Cleanup)
    ensures
        r == release(p),
{
    match p {
        Phase::Disconnected => Cleanup::Nothing,
        Phase::Connecting => Cleanup::EndAttempt,
        Phase::Connected | Phase::Reconnecting => Cleanup::ShutdownClient,
        Phase::FatalError => Cleanup::LeaveLiveReload,
    }
}

/// The loop moves from `p` to `next`, releasing `cleanup`.
fn go_to(p: Phase, next: Phase, cleanup: Cleanup) -> (r: Transition)
    ensures
        r == go(p, next, cleanup),
{
    let changed = next != p;
    Transition { next, failed: false, cleanup, connect: false, cancel: false,
        answer_disconnect: false, publish: changed, notify: changed }
}

/// The loop stays in `p`.
fn stay_in(p: Phase) -> (r: Transition)
    ensures
        r == stay(p),
{
    Transition { next: p, failed: false, cleanup: Cleanup::Nothing, connect: false, cancel: false,
        answer_disconnect: false, publish: false, notify: false }
}

/// The loop fails, releasing `cleanup`.
fn fail_with(cleanup: Cleanup) -> (r: Transition)
    ensures
        r == fail(cleanup),
{
    Transition { next: Phase::FatalError, failed: true, cleanup, connect: false, cancel: false,
        answer_disconnect: false, publish: true, notify: true }
}

/// Decides what the loop does in phase `p` on event `e`.
///
/// Cancellation disconnects, releasing what the phase holds. When every
/// sender is gone the loop cancels the client and disconnects, shutting a
/// client down (from connecting it only ends the attempt and does not
/// cancel; disconnected, it fails). A reconnect releases what the phase
/// holds and starts a connection attempt, unless the server asked for it
/// while connected and either its URL does not parse (a failure) or the
/// history refused it (nothing changes). A disconnect releases what the
/// phase holds, is answered, and disconnects. Connected, served messages
/// change nothing, and a navigation is checked as a reconnect is and then
/// fails the loop only when it failed other than by a rejected join; a
/// joined view publishes the status again. A server event whose handling
/// failed fails the loop. A socket status moves the loop as [on_socket]
/// says; one that cannot be read fails the loop. A connection attempt that
/// connects moves the loop to connected; one that fails, fails it.
///
/// Whenever the phase changes, a failure included, the new status is
/// published and the handler told of it.
pub fn transition(p: Phase, e: LoopEvent) -> (r: Transition)
    requires
        can_happen(p, e),
    ensures
        e is Cancelled ==> r == go(p, Phase::Disconnected, release(p)),
        e is MessagesClosed ==> r == on_closed(p),
        e is Reconnect ==> r == on_reconnect(p, e->Reconnect_remote, e->Reconnect_url_parses, e->Reconnect_nav_refused),
        e is Disconnect ==> r == on_disconnect(p),
        e is Served ==> r == stay(p),
        e is Navigate ==> r == on_navigate(p, e->Navigate_remote, e->Navigate_url_parses, e->Navigate_nav_refused, e->outcome),
        e is ServerEvent ==> r == on_server_event(p, e->ok),
        e is Socket ==> r == on_socket_read(p, e->0),
        e is ConnectionMade ==> r == go(p, Phase::Connected, Cleanup::Nothing),
        (e is ConnectionFailed) || (e is ConnectionPanicked) ==> r == fail(Cleanup::Nothing),
        e is Disconnect ==> r.next == Phase::Disconnected && r.answer_disconnect && !r.connect,
        e is Cancelled ==> r.next == Phase::Disconnected && !r.connect && !r.failed,
        r.failed <==> r.next == Phase::FatalError,
        r.connect ==> r.next == Phase::Connecting,
        r.notify <==> r.next != p,
        r.notify ==> r.publish,
{
    match e {
        LoopEvent::Cancelled => go_to(p, Phase::Disconnected, release_of(p)),
        LoopEvent::MessagesClosed => match p {
            Phase::Disconnected => Transition { cancel: true, ..fail_with(Cleanup::Nothing) },
            Phase::Connecting => go_to(p, Phase::Disconnected, Cleanup::EndAttempt),
            Phase::FatalError => Transition { cancel: true, ..go_to(p, Phase::Disconnected, Cleanup::Nothing) },
            _ => Transition { cancel: true, ..go_to(p, Phase::Disconnected, Cleanup::ShutdownClient) },
        },
        LoopEvent::Reconnect { remote, url_parses, nav_refused } => {
            if p == Phase::Connected && remote && !url_parses {
                fail_with(Cleanup::Nothing)
            } else if p == Phase::Connected && remote && nav_refused {
                stay_in(p)
            } else {
                Transition { connect: true, ..go_to(p, Phase::Connecting, release_of(p)) }
            }
        },
        LoopEvent::Disconnect => {
            let cleanup = if p == Phase::Connecting { Cleanup::DisconnectAttempt } else { release_of(p) };
            Transition { answer_disconnect: true, ..go_to(p, Phase::Disconnected, cleanup) }
        },
        LoopEvent::Served => stay_in(p),
        LoopEvent::Navigate { remote, url_parses, nav_refused, outcome } => {
            if remote && !url_parses {
                fail_with(Cleanup::Nothing)
            } else if remote && nav_refused {
                stay_in(p)
            } else {
                match outcome {
                    NavOutcome::Joined => Transition { publish: true, ..stay_in(p) },
                    NavOutcome::JoinRejected => stay_in(p),
                    NavOutcome::Failed => fail_with(Cleanup::ShutdownClient),
                }
            }
        },
        LoopEvent::ServerEvent { ok } => {
            if ok {
                stay_in(p)
            } else {
                fail_with(Cleanup::ShutdownClient)
            }
        },
        LoopEvent::Socket(None) => fail_with(Cleanup::Nothing),
        LoopEvent::Socket(Some(s)) => match s {
            SocketStatus::Connected => go_to(p, Phase::Connected, Cleanup::Nothing),
            SocketStatus::Disconnected | SocketStatus::NeverConnected | SocketStatus::WaitingToReconnect =>
                go_to(p, Phase::Reconnecting, Cleanup::Nothing),
            SocketStatus::ShuttingDown | SocketStatus::ShutDown =>
                Transition { cancel: true, ..go_to(p, Phase::Disconnected, Cleanup::Nothing) },
        },
        LoopEvent::ConnectionMade => go_to(p, Phase::Connected, Cleanup::Nothing),
        LoopEvent::ConnectionFailed | LoopEvent::ConnectionPanicked => fail_with(Cleanup::Nothing),
    }
}

/// The state the loop enters on a failure: the error, and the live reload
/// channel that came with the failure, held apart from the error so that the
/// loop can still listen to it; the status it publishes reports the error.
pub struct FatalError<C> {
    pub error: LiveSocketError,
    pub livereload_channel: Option<C>,
}

impl<C> FatalError<C> {
    /// The fatal state for a failure with `error` that came with
    /// `livereload_channel`, if any.
    pub fn from_failure(error: LiveSocketError, livereload_channel: Option<C>) -> (r: Self)
        ensures
            r.error == error,
            r.livereload_channel == livereload_channel,
    {
        FatalError { error, livereload_channel }
    }

    /// The error the published status reports.
    pub fn status_error(&self) -> (r: &LiveSocketError)
        ensures
            *r == self.error,
    {
        &self.error
    }
}

} // verus!
