use liveview_native_core::client::manager::{transition, Cleanup, LoopEvent, NavOutcome, Phase, SocketStatus, Transition};
use liveview_native_core::client::manager::FatalError;
use liveview_native_core::client::dead_render::LiveSocketError;

fn moved(next: Phase, cleanup: Cleanup) -> Transition {
    Transition {
        next,
        failed: false,
        cleanup,
        connect: false,
        cancel: false,
        answer_disconnect: false,
        publish: true,
        notify: true,
    }
}

fn stayed(p: Phase) -> Transition {
    Transition {
        next: p,
        failed: false,
        cleanup: Cleanup::Nothing,
        connect: false,
        cancel: false,
        answer_disconnect: false,
        publish: false,
        notify: false,
    }
}

fn failed(cleanup: Cleanup) -> Transition {
    Transition {
        next: Phase::FatalError,
        failed: true,
        cleanup,
        connect: false,
        cancel: false,
        answer_disconnect: false,
        publish: true,
        notify: true,
    }
}

#[test]
fn phase_names() {
    assert_eq!(Phase::Disconnected.name(), "disconnected");
    assert_eq!(Phase::Connecting.name(), "connecting");
    assert_eq!(Phase::Connected.name(), "connected");
    assert_eq!(Phase::Reconnecting.name(), "reconnecting");
    assert_eq!(Phase::FatalError.name(), "error");
}

#[test]
fn disconnect_is_answered_in_every_phase() {
    for p in [Phase::Disconnected, Phase::Connecting, Phase::Connected, Phase::Reconnecting, Phase::FatalError] {
        let t = transition(p, LoopEvent::Disconnect);
        assert_eq!(t.next, Phase::Disconnected);
        assert!(t.answer_disconnect);
        assert!(!t.connect);
    }
    let t = transition(Phase::Connected, LoopEvent::Disconnect);
    assert_eq!(t, Transition { answer_disconnect: true, ..moved(Phase::Disconnected, Cleanup::ShutdownClient) });
    let t = transition(Phase::Connecting, LoopEvent::Disconnect);
    assert_eq!(t.cleanup, Cleanup::DisconnectAttempt);
    let t = transition(Phase::Disconnected, LoopEvent::Disconnect);
    assert_eq!(t, Transition { answer_disconnect: true, ..stayed(Phase::Disconnected) });
}

#[test]
fn cancellation_disconnects() {
    assert_eq!(transition(Phase::Connected, LoopEvent::Cancelled), moved(Phase::Disconnected, Cleanup::ShutdownClient));
    assert_eq!(transition(Phase::Connecting, LoopEvent::Cancelled), moved(Phase::Disconnected, Cleanup::EndAttempt));
    assert_eq!(transition(Phase::FatalError, LoopEvent::Cancelled), moved(Phase::Disconnected, Cleanup::LeaveLiveReload));
    assert_eq!(transition(Phase::Disconnected, LoopEvent::Cancelled), stayed(Phase::Disconnected));
}

#[test]
fn connection_attempts_end() {
    assert_eq!(transition(Phase::Connecting, LoopEvent::ConnectionMade), moved(Phase::Connected, Cleanup::Nothing));
    assert_eq!(transition(Phase::Connecting, LoopEvent::ConnectionFailed), failed(Cleanup::Nothing));
    assert_eq!(transition(Phase::Connecting, LoopEvent::ConnectionPanicked), failed(Cleanup::Nothing));
}

#[test]
fn reconnects() {
    let local = LoopEvent::Reconnect { remote: false, url_parses: false, nav_refused: true };
    assert_eq!(transition(Phase::Connected, local), Transition { connect: true, ..moved(Phase::Connecting, Cleanup::ShutdownClient) });
    assert_eq!(transition(Phase::FatalError, local), Transition { connect: true, ..moved(Phase::Connecting, Cleanup::LeaveLiveReload) });
    let refused = LoopEvent::Reconnect { remote: true, url_parses: true, nav_refused: true };
    assert_eq!(transition(Phase::Connected, refused), stayed(Phase::Connected));
    let bad = LoopEvent::Reconnect { remote: true, url_parses: false, nav_refused: false };
    assert_eq!(transition(Phase::Connected, bad), failed(Cleanup::Nothing));
    let again = transition(Phase::Connecting, refused);
    assert_eq!(again.next, Phase::Connecting);
    assert!(again.connect);
    assert!(!again.publish);
    assert_eq!(again.cleanup, Cleanup::EndAttempt);
}

#[test]
fn socket_statuses_move_the_loop() {
    let waiting = LoopEvent::Socket(Some(SocketStatus::WaitingToReconnect));
    assert_eq!(transition(Phase::Connected, waiting), moved(Phase::Reconnecting, Cleanup::Nothing));
    assert_eq!(transition(Phase::Reconnecting, waiting), stayed(Phase::Reconnecting));
    let up = LoopEvent::Socket(Some(SocketStatus::Connected));
    assert_eq!(transition(Phase::Reconnecting, up), moved(Phase::Connected, Cleanup::Nothing));
    let down = LoopEvent::Socket(Some(SocketStatus::ShutDown));
    assert_eq!(transition(Phase::Connected, down), Transition { cancel: true, ..moved(Phase::Disconnected, Cleanup::Nothing) });
    assert_eq!(transition(Phase::Reconnecting, LoopEvent::Socket(None)), failed(Cleanup::Nothing));
}

#[test]
fn connected_messages() {
    assert_eq!(transition(Phase::Connected, LoopEvent::Served), stayed(Phase::Connected));
    assert_eq!(transition(Phase::Connected, LoopEvent::ServerEvent { ok: true }), stayed(Phase::Connected));
    assert_eq!(transition(Phase::Connected, LoopEvent::ServerEvent { ok: false }), failed(Cleanup::ShutdownClient));
    let joined = LoopEvent::Navigate { remote: false, url_parses: true, nav_refused: false, outcome: NavOutcome::Joined };
    assert_eq!(transition(Phase::Connected, joined), Transition { publish: true, ..stayed(Phase::Connected) });
    let rejected = LoopEvent::Navigate { remote: true, url_parses: true, nav_refused: false, outcome: NavOutcome::JoinRejected };
    assert_eq!(transition(Phase::Connected, rejected), stayed(Phase::Connected));
    let broken = LoopEvent::Navigate { remote: false, url_parses: true, nav_refused: false, outcome: NavOutcome::Failed };
    assert_eq!(transition(Phase::Connected, broken), failed(Cleanup::ShutdownClient));
}

#[test]
fn closed_message_channels() {
    assert_eq!(transition(Phase::Disconnected, LoopEvent::MessagesClosed), Transition { cancel: true, ..failed(Cleanup::Nothing) });
    assert_eq!(transition(Phase::Connecting, LoopEvent::MessagesClosed), moved(Phase::Disconnected, Cleanup::EndAttempt));
    assert_eq!(transition(Phase::Connected, LoopEvent::MessagesClosed), Transition { cancel: true, ..moved(Phase::Disconnected, Cleanup::ShutdownClient) });
    assert_eq!(transition(Phase::FatalError, LoopEvent::MessagesClosed), Transition { cancel: true, ..moved(Phase::Disconnected, Cleanup::Nothing) });
}

#[test]
fn a_failure_becomes_a_fatal_error_keeping_its_live_reload_channel() {
    let fatal = FatalError::from_failure(LiveSocketError::NoHostInURL, Some("channel"));
    assert_eq!(*fatal.status_error(), LiveSocketError::NoHostInURL);
    assert_eq!(fatal.livereload_channel, Some("channel"));
    let fatal: FatalError<u8> = FatalError::from_failure(LiveSocketError::ParseError, None);
    assert_eq!(fatal.error, LiveSocketError::ParseError);
    assert!(fatal.livereload_channel.is_none());
}
