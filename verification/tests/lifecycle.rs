use relay_supervisor::events::LogEvent;
use relay_supervisor::request::{RelayRequest, RequestError};
use relay_supervisor::supervisor::{Supervisor, TerminationAction};

fn request(source: &str, destinations: &[&str]) -> RelayRequest {
    RelayRequest {
        source: source.to_owned(),
        destinations: destinations.iter().map(|d| (*d).to_owned()).collect(),
    }
}

#[test]
fn successful_session_event_order() {
    let mut sup = Supervisor::new();
    let req = request("srt://host:1/app", &["rtmp://a/live/k1"]);
    let args = sup.launch(&req).unwrap();
    assert_eq!(args.len(), 7);

    let mut observed: Vec<LogEvent> = Vec::new();
    observed.push(sup.spawn_succeeded());
    observed.extend(sup.stream_chunk(b"opening input\nconnected\n"));
    observed.extend(sup.stream_chunk(b"half a li"));
    sup.stream_ended();
    observed.push(sup.process_exited(Some(0)));

    assert_eq!(
        observed,
        vec![
            LogEvent::Started,
            LogEvent::Line(b"opening input".to_vec()),
            LogEvent::Line(b"connected".to_vec()),
            LogEvent::Exited(Some(0)),
        ]
    );
}

#[test]
fn line_events_preserve_byte_order_and_discard_trailing() {
    let mut sup = Supervisor::new();
    let req = request("srt://in", &["rtmp://out"]);
    sup.launch(&req).unwrap();
    sup.spawn_succeeded();
    let lines = sup.stream_chunk(b"a\nb\nc");
    assert_eq!(
        lines,
        vec![LogEvent::Line(b"a".to_vec()), LogEvent::Line(b"b".to_vec())]
    );
    sup.stream_ended();
    let terminal = sup.process_exited(Some(0));
    assert_eq!(terminal, LogEvent::Exited(Some(0)));
}

#[test]
fn spawn_failure_is_the_only_event() {
    let mut sup = Supervisor::new();
    let req = request("srt://in", &["rtmp://out"]);
    sup.launch(&req).unwrap();
    let e = sup.spawn_failed("worker binary not found".to_owned());
    assert_eq!(e, LogEvent::SpawnFailed("worker binary not found".to_owned()));
}

#[test]
fn launch_while_running_is_rejected_and_session_survives() {
    let mut sup = Supervisor::new();
    let req = request("srt://in", &["rtmp://out"]);
    sup.launch(&req).unwrap();
    sup.spawn_succeeded();

    let second = request("srt://other", &["rtmp://elsewhere"]);
    assert_eq!(sup.launch(&second), Err(RequestError::AlreadyRunning));

    let lines = sup.stream_chunk(b"still relaying\n");
    assert_eq!(lines, vec![LogEvent::Line(b"still relaying".to_vec())]);
    sup.stream_ended();
    assert_eq!(sup.process_exited(Some(0)), LogEvent::Exited(Some(0)));
}

#[test]
fn launch_while_spawning_is_rejected() {
    let mut sup = Supervisor::new();
    let req = request("srt://in", &["rtmp://out"]);
    sup.launch(&req).unwrap();
    assert_eq!(sup.launch(&req), Err(RequestError::AlreadyRunning));
}

#[test]
fn invalid_request_rejected_while_idle() {
    let mut sup = Supervisor::new();
    let req = request("srt://in", &[]);
    assert_eq!(sup.launch(&req), Err(RequestError::InvalidRequest));
    let ok = request("srt://in", &["rtmp://out"]);
    assert!(sup.launch(&ok).is_ok());
}

#[test]
fn termination_requested_twice_signals_once_one_exited() {
    let mut sup = Supervisor::new();
    let req = request("srt://in", &["rtmp://out"]);
    sup.launch(&req).unwrap();
    sup.spawn_succeeded();

    assert_eq!(sup.request_termination(), TerminationAction::SignalWorker);
    assert_eq!(sup.request_termination(), TerminationAction::NoAction);

    sup.stream_ended();
    let mut terminals: Vec<LogEvent> = Vec::new();
    terminals.push(sup.process_exited(None));
    assert_eq!(terminals, vec![LogEvent::Exited(None)]);
    // a further request after the session ended does nothing
    assert_eq!(sup.request_termination(), TerminationAction::NoAction);
}

#[test]
fn termination_request_before_launch_is_no_action() {
    let mut sup = Supervisor::new();
    assert_eq!(sup.request_termination(), TerminationAction::NoAction);
}

#[test]
fn relaunch_after_exit_starts_fresh_session() {
    let mut sup = Supervisor::new();
    let req = request("srt://in", &["rtmp://out"]);
    sup.launch(&req).unwrap();
    sup.spawn_succeeded();
    sup.stream_ended();
    sup.process_exited(Some(1));

    let again = sup.launch(&req).unwrap();
    assert_eq!(again.len(), 7);
    assert_eq!(sup.spawn_succeeded(), LogEvent::Started);
    let lines = sup.stream_chunk(b"second run\n");
    assert_eq!(lines, vec![LogEvent::Line(b"second run".to_vec())]);
}

#[test]
fn relaunch_after_spawn_failure_starts_fresh_session() {
    let mut sup = Supervisor::new();
    let req = request("srt://in", &["rtmp://out"]);
    sup.launch(&req).unwrap();
    sup.spawn_failed("permission denied".to_owned());

    assert!(sup.launch(&req).is_ok());
    assert_eq!(sup.spawn_succeeded(), LogEvent::Started);
}
