use a2app::router::{AgentRequest, RequestDoc};
use a2app::state::{handle_host_command, send_command, CommandSender, send_outcome, AppState, HostCommand, HostState, PendingLaunch};
use tokio::sync::mpsc;

fn s(x: &str) -> String {
    x.to_string()
}

#[test]
fn send_command_without_channel_is_not_ready() {
    let mut tx: Option<CommandSender> = None;
    let r = send_command(&mut tx, HostCommand::CloseApp(s("a")));
    assert_eq!(r, Err(s("Makepad backend is not ready yet.")));
    assert!(tx.is_none());
}

#[test]
fn send_command_delivers_on_open_channel() {
    let (tx, mut rx) = mpsc::unbounded_channel::<HostCommand>();
    let mut tx = Some(CommandSender::new(tx));
    let r = send_command(&mut tx, HostCommand::Inference { app_id: s("a"), content: s("2+2") });
    assert_eq!(r, Ok(()));
    match rx.try_recv() {
        Ok(HostCommand::Inference { app_id, content }) => {
            assert_eq!(app_id, "a");
            assert_eq!(content, "2+2");
        }
        other => panic!("unexpected {:?}", other),
    }
}

#[test]
fn send_command_reports_closed_channel() {
    let (tx, rx) = mpsc::unbounded_channel::<HostCommand>();
    drop(rx);
    let mut tx = Some(CommandSender::new(tx));
    let r = send_command(&mut tx, HostCommand::CloseApp(s("a")));
    assert_eq!(r, Err(s("Makepad backend command channel is closed.")));
    assert_eq!(send_outcome(Ok(())), Ok(()));
    assert_eq!(
        send_outcome(Err(mpsc::error::SendError(HostCommand::CloseApp(s("b"))))),
        Err(s("Makepad backend command channel is closed."))
    );
}

#[test]
fn new_app_state_is_idle() {
    let a = AppState::new(s("View{}"));
    assert_eq!(a.content, "View{}");
    assert_eq!(a.last_request, None);
    assert_eq!(a.last_response, None);
    assert!(!a.request_in_flight);
    assert!(a.pending_inference.is_empty());
    let l = PendingLaunch { id: s("a"), content: s("c") };
    assert_eq!(l.id, "a");
}

#[test]
fn revision_wraps() {
    let mut h = HostState::new();
    assert_eq!(h.revision, 0);
    h.bump_revision();
    assert_eq!(h.revision, 1);
    h.revision = u64::MAX;
    h.bump_revision();
    assert_eq!(h.revision, 0);
}

#[test]
fn inference_command_is_recorded_and_queued() {
    let mut h = HostState::new();
    h.apps.push((s("a"), AppState::new(s("A"))));
    h.apps.push((s("b"), AppState::new(s("B"))));
    let mut doc = RequestDoc::new();
    handle_host_command(&mut h, &mut doc, HostCommand::Inference { app_id: s("b"), content: s("q") });
    assert_eq!(h.revision, 1);
    assert_eq!(h.apps[1].1.last_request, Some(s("q")));
    assert!(h.apps[1].1.request_in_flight);
    assert!(!h.apps[0].1.request_in_flight);
    assert_eq!(doc.requests, vec![AgentRequest::Inference { content: s("q"), app_id: s("b") }]);
    // An unknown app is still queued, but nothing is recorded.
    handle_host_command(&mut h, &mut doc, HostCommand::Inference { app_id: s("z"), content: s("q2") });
    assert_eq!(h.revision, 1);
    assert_eq!(doc.requests.len(), 2);
    handle_host_command(&mut h, &mut doc, HostCommand::CloseApp(s("a")));
    assert_eq!(doc.requests[2], AgentRequest::CloseApp { id: s("a") });
    assert_eq!(h.revision, 1);
}
