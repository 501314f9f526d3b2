use a2app::bridge::{apply_pi_message, doc_state, listed_pids, raises_interaction, status_label, welcome, BridgeTracker, HarnessToPiMsg, PiStep, PiToHarnessMsg};
use a2app::doc::{AgentDoc, AppStatus, DebugCommand, PendingApp};
use a2app::host::{HostView, HostWatch};

fn s(x: &str) -> String {
    x.to_string()
}

fn launched(id: &str) -> AgentDoc {
    let mut d = AgentDoc::default();
    d.pending_app = Some(PendingApp { id: s(id), splash_body: s("View{}"), status: AppStatus::Launched });
    d
}

#[test]
fn status_words() {
    assert_eq!(status_label(AppStatus::Pending), "Pending");
    assert_eq!(status_label(AppStatus::Launched), "Launched");
    assert_eq!(welcome(), HarnessToPiMsg::Welcome);
}

#[test]
fn launch_message_writes_pending_then_confirms() {
    let mut d = AgentDoc::default();
    d.user_response = Some(s("old"));
    d.error_message = Some(s("old error"));
    let step = apply_pi_message(&mut d, PiToHarnessMsg::Launch { app_id: s("counter"), splash_body: s("Button{}") });
    assert!(matches!(step, PiStep::ConfirmLaunch));
    assert_eq!(d.pending_app, Some(PendingApp { id: s("counter"), splash_body: s("Button{}"), status: AppStatus::Pending }));
    assert_eq!(d.user_response, None);
    assert_eq!(d.error_message, None);
    assert!(d.extension_requests);
    d.confirm_launch();
    assert_eq!(d.pending_app.unwrap().status, AppStatus::Launched);
}

#[test]
fn debug_message_sets_command_and_interaction() {
    let mut d = AgentDoc::default();
    d.debug_response = Some(s("stale"));
    let msg = PiToHarnessMsg::Debug { app_id: s("a"), command: s("click"), params: s("{\"x\":1,\"y\":2}") };
    assert!(raises_interaction(&msg));
    let step = apply_pi_message(&mut d, msg);
    assert!(matches!(step, PiStep::Continue));
    assert_eq!(d.debug_response, None);
    assert_eq!(d.debug_command, Some(DebugCommand { command: s("click"), params: s("{\"x\":1,\"y\":2}") }));
    assert!(raises_interaction(&PiToHarnessMsg::Debug { app_id: s("a"), command: s("type_text"), params: s("hi") }));
    assert!(!raises_interaction(&PiToHarnessMsg::Debug { app_id: s("a"), command: s("widget_dump"), params: s("") }));
    assert!(!raises_interaction(&PiToHarnessMsg::GetDoc));
}

#[test]
fn get_doc_answers_and_changes_nothing() {
    let mut d = launched("a");
    d.user_response = Some(s("ur"));
    d.pi_response = Some(s("pi"));
    let before = d.clone();
    let step = apply_pi_message(&mut d, PiToHarnessMsg::GetDoc);
    assert_eq!(d, before);
    match step {
        PiStep::Reply(m) => assert_eq!(
            m,
            HarnessToPiMsg::DocState {
                app_id: Some(s("a")),
                user_response: Some(s("ur")),
                error_message: None,
                status: Some(s("Launched")),
                pi_response: Some(s("pi")),
            }
        ),
        _ => panic!("expected a reply"),
    }
    assert_eq!(
        doc_state(&AgentDoc::default()),
        HarnessToPiMsg::DocState { app_id: None, user_response: None, error_message: None, status: None, pi_response: None }
    );
}

#[test]
fn streaming_messages_append_then_finish() {
    let mut d = AgentDoc::default();
    apply_pi_message(&mut d, PiToHarnessMsg::SendStreamingDelta { app_id: s("a"), delta: s("Hel") });
    apply_pi_message(&mut d, PiToHarnessMsg::SendStreamingDelta { app_id: s("a"), delta: s("lo") });
    assert_eq!(d.streaming_text, Some(s("Hello")));
    apply_pi_message(&mut d, PiToHarnessMsg::SendStreamingEnd { app_id: s("a"), final_text: s("Hello!") });
    assert_eq!(d.streaming_text, None);
    assert_eq!(d.pi_response, Some(s("Hello!")));
    apply_pi_message(&mut d, PiToHarnessMsg::SendStreamingDelta { app_id: s("a"), delta: s("x") });
    apply_pi_message(&mut d, PiToHarnessMsg::SendPiResponse { app_id: s("a"), data: s("data") });
    assert_eq!(d.streaming_text, None);
    assert_eq!(d.pi_response, Some(s("data")));
}

#[test]
fn streaming_delta_appends_to_existing_text() {
    let mut d = AgentDoc::default();
    d.streaming_text = Some(s("hel"));
    let mut want = d.clone();
    apply_pi_message(&mut d, PiToHarnessMsg::SendStreamingDelta { app_id: s("t"), delta: s("lo") });
    want.streaming_text = Some(s("hello"));
    want.extension_requests = true;
    assert_eq!(d, want);
}

#[test]
fn streaming_deltas_join_in_order() {
    let mut d = AgentDoc::default();
    apply_pi_message(&mut d, PiToHarnessMsg::SendStreamingDelta { app_id: s("t"), delta: s("x") });
    apply_pi_message(&mut d, PiToHarnessMsg::SendStreamingDelta { app_id: s("t"), delta: s("y") });
    apply_pi_message(&mut d, PiToHarnessMsg::SendStreamingDelta { app_id: s("t"), delta: s("z") });
    assert_eq!(d.streaming_text, Some(s("xyz")));
}

#[test]
fn clear_and_exit_messages() {
    let mut d = launched("a");
    assert!(matches!(apply_pi_message(&mut d, PiToHarnessMsg::Clear { app_id: s("a") }), PiStep::Continue));
    assert_eq!(d.pending_app, None);
    assert!(d.extension_requests);
    assert!(matches!(apply_pi_message(&mut d, PiToHarnessMsg::Exit), PiStep::Disconnect));
    assert!(d.should_exit);
}

#[test]
fn bridge_forwards_status_once() {
    let mut t = BridgeTracker::new();
    let d = launched("a");
    let step = t.step(&d, false);
    assert_eq!(step.messages, vec![HarnessToPiMsg::Status { app_id: s("a"), status: s("Launched") }]);
    assert!(!step.clear_debug_response);
    assert!(!step.exit);
    let again = t.step(&d, false);
    assert!(again.messages.is_empty());
}

#[test]
fn bridge_forwards_by_version() {
    let mut t = BridgeTracker::new();
    let mut d = launched("a");
    t.step(&d, false);
    // Version 0 is never forwarded.
    d.user_response = Some(s("early"));
    assert!(t.step(&d, false).messages.is_empty());
    d.write_doc_field("user_response", s("true"));
    assert_eq!(t.step(&d, false).messages, vec![HarnessToPiMsg::UserResponse { app_id: s("a"), response: s("true") }]);
    assert!(t.step(&d, false).messages.is_empty());
    // The same value written again is forwarded again.
    d.write_doc_field("user_response", s("true"));
    assert_eq!(t.step(&d, false).messages, vec![HarnessToPiMsg::UserResponse { app_id: s("a"), response: s("true") }]);
}

#[test]
fn bridge_forwards_debug_answer_and_asks_to_clear_it() {
    let mut t = BridgeTracker::new();
    let mut d = launched("a");
    t.step(&d, false);
    d.debug_response = Some(s("{\"ok\":1}"));
    let step = t.step(&d, false);
    assert_eq!(step.messages, vec![HarnessToPiMsg::DebugResponse { app_id: s("a"), result: s("{\"ok\":1}") }]);
    assert!(step.clear_debug_response);
    d.clear_debug_response();
    assert!(t.step(&d, false).messages.is_empty());
    // Without an app the answer is neither forwarded nor cleared.
    let mut bare = AgentDoc::default();
    bare.debug_response = Some(s("x"));
    let step = BridgeTracker::new().step(&bare, false);
    assert!(step.messages.is_empty());
    assert!(!step.clear_debug_response);
}

#[test]
fn bridge_forwards_errors_once_and_in_order() {
    let mut t = BridgeTracker::new();
    let mut d = launched("a");
    d.error_message = Some(s("boom"));
    d.user_response = Some(s("r"));
    d.user_response_version = 3;
    d.debug_response = Some(s("dbg"));
    let step = t.step(&d, false);
    assert_eq!(
        step.messages,
        vec![
            HarnessToPiMsg::UserResponse { app_id: s("a"), response: s("r") },
            HarnessToPiMsg::DebugResponse { app_id: s("a"), result: s("dbg") },
            HarnessToPiMsg::Status { app_id: s("a"), status: s("Launched") },
            HarnessToPiMsg::Error { app_id: s("a"), message: s("boom") },
        ]
    );
    d.clear_debug_response();
    assert!(t.step(&d, false).messages.is_empty());
    d.error_message = None;
    assert!(t.step(&d, false).messages.is_empty());
    d.error_message = Some(s("boom"));
    assert_eq!(t.step(&d, false).messages, vec![HarnessToPiMsg::Error { app_id: s("a"), message: s("boom") }]);
}

#[test]
fn bridge_skips_the_interaction_write() {
    let mut t = BridgeTracker::new();
    let mut d = launched("a");
    d.should_exit = true;
    let step = t.step(&d, true);
    assert!(step.messages.is_empty());
    assert!(!step.exit);
    assert_eq!(t.last_status, None);
    let step = t.step(&d, false);
    assert!(step.exit);
    assert_eq!(step.messages, vec![HarnessToPiMsg::Status { app_id: s("a"), status: s("Launched") }]);
}

#[test]
fn bridge_reports_a_new_app_and_a_cleared_app() {
    let mut t = BridgeTracker::new();
    let mut d = launched("a");
    t.step(&d, false);
    d.pending_app = Some(PendingApp { id: s("b"), splash_body: s("V{}"), status: AppStatus::Launched });
    assert_eq!(t.step(&d, false).messages, vec![HarnessToPiMsg::Status { app_id: s("b"), status: s("Launched") }]);
    d.pending_app = None;
    assert!(t.step(&d, false).messages.is_empty());
    assert_eq!(t.last_status_app_id, None);
}

#[test]
fn stale_pids_are_read_line_by_line() {
    assert_eq!(listed_pids("123\n456\n"), vec![s("123"), s("456")]);
    assert_eq!(listed_pids(" 7 \r\n\n  \n8"), vec![s("7"), s("8")]);
    assert!(listed_pids("").is_empty());
    assert!(listed_pids("\n\n").is_empty());
}

#[test]
fn a_launch_reaches_pi_as_launched() {
    let mut t = BridgeTracker::new();
    let mut d = AgentDoc::default();
    t.step(&d, false);
    apply_pi_message(&mut d, PiToHarnessMsg::Launch { app_id: s("counter-simple"), splash_body: s("Button{}") });
    d.confirm_launch();
    assert_eq!(
        t.step(&d, false).messages,
        vec![HarnessToPiMsg::Status { app_id: s("counter-simple"), status: s("Launched") }]
    );
}

#[test]
fn an_exit_request_stops_both_sides() {
    let mut d = launched("a");
    let mut watch = HostWatch::new();
    watch.observe(&d);
    let mut view = HostView::new();
    view.sync_from_doc(&d);
    assert!(matches!(apply_pi_message(&mut d, PiToHarnessMsg::Exit), PiStep::Disconnect));
    assert!(BridgeTracker::new().step(&d, false).exit);
    let w = watch.observe(&d);
    assert!(w.signal && w.exit);
    let v = view.sync_from_doc(&d);
    assert!(v.exit && v.update.is_none());
}
