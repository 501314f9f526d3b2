use a2app::doc::{AgentDoc, AppStatus, DebugCommand, PendingApp, JSON_WS_PORT, SAMOD_WS_PORT};

fn s(x: &str) -> String {
    x.to_string()
}

fn sample() -> AgentDoc {
    let mut d = AgentDoc::default();
    d.pending_app = Some(PendingApp { id: s("a"), splash_body: s("B"), status: AppStatus::Launched });
    d.extension_requests = true;
    d.should_exit = true;
    d.user_response = Some(s("ur"));
    d.user_response_version = 7;
    d.error_message = Some(s("err"));
    d.debug_command = Some(DebugCommand { command: s("click"), params: s("1,2") });
    d.debug_response = Some(s("dr"));
    d.pi_response = Some(s("pi"));
    d.streaming_text = Some(s("st"));
    d.panic_backtrace = Some(s("bt"));
    d
}

#[test]
fn ports_are_fixed() {
    assert_eq!(JSON_WS_PORT, 2341);
    assert_eq!(SAMOD_WS_PORT, 2342);
}

#[test]
fn default_doc_is_empty() {
    let d = AgentDoc::default();
    assert_eq!(d.pending_app, None);
    assert!(!d.extension_requests);
    assert!(!d.should_exit);
    assert_eq!(d.user_response, None);
    assert_eq!(d.user_response_version, 0);
    assert_eq!(d.error_message, None);
    assert_eq!(d.debug_command, None);
    assert_eq!(d.debug_response, None);
    assert_eq!(d.pi_response, None);
    assert_eq!(d.streaming_text, None);
    assert_eq!(d.panic_backtrace, None);
}

#[test]
fn session_reset_keeps_version_and_pi_fields() {
    let mut d = sample();
    d.reset_session();
    let mut want = AgentDoc::default();
    want.user_response_version = 7;
    want.pi_response = Some(s("pi"));
    want.streaming_text = Some(s("st"));
    want.panic_backtrace = Some(s("bt"));
    assert_eq!(d, want);
}

#[test]
fn launch_is_pending_then_launched() {
    let mut d = sample();
    d.start_launch(s("app-1"), s("View{}"));
    assert_eq!(d.pending_app, Some(PendingApp { id: s("app-1"), splash_body: s("View{}"), status: AppStatus::Pending }));
    assert_eq!(d.user_response, None);
    assert_eq!(d.error_message, None);
    assert!(d.extension_requests);
    assert!(d.awaits_launch());
    d.confirm_launch();
    assert_eq!(d.pending_app.as_ref().map(|a| a.status.clone()), Some(AppStatus::Launched));
    assert!(!d.awaits_launch());
    let mut none = AgentDoc::default();
    none.confirm_launch();
    assert_eq!(none, AgentDoc::default());
}

#[test]
fn write_doc_field_names_the_field() {
    let mut d = AgentDoc::default();
    d.write_doc_field("user_response", s("x"));
    assert_eq!(d.user_response, Some(s("x")));
    assert_eq!(d.user_response_version, 1);
    d.write_doc_field("user_response", s("x"));
    assert_eq!(d.user_response_version, 2);
    d.write_doc_field("error_message", s("e"));
    assert_eq!(d.error_message, Some(s("e")));
    d.write_doc_field("pi_response", s("p"));
    assert_eq!(d.pi_response, Some(s("p")));
    let before = d.clone();
    d.write_doc_field("streaming_text", s("nope"));
    assert_eq!(d, before);
}

#[test]
fn debug_command_round_trip() {
    let mut d = AgentDoc::default();
    d.debug_response = Some(s("stale"));
    d.set_debug_command(s("widget_dump"), s(""));
    assert_eq!(d.debug_response, None);
    assert_eq!(d.debug_command, Some(DebugCommand { command: s("widget_dump"), params: s("") }));
    d.finish_debug_command(Some(s("dump")));
    assert_eq!(d.debug_command, None);
    assert_eq!(d.debug_response, Some(s("dump")));
    d.clear_debug_response();
    assert_eq!(d.debug_response, None);
    d.set_debug_command(s("x"), s("y"));
    d.finish_debug_command(None);
    assert_eq!(d.debug_command, None);
    assert_eq!(d.debug_response, None);
}

#[test]
fn pi_response_supersedes_streaming() {
    let mut d = AgentDoc::default();
    d.append_streaming_text(s("par"));
    assert_eq!(d.streaming_text, Some(s("par")));
    d.append_streaming_text(s("tial"));
    assert_eq!(d.streaming_text, Some(s("partial")));
    d.deliver_pi_response(s("final"));
    assert_eq!(d.streaming_text, None);
    assert_eq!(d.pi_response, Some(s("final")));
    assert!(d.extension_requests);
    d.clear_pi_response();
    assert_eq!(d.pi_response, None);
}

#[test]
fn clear_and_exit() {
    let mut d = sample();
    d.should_exit = false;
    d.extension_requests = false;
    d.clear_app();
    assert_eq!(d.pending_app, None);
    assert!(d.extension_requests);
    d.clear_error_message();
    assert_eq!(d.error_message, None);
    d.request_exit();
    assert!(d.should_exit);
    assert_eq!(d.app_id(), None);
    assert_eq!(sample().app_id(), Some(s("a")));
}
