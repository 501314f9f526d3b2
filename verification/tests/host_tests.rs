use a2app::doc::{AgentDoc, AppStatus, DebugCommand, PendingApp};
use a2app::host::{plan_debug_command, DebugAction, HostView, HostWatch};

fn s(x: &str) -> String {
    x.to_string()
}

fn with_app(id: &str, body: &str) -> AgentDoc {
    let mut d = AgentDoc::default();
    d.pending_app = Some(PendingApp { id: s(id), splash_body: s(body), status: AppStatus::Pending });
    d
}

fn cmd(c: &str, p: &str) -> DebugCommand {
    DebugCommand { command: s(c), params: s(p) }
}

#[test]
fn watch_signals_new_values_only() {
    let mut w = HostWatch::new();
    let d = AgentDoc::default();
    let step = w.observe(&d);
    assert!(!step.signal && step.delta.is_none() && !step.exit);
    let mut d = with_app("a", "V{}");
    assert!(w.observe(&d).signal);
    assert!(!w.observe(&d).signal);
    d.debug_command = Some(cmd("widget_dump", ""));
    assert!(w.observe(&d).signal);
    // The host clearing its own fields does not wake it.
    d.debug_command = None;
    assert!(!w.observe(&d).signal);
    d.pi_response = Some(s("hi"));
    assert!(w.observe(&d).signal);
    d.pi_response = None;
    assert!(!w.observe(&d).signal);
    d.should_exit = true;
    let step = w.observe(&d);
    assert!(step.signal && step.exit);
}

#[test]
fn watch_hands_over_changed_streaming_text() {
    let mut w = HostWatch::new();
    let mut d = AgentDoc::default();
    d.streaming_text = Some(s(""));
    let step = w.observe(&d);
    assert!(step.signal);
    assert_eq!(step.delta, None);
    d.streaming_text = Some(s("Hel"));
    assert_eq!(w.observe(&d).delta, Some(s("Hel")));
    assert_eq!(w.observe(&d).delta, None);
    d.streaming_text = Some(s("Hello"));
    let step = w.observe(&d);
    assert!(step.signal);
    assert_eq!(step.delta, Some(s("Hello")));
}

#[test]
fn sync_without_app_clears_everything() {
    let mut v = HostView::new();
    let mut d = AgentDoc::default();
    d.error_message = Some(s("old"));
    let step = v.sync_from_doc(&d);
    assert!(!step.exit && step.clear_error && !step.confirm_launch);
    let u = step.update.unwrap();
    assert_eq!(u.splash_body, Some(s("")));
    assert_eq!(u.source_body, Some(s("")));
    assert_eq!(u.status, Some(s("Waiting for app launch\u{2026}")));
    assert_eq!(u.error_msg, None);
    assert!(!u.should_exit);
}

#[test]
fn sync_shows_a_new_app_once() {
    let mut v = HostView::new();
    let d = with_app("todo-1", "View{}");
    let step = v.sync_from_doc(&d);
    assert!(step.confirm_launch && !step.clear_error);
    let u = step.update.unwrap();
    assert_eq!(u.splash_body, Some(s("View{}")));
    assert_eq!(u.source_body, Some(s("View{}")));
    assert_eq!(u.status, Some(s("App: todo-1")));
    assert_eq!(u.error_msg, Some(s("")));
    let again = v.sync_from_doc(&d);
    assert!(again.update.is_none() && !again.confirm_launch);
    assert_eq!(v.last_app_id, "todo-1");
}

#[test]
fn sync_shows_an_error_without_rerendering() {
    let mut v = HostView::new();
    let mut d = with_app("a", "V{}");
    v.sync_from_doc(&d);
    d.error_message = Some(s("parse failed"));
    let step = v.sync_from_doc(&d);
    assert!(!step.confirm_launch);
    let u = step.update.unwrap();
    assert_eq!(u.error_msg, Some(s("\u{26a0} parse failed")));
    assert_eq!(u.splash_body, None);
    assert_eq!(u.status, None);
    assert!(v.sync_from_doc(&d).update.is_none());
}

#[test]
fn sync_stops_on_exit() {
    let mut v = HostView::new();
    let mut d = with_app("a", "V{}");
    d.should_exit = true;
    let step = v.sync_from_doc(&d);
    assert!(step.exit && step.update.is_none());
    assert_eq!(v.last_app_id, "");
}

#[test]
fn debug_commands_are_planned() {
    assert!(matches!(plan_debug_command(&cmd("widget_dump", "")), DebugAction::WidgetDump));
    assert!(matches!(plan_debug_command(&cmd("widget_snapshot", "x")), DebugAction::WidgetSnapshot));
    match plan_debug_command(&cmd("widget_query", "  Button  ")) {
        DebugAction::WidgetQuery(q) => assert_eq!(q, "Button"),
        _ => panic!("expected a query"),
    }
    match plan_debug_command(&cmd("click", " 10,20 ")) {
        DebugAction::Click(p) => assert_eq!(p, " 10,20 "),
        _ => panic!("expected a click"),
    }
    match plan_debug_command(&cmd("type_text", "  buy milk \n")) {
        DebugAction::TypeText { text, reply } => {
            assert_eq!(text, "buy milk");
            assert_eq!(reply, "{\"status\":\"pending\",\"text\":\"buy milk\"}");
        }
        _ => panic!("expected typing"),
    }
    match plan_debug_command(&cmd("type_text", "   ")) {
        DebugAction::Reply(r) => assert_eq!(r, "{\"error\": \"No text provided. Provide text to type.\"}"),
        _ => panic!("expected an error"),
    }
    match plan_debug_command(&cmd("dance", "")) {
        DebugAction::Reply(r) => assert_eq!(r, "{\"error\": \"Unknown debug command: dance\"}"),
        _ => panic!("expected an error"),
    }
}
