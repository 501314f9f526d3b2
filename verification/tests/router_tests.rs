use a2app::router::{AgentRequest, AgentResponse, MiniApp, RequestDoc};

fn s(x: &str) -> String {
    x.to_string()
}

fn has_app(doc: &RequestDoc, id: &str) -> bool {
    doc.mini_apps.iter().any(|(k, _)| k == id)
}

#[test]
fn smoke_routes_launch_and_close_and_skips_inference() {
    let mut doc = RequestDoc::new();
    doc.push_request(AgentRequest::Inference { content: s("compute something"), app_id: s("app-smoke") });
    doc.push_request(AgentRequest::LaunchApp { id: s("app-smoke"), splash_body: s("View { width: Fill height: Fill }") });

    doc.process_pending_requests();

    assert!(has_app(&doc, "app-smoke"));
    assert!(matches!(doc.responses.last(), Some(AgentResponse::AppLaunched { id }) if id == "app-smoke"));
    // Router must leave inference requests for the extension loop.
    assert!(matches!(doc.requests.first(), Some(AgentRequest::Inference { app_id, .. }) if app_id == "app-smoke"));

    doc.push_request(AgentRequest::CloseApp { id: s("app-smoke") });

    doc.process_pending_requests();

    assert!(!has_app(&doc, "app-smoke"));
    assert!(matches!(doc.responses.last(), Some(AgentResponse::AppClosed { id }) if id == "app-smoke"));
}

#[test]
fn router_serves_one_request_per_step() {
    let mut doc = RequestDoc::new();
    doc.push_request(AgentRequest::LaunchApp { id: s("a"), splash_body: s("A") });
    doc.push_request(AgentRequest::LaunchApp { id: s("b"), splash_body: s("B") });
    doc.process_pending_requests();
    assert_eq!(doc.mini_apps, vec![(s("a"), MiniApp { splash_body: s("A"), state: vec![] })]);
    assert_eq!(doc.requests.len(), 1);
    doc.process_pending_requests();
    assert_eq!(doc.mini_apps.len(), 2);
    assert!(doc.requests.is_empty());
    // Nothing left to serve.
    doc.process_pending_requests();
    assert_eq!(doc.responses.len(), 2);
}

#[test]
fn relaunch_replaces_the_body() {
    let mut doc = RequestDoc::new();
    doc.push_request(AgentRequest::LaunchApp { id: s("a"), splash_body: s("A1") });
    doc.process_pending_requests();
    doc.push_request(AgentRequest::LaunchApp { id: s("a"), splash_body: s("A2") });
    doc.process_pending_requests();
    assert_eq!(doc.mini_apps, vec![(s("a"), MiniApp { splash_body: s("A2"), state: vec![] })]);
    assert_eq!(doc.responses, vec![AgentResponse::AppLaunched { id: s("a") }, AgentResponse::AppLaunched { id: s("a") }]);
}

#[test]
fn closing_an_unknown_app_still_answers() {
    let mut doc = RequestDoc::new();
    doc.push_request(AgentRequest::CloseApp { id: s("ghost") });
    doc.process_pending_requests();
    assert!(doc.mini_apps.is_empty());
    assert_eq!(doc.responses, vec![AgentResponse::AppClosed { id: s("ghost") }]);
}

#[test]
fn router_does_nothing_on_exit() {
    let mut doc = RequestDoc::new();
    doc.should_exit = true;
    doc.push_request(AgentRequest::LaunchApp { id: s("a"), splash_body: s("A") });
    doc.process_pending_requests();
    assert_eq!(doc.requests.len(), 1);
    assert!(doc.responses.is_empty());
}
