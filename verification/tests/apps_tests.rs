use a2app::router::{AgentResponse, MiniApp, RequestDoc};
use a2app::state::{AppState, HostState};
use tokio::sync::oneshot;

fn s(x: &str) -> String {
    x.to_string()
}

fn mini(body: &str) -> MiniApp {
    MiniApp { splash_body: s(body), state: vec![] }
}

#[test]
fn changes_name_new_closed_and_results() {
    let mut h = HostState::new();
    h.apps.push((s("old"), AppState::new(s("O"))));
    h.apps.push((s("kept"), AppState::new(s("K"))));
    let mut doc = RequestDoc::new();
    doc.mini_apps.push((s("kept"), mini("K")));
    doc.mini_apps.push((s("new"), mini("N")));
    doc.responses.push(AgentResponse::AppLaunched { id: s("new") });
    doc.responses.push(AgentResponse::InferenceResult { app_id: s("kept"), content: s("4") });
    let c = doc.changes_for(&h);
    assert!(!c.should_exit);
    assert_eq!(c.new_apps, vec![(s("new"), s("N"))]);
    assert_eq!(c.closed_apps, vec![s("old")]);
    assert_eq!(c.inference_results, vec![(s("kept"), s("4"))]);
}

#[test]
fn launch_close_and_relaunch() {
    let mut h = HostState::new();
    h.launch_app(s("a"), s("A1"));
    assert_eq!(h.app_order, vec![s("a")]);
    assert_eq!(h.apps.len(), 1);
    assert_eq!(h.apps[0].1.content, "A1");
    assert_eq!(h.pending_launches.len(), 1);
    assert_eq!(h.revision, 1);
    h.apps[0].1.last_request = Some(s("q"));
    h.launch_app(s("a"), s("A2"));
    assert_eq!(h.app_order, vec![s("a")]);
    assert_eq!(h.apps[0].1.content, "A2");
    assert_eq!(h.apps[0].1.last_request, Some(s("q")));
    assert_eq!(h.pending_launches[1].content, "A2");
    h.launch_app(s("b"), s("B"));
    h.close_app(&s("a"));
    assert_eq!(h.app_order, vec![s("b")]);
    assert_eq!(h.apps.len(), 1);
    assert_eq!(h.apps[0].0, "b");
    assert_eq!(h.revision, 4);
    h.close_app(&s("zz"));
    assert_eq!(h.apps.len(), 1);
    assert_eq!(h.revision, 5);
}

#[test]
fn inference_result_reaches_the_waiting_task() {
    let mut h = HostState::new();
    h.launch_app(s("a"), s("A"));
    let (tx, mut rx) = oneshot::channel::<String>();
    h.apps[0].1.pending_inference.push_back(tx);
    let (tx2, mut rx2) = oneshot::channel::<String>();
    h.apps[0].1.pending_inference.push_back(tx2);
    h.apps[0].1.request_in_flight = true;
    let served = h.deliver_inference_result(s("a"), s("42"));
    let (waiter, content) = served.expect("the oldest caller is served");
    assert_eq!(content, "42");
    waiter.send(content).unwrap();
    assert_eq!(rx.try_recv(), Ok(s("42")));
    assert!(rx2.try_recv().is_err());
    assert_eq!(h.apps[0].1.pending_inference.len(), 1);
    let served = h.deliver_inference_result(s("a"), s("43"));
    let (waiter, content) = served.expect("the next caller is served");
    waiter.send(content).unwrap();
    assert_eq!(rx2.try_recv(), Ok(s("43")));
    assert_eq!(h.apps[0].1.last_response, Some(s("43")));
    assert!(!h.apps[0].1.request_in_flight);
    assert!(h.apps[0].1.pending_inference.is_empty());
    assert!(h.deliver_inference_result(s("a"), s("44")).is_none());
    // A result for an unknown app makes a placeholder app for it.
    assert!(h.deliver_inference_result(s("ghost"), s("x")).is_none());
    assert_eq!(h.apps[1].0, "ghost");
    assert_eq!(h.apps[1].1.content, "");
    assert_eq!(h.apps[1].1.last_response, Some(s("x")));
}

#[test]
fn delivered_results_leave_the_document() {
    let mut doc = RequestDoc::new();
    doc.responses.push(AgentResponse::InferenceResult { app_id: s("a"), content: s("1") });
    doc.responses.push(AgentResponse::AppClosed { id: s("a") });
    doc.responses.push(AgentResponse::InferenceResult { app_id: s("a"), content: s("2") });
    doc.remove_inference_result(&s("a"));
    assert_eq!(
        doc.responses,
        vec![AgentResponse::AppClosed { id: s("a") }, AgentResponse::InferenceResult { app_id: s("a"), content: s("2") }]
    );
    doc.remove_inference_result(&s("b"));
    assert_eq!(doc.responses.len(), 2);
}

#[test]
fn host_mirrors_the_document_after_a_change() {
    let mut h = HostState::new();
    h.launch_app(s("stale"), s("S"));
    h.launch_app(s("kept"), s("K"));
    let mut doc = RequestDoc::new();
    doc.mini_apps.push((s("kept"), mini("K")));
    doc.mini_apps.push((s("fresh"), mini("F")));
    let c = doc.changes_for(&h);
    let served = h.apply_changes(c);
    assert!(served.is_empty());
    assert_eq!(h.revision, 4);
    let mut known: Vec<String> = h.apps.iter().map(|(k, _)| k.clone()).collect();
    known.sort();
    assert_eq!(known, vec![s("fresh"), s("kept")]);
    assert_eq!(h.app_order, vec![s("kept"), s("fresh")]);
    let fresh = h.apps.iter().find(|(k, _)| k == "fresh").expect("fresh is known");
    assert_eq!(fresh.1.content, "F");
    assert_eq!(h.app_order.iter().filter(|k| k.as_str() == "fresh").count(), 1);
    assert_eq!(h.pending_launches.len(), 3);
    assert_eq!(h.pending_launches[2].id, "fresh");
    assert_eq!(h.pending_launches[2].content, "F");
    assert!(!h.app_order.contains(&s("stale")));
}

#[test]
fn applied_changes_serve_waiters_and_count_revisions() {
    let mut h = HostState::new();
    h.launch_app(s("a"), s("A"));
    h.launch_app(s("gone"), s("G"));
    let (tx, mut rx) = oneshot::channel::<String>();
    h.apps[0].1.pending_inference.push_back(tx);
    let mut doc = RequestDoc::new();
    doc.mini_apps.push((s("a"), mini("A")));
    doc.mini_apps.push((s("b"), mini("B")));
    doc.responses.push(AgentResponse::InferenceResult { app_id: s("a"), content: s("7") });
    let c = doc.changes_for(&h);
    let served = h.apply_changes(c);
    assert_eq!(h.revision, 2 + 3);
    assert_eq!(h.app_order, vec![s("a"), s("b")]);
    assert_eq!(h.apps.len(), 2);
    assert_eq!(h.apps[0].1.last_response, Some(s("7")));
    assert_eq!(served.len(), 1);
    for (waiter, content) in served {
        waiter.send(content).unwrap();
    }
    assert_eq!(rx.try_recv(), Ok(s("7")));
    assert_eq!(h.pending_launches.last().map(|l| l.id.clone()), Some(s("b")));
}

#[test]
fn revision_wraps_when_changes_are_applied() {
    let mut h = HostState::new();
    h.revision = u64::MAX;
    let mut doc = RequestDoc::new();
    doc.mini_apps.push((s("a"), mini("A")));
    doc.mini_apps.push((s("b"), mini("B")));
    let c = doc.changes_for(&h);
    h.apply_changes(c);
    assert_eq!(h.revision, 1);
}
