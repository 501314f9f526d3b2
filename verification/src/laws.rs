//! Properties of the protocol as a whole: how the writes of the harness and
//! of the host, and what each side forwards or shows, fit together.
use vstd::prelude::*;

use crate::bridge::{
    bridge_msgs, bridge_next, debug_response_msgs, pi_write_spec, status_msgs, user_response_msgs,
    BridgeTrackerView, HarnessMsgView, PiToHarnessMsg,
};
use crate::doc::{streamed, AgentDocView, AppStatus, DebugCommandView, PendingAppView};
use crate::host::{
    confirms_launch, doc_debug_cmd, error_line, shows_no_app, sync_next, sync_update, watch_delta, watch_next,
    watch_signal, HostViewView, HostWatchView,
};
use crate::router::{
    app_index, first_routable, ids_distinct, lemma_app_index, lemma_first_routable_props, routed, AgentRequestView,
    AgentResponseView, MiniAppView, RequestDocView,
};
use crate::apps::{
    change_count, changes_applied, close_all, closed_apps_spec, closed_in, deliver_all, describes, fresh_app, has_app,
    host_ids_distinct, knows, launch_all, launched_in, lemma_close_all_steps, lemma_launch_all_steps,
    lemma_revision_zero, lemma_without_within, new_apps_spec, pairs_view, result_in, revision_after, seq_without,
    strs_view, DocChanges,
};
use crate::state::{host_app_index, inference_recorded, lemma_host_app_index_props, AppStateView, HostStateView};
use crate::splash::{
    final_log_spec, generating_log_spec, rs_close, rs_open, shown_log, streaming_code_spec, streaming_scan,
    SplashStateView,
};
use crate::text::{
    contains_spec, find_from_spec, find_spec, lemma_find_from_exists, lemma_find_from_spec_props, lemma_rfind_upto_none,
    lemma_rfind_upto_some, occurs_at, rfind_spec, trimmed, utf8_len,
};

verus! {

/// The document once the harness has cleared a debug answer that it forwarded.
pub open spec fn after_forwarding(d: AgentDocView) -> AgentDocView {
    if d.debug_response is Some && d.app_id() is Some {
        AgentDocView { debug_response: None, ..d }
    } else {
        d
    }
}

/// The harness forwards each change once: looking again at a document that
/// has not changed since (but for the debug answer that the harness itself
/// cleared) forwards nothing.
pub proof fn law_bridge_forwards_once(t: BridgeTrackerView, d: AgentDocView)
    ensures
        bridge_msgs(bridge_next(t, d), after_forwarding(d)) == Seq::<HarnessMsgView>::empty(),
{
    assert(bridge_msgs(bridge_next(t, d), after_forwarding(d)) =~= Seq::<HarnessMsgView>::empty());
}

/// A response that the splash app sends again with the same value still
/// reaches pi: the host's write bumps the version, and the harness forwards
/// by version, not by value.
pub proof fn law_resent_response_is_forwarded(
    t: BridgeTrackerView,
    d: AgentDocView,
    value: Seq<char>,
)
    requires
        d.pending_app is Some,
        d.user_response_version < u64::MAX,
        t.last_user_response_version == d.user_response_version,
    ensures
        user_response_msgs(t, d.field_written("user_response"@, value)) == seq![
            HarnessMsgView::UserResponse { app_id: d.app_id()->0, response: value },
        ],
{
}

/// A launch reaches pi as `Launched`: after the two writes of a launch, the
/// harness reports the new app with that status unless it already did.
pub proof fn law_launch_reported_launched(
    t: BridgeTrackerView,
    d: AgentDocView,
    app_id: String,
    splash_body: String,
)
    requires
        t.last_status_app_id != Some(app_id@) || t.last_status != Some("Launched"@),
    ensures
        ({
            let d1 = pi_write_spec(d, PiToHarnessMsg::Launch { app_id, splash_body }).launched();
            &&& d1.pending_app == Some(
                PendingAppView {
                    id: app_id@,
                    splash_body: splash_body@,
                    status: AppStatus::Launched,
                },
            )
            &&& d1.user_response is None
            &&& d1.error_message is None
            &&& status_msgs(t, d1) == seq![
                HarnessMsgView::Status { app_id: app_id@, status: "Launched"@ },
            ]
        }),
{
}

/// An exit request from pi stops both sides: the document asks to exit, the
/// host is woken for it, and the host's UI takes no further update.
pub proof fn law_exit_stops_both(d: AgentDocView, w: HostWatchView, v: HostViewView)
    ensures
        pi_write_spec(d, PiToHarnessMsg::Exit).should_exit,
        watch_signal(w, pi_write_spec(d, PiToHarnessMsg::Exit)),
        sync_update(v, pi_write_spec(d, PiToHarnessMsg::Exit)) is None,
{
}

/// The host does not wake its UI twice for the same state: looking again at
/// an unchanged document wakes it only to exit, and hands over no text.
pub proof fn law_watch_wakes_once(d: AgentDocView)
    ensures
        watch_signal(watch_next(d), d) == d.should_exit,
        watch_delta(watch_next(d), d) is None,
{
}

/// Fields that the host clears itself never wake the host: where every
/// watched field is either unchanged or cleared, and no exit is asked, the
/// host is not woken.
pub proof fn law_clearing_does_not_wake(d: AgentDocView, d2: AgentDocView)
    requires
        !d2.should_exit,
        d2.app_id() is None || d2.app_id() == d.app_id(),
        doc_debug_cmd(d2) is None || doc_debug_cmd(d2) == doc_debug_cmd(d),
        d2.pi_response is None || d2.pi_response == d.pi_response,
        d2.streaming_text is None || d2.streaming_text == d.streaming_text,
    ensures
        !watch_signal(watch_next(d), d2),
{
}

/// The host's UI settles: once it has taken a document state that shows an
/// app, the same state calls for no further update.
pub proof fn law_ui_settles(v: HostViewView, d: AgentDocView)
    requires
        !d.should_exit,
        !shows_no_app(d),
    ensures
        sync_update(sync_next(v, d), d) is None,
{
}

/// A debug command makes one round trip: the harness writes it, the host
/// answers and clears it, the harness forwards the answer once and clears it.
pub proof fn law_debug_round_trip(
    d: AgentDocView,
    app_id: String,
    command: String,
    params: String,
    result: Seq<char>,
)
    requires
        d.pending_app is Some,
    ensures
        ({
            let d1 = pi_write_spec(d, PiToHarnessMsg::Debug { app_id, command, params });
            let d2 = d1.debug_finished(Some(result));
            &&& d1.debug_command == Some(DebugCommandView { command: command@, params: params@ })
            &&& d1.debug_response is None
            &&& d2.debug_command is None
            &&& debug_response_msgs(d2) == seq![
                HarnessMsgView::DebugResponse { app_id: d.app_id()->0, result },
            ]
            &&& after_forwarding(d2).debug_response is None
        }),
{
}

/// A final answer supersedes streaming: once it arrives the streaming text is
/// gone and the answer waits for the splash app, which the host is woken for
/// unless it has already seen that answer.
pub proof fn law_final_answer_supersedes_streaming(
    d: AgentDocView,
    a1: String,
    partial: String,
    a2: String,
    answer: String,
    w: HostWatchView,
)
    ensures
        ({
            let d1 = pi_write_spec(d, PiToHarnessMsg::SendStreamingDelta { app_id: a1, delta: partial });
            let d2 = pi_write_spec(
                d1,
                PiToHarnessMsg::SendStreamingEnd { app_id: a2, final_text: answer },
            );
            &&& d1.streaming_text == Some(streamed(d.streaming_text, partial@))
            &&& d2.streaming_text is None
            &&& d2.pi_response == Some(answer@)
            &&& (w.last_pi_response != Some(answer@) ==> watch_signal(w, d2))
        }),
{
}

/// The document after the writes of `msgs`, in order.
pub open spec fn apply_msgs(d: AgentDocView, msgs: Seq<PiToHarnessMsg>) -> AgentDocView
    decreases msgs.len(),
{
    if msgs.len() == 0 {
        d
    } else {
        pi_write_spec(apply_msgs(d, msgs.drop_last()), msgs.last())
    }
}

/// The deltas that `msgs` carry, joined in order.
pub open spec fn deltas_text(msgs: Seq<PiToHarnessMsg>) -> Seq<char>
    decreases msgs.len(),
{
    if msgs.len() == 0 {
        Seq::empty()
    } else {
        deltas_text(msgs.drop_last()) + match msgs.last() {
            PiToHarnessMsg::SendStreamingDelta { delta, .. } => delta@,
            _ => Seq::empty(),
        }
    }
}

/// Streaming deltas accumulate: after a run of deltas the streaming text is
/// the text there was before (none counting as empty) followed by every
/// delta, in the order sent.
pub proof fn law_streaming_deltas_accumulate(d: AgentDocView, msgs: Seq<PiToHarnessMsg>)
    requires
        msgs.len() > 0,
        forall|i: int| 0 <= i < msgs.len() ==> #[trigger] msgs[i] is SendStreamingDelta,
    ensures
        apply_msgs(d, msgs).streaming_text == Some(streamed(d.streaming_text, deltas_text(msgs))),
        apply_msgs(d, msgs).extension_requests,
    decreases msgs.len(),
{
    let last = msgs.last();
    assert(msgs[msgs.len() - 1] is SendStreamingDelta);
    let delta = last->SendStreamingDelta_delta;
    if msgs.len() == 1 {
        assert(msgs.drop_last().len() == 0);
        assert(deltas_text(msgs.drop_last()) == Seq::<char>::empty());
        assert(deltas_text(msgs) == deltas_text(msgs.drop_last()) + delta@);
        assert(deltas_text(msgs) =~= delta@);
        assert(apply_msgs(d, msgs.drop_last()) == d);
    } else {
        let prev = msgs.drop_last();
        assert forall|i: int| 0 <= i < prev.len() implies #[trigger] prev[i] is SendStreamingDelta by {
            assert(prev[i] == msgs[i]);
        }
        law_streaming_deltas_accumulate(d, prev);
        match d.streaming_text {
            Some(t) => {
                assert(t + deltas_text(prev) + delta@ =~= t + (deltas_text(prev) + delta@));
            },
            None => {},
        }
    }
}

/// A label text goes to pi once: right after it was sent, the same text is
/// not sent again.
pub proof fn law_response_sent_once(s: SplashStateView, current: Seq<char>)
    ensures
        !(SplashStateView { last_response: current, ..s }).sends_response(current),
{
}

/// A body that fails to evaluate does not stay: setting a new non-empty body
/// whose evaluation fails leaves the previous body in place, shown as rendered.
pub proof fn law_failed_body_is_rolled_back(s: SplashStateView, v: Seq<char>)
    requires
        v.len() > 0,
        v != s.body,
    ensures
        s.text_set(v).evaluated(false, s.body).body == s.body,
        s.text_set(v).evaluated(false, s.body).render_ok,
{
}

/// A new body stays when it evaluates, and an empty one stays whatever its
/// evaluation gives: the splash then shows it, reports the evaluation's
/// outcome, and has forgotten the last response and data.
pub proof fn law_set_text_shows_new_body(s: SplashStateView, v: Seq<char>, ok: bool)
    requires
        v != s.body,
        ok || v.len() == 0,
    ensures
        ({
            let t = s.text_set(v).evaluated(ok, s.body);
            &&& t.body == v
            &&& t.render_ok == ok
            &&& t.last_response == Seq::<char>::empty()
            &&& t.last_pi_data == Seq::<char>::empty()
        }),
{
}

/// A launch request served by the router leaves the app launched with the
/// requested body and no stored values, and answers `AppLaunched`.
pub proof fn law_router_launches(d: RequestDocView, p: nat, id: Seq<char>, splash_body: Seq<char>)
    requires
        ids_distinct(d.mini_apps),
        !d.should_exit,
        first_routable(d.requests, 0) == Some(p),
        d.requests[p as int] == (AgentRequestView::LaunchApp { id, splash_body }),
    ensures
        app_index(routed(d).mini_apps, id) matches Some(i) && routed(d).mini_apps[i as int].1 == (
        MiniAppView { splash_body, state: Seq::empty() }),
        routed(d).responses.last() == (AgentResponseView::AppLaunched { id }),
        routed(d).requests == d.requests.remove(p as int),
{
    let e = (id, MiniAppView { splash_body, state: Seq::<(Seq<char>, Seq<char>)>::empty() });
    lemma_app_index(d.mini_apps, id);
    lemma_app_index(routed(d).mini_apps, id);
    match app_index(d.mini_apps, id) {
        Some(i) => {
            assert(routed(d).mini_apps[i as int] == e);
        },
        None => {
            assert(routed(d).mini_apps.last() == e);
        },
    }
}

/// A close request served by the router leaves no app of that id and
/// answers `AppClosed`.
pub proof fn law_router_closes(d: RequestDocView, p: nat, id: Seq<char>)
    requires
        ids_distinct(d.mini_apps),
        !d.should_exit,
        first_routable(d.requests, 0) == Some(p),
        d.requests[p as int] == (AgentRequestView::CloseApp { id }),
    ensures
        app_index(routed(d).mini_apps, id) is None,
        routed(d).responses.last() == (AgentResponseView::AppClosed { id }),
        routed(d).requests == d.requests.remove(p as int),
{
    lemma_app_index(d.mini_apps, id);
    lemma_app_index(routed(d).mini_apps, id);
    let apps = d.mini_apps;
    match app_index(apps, id) {
        Some(i) => {
            let after = apps.remove(i as int);
            assert forall|k: int| 0 <= k < after.len() implies after[k].0 != id by {
                if k < i {
                    assert(after[k] == apps[k]);
                } else {
                    assert(after[k] == apps[k + 1]);
                }
            }
        },
        None => {},
    }
}

/// The router leaves inference requests queued for the pi extension: every
/// inference request in the queue is still there after a routing step.
pub proof fn law_router_keeps_inference(d: RequestDocView, r: AgentRequestView)
    requires
        d.requests.contains(r),
        r is Inference,
    ensures
        routed(d).requests.contains(r),
{
    if !d.should_exit {
        match first_routable(d.requests, 0) {
            Some(p) => {
                lemma_first_routable_props(d.requests, 0);
                let k = choose|k: int| 0 <= k < d.requests.len() && d.requests[k] == r;
                let rest = d.requests.remove(p as int);
                if k < p {
                    assert(rest[k] == r);
                } else {
                    assert(k != p);
                    assert(rest[k - 1] == r);
                }
            },
            None => {},
        }
    }
}

/// The progress line of code generation gives way to a done line: once the
/// final answer arrives, the log reads as before the generation started, with
/// a done line in place of the progress line (or the done line alone).
pub proof fn law_progress_gives_way_to_done(current: Seq<char>, data: Seq<char>)
    ensures
        ({
            let c = shown_log(current);
            let g = generating_log_spec(current);
            &&& c.len() == 0 ==> final_log_spec(g, data) == "\u{2705} Done"@
            &&& c.len() > 0 ==> final_log_spec(g, data) == g.subrange(0, g.len() - 16) + "\n\u{2705} Done"@
        }),
{
    reveal_strlit("\n\u{2699} Generating...");
    reveal_strlit("\u{2699} Generating...");
    reveal_strlit("\u{2699}");
    reveal_strlit("\n\u{2699} ");
    reveal_strlit(" ");
    let c = shown_log(current);
    let g = generating_log_spec(current);
    let gear = "\u{2699}"@;
    let marker = "\n\u{2699} "@;
    if c.len() == 0 {
        assert(g == "\u{2699} Generating..."@);
        assert(g.subrange(0, 1) =~= gear);
        lemma_find_from_exists(g, gear, 0, 0);
        assert forall|j: int| j <= g.len() - marker.len() implies !occurs_at(g, marker, j) by {
            if 0 <= j && j + marker.len() <= g.len() {
                assert(g.subrange(j, j + marker.len())[0] == g[j]);
            }
        }
        lemma_rfind_upto_none(g, marker, g.len() - marker.len());
        assert(shown_log(g) == g);
    } else {
        let tail = "\n\u{2699} Generating..."@;
        let x = g.subrange(0, g.len() - 16);
        assert(g =~= x + tail) by {
            match rfind_spec(c, seq!['\n', '\u{1F916}', ' ']) {
                Some(m) => {
                    assert(g == c.subrange(0, m as int) + tail);
                },
                None => {
                    assert(g == c + tail);
                },
            }
        }
        assert(g.len() != 1);
        assert(shown_log(g) == g);
        let n = x.len() as int;
        assert(g.subrange(n + 1, n + 2) =~= gear);
        lemma_find_from_exists(g, gear, 0, (n + 1) as nat);
        assert(contains_spec(g, gear));
        assert(g.subrange(n, n + 3) =~= marker);
        assert forall|j: int| n < j <= g.len() - marker.len() implies !occurs_at(g, marker, j) by {
            assert(g.subrange(j, j + marker.len())[0] == g[j]);
            assert(g[j] == tail[j - n]);
        }
        lemma_rfind_upto_some(g, marker, g.len() - marker.len(), n);
        assert(g.subrange(0, n) =~= x);
    }
}

/// An app that appears in the document is known to the host afterwards, with
/// its body, listed in the app order and queued for launch.
pub proof fn law_new_app_is_known(h: HostStateView, id: Seq<char>, body: Seq<char>)
    ensures
        ({
            let h2 = launched_in(h, id, body);
            &&& host_app_index(h2.apps, id) matches Some(i) && h2.apps[i as int].1.content == body
            &&& h2.app_order.contains(id)
            &&& h2.pending_launches.last() == (id, body)
        }),
{
    let h2 = launched_in(h, id, body);
    lemma_host_app_index_props(h.apps, id, 0);
    match host_app_index(h.apps, id) {
        Some(i) => {
            lemma_host_index_first(h2.apps, id, i as nat);
        },
        None => {
            lemma_host_no_index(h.apps, id);
            lemma_host_index_first(h2.apps, id, h.apps.len());
        },
    }
    if !h.app_order.contains(id) {
        assert(h2.app_order[h.app_order.len() as int] == id);
    }
}

/// An app that leaves the document is forgotten by the host: it is neither
/// known nor listed afterwards (the host knows each app once).
pub proof fn law_closed_app_is_forgotten(h: HostStateView, id: Seq<char>)
    requires
        forall|i: int, j: int| 0 <= i < j < h.apps.len() ==> h.apps[i].0 != h.apps[j].0,
    ensures
        host_app_index(closed_in(h, id).apps, id) is None,
        !closed_in(h, id).app_order.contains(id),
{
    lemma_host_app_index_props(h.apps, id, 0);
    let after = closed_in(h, id).apps;
    match host_app_index(h.apps, id) {
        Some(i) => {
            assert forall|k: int| 0 <= k < after.len() implies after[k].0 != id by {
                if k < i {
                    assert(after[k] == h.apps[k]);
                } else {
                    assert(after[k] == h.apps[k + 1]);
                }
            }
        },
        None => {
            lemma_host_no_index(h.apps, id);
        },
    }
    crate::state::lemma_host_app_index_none(after, id, 0);
    lemma_without_lacks(h.app_order, id);
}

/// An inference result reaches the app that asked: it becomes the app's last
/// response and the request is no longer in flight; the request stays recorded.
pub proof fn law_result_answers_request(h: HostStateView, app_id: Seq<char>, request: Seq<char>, result: Seq<char>)
    requires
        host_app_index(h.apps, app_id) is Some,
    ensures
        ({
            let h2 = result_in(inference_recorded(h, app_id, request), app_id, result);
            &&& host_app_index(h2.apps, app_id) matches Some(i) && {
                let a = h2.apps[i as int].1;
                &&& a.last_request == Some(request)
                &&& a.last_response == Some(result)
                &&& !a.request_in_flight
            }
        }),
{
    let i = host_app_index(h.apps, app_id)->0;
    lemma_host_app_index_props(h.apps, app_id, 0);
    let h1 = inference_recorded(h, app_id, request);
    lemma_host_index_first(h1.apps, app_id, i);
    let h2 = result_in(h1, app_id, result);
    lemma_host_index_first(h2.apps, app_id, i);
}

/// `p` is the first position of `id` when no earlier entry has it.
proof fn lemma_host_index_first(apps: Seq<(Seq<char>, AppStateView)>, id: Seq<char>, p: nat)
    requires
        p < apps.len(),
        apps[p as int].0 == id,
        forall|k: int| 0 <= k < p ==> apps[k].0 != id,
    ensures
        host_app_index(apps, id) == Some(p),
{
    crate::state::lemma_host_app_index_some(apps, id, 0, p);
}

/// Where `id` is not found, no entry has it.
proof fn lemma_host_no_index(apps: Seq<(Seq<char>, AppStateView)>, id: Seq<char>)
    requires
        host_app_index(apps, id) is None,
    ensures
        forall|k: int| 0 <= k < apps.len() ==> apps[k].0 != id,
{
    assert forall|k: int| 0 <= k < apps.len() implies apps[k].0 != id by {
        if apps[k].0 == id {
            lemma_first_of(apps, id, k);
        }
    }
}

proof fn lemma_first_of(apps: Seq<(Seq<char>, AppStateView)>, id: Seq<char>, k: int)
    requires
        0 <= k < apps.len(),
        apps[k].0 == id,
    ensures
        host_app_index(apps, id) is Some,
    decreases k,
{
    if exists|j: int| 0 <= j < k && apps[j].0 == id {
        let j = choose|j: int| 0 <= j < k && apps[j].0 == id;
        lemma_first_of(apps, id, j);
    } else {
        crate::state::lemma_host_app_index_some(apps, id, 0, k as nat);
    }
}

/// `seq_without(s, x)` holds no `x`.
proof fn lemma_without_lacks(s: Seq<Seq<char>>, x: Seq<char>)
    ensures
        !seq_without(s, x).contains(x),
    decreases s.len(),
{
    if s.len() > 0 {
        lemma_without_lacks(s.drop_last(), x);
        let w = seq_without(s, x);
        let prev = seq_without(s.drop_last(), x);
        if w.contains(x) {
            let k = choose|k: int| 0 <= k < w.len() && w[k] == x;
            if k < prev.len() {
                assert(w[k] == prev[k]);
            }
        }
    }
}

// ── The host mirrors the document ─────────────────────────────────────────

proof fn lemma_index_iff_knows(apps: Seq<(Seq<char>, AppStateView)>, k: Seq<char>)
    ensures
        host_app_index(apps, k) is Some <==> knows(apps, k),
{
    lemma_host_app_index_props(apps, k, 0);
    if knows(apps, k) {
        let i = choose|i: int| 0 <= i < apps.len() && apps[i].0 == k;
        lemma_first_of(apps, k, i);
    }
}

proof fn lemma_launched_knows(h: HostStateView, id: Seq<char>, body: Seq<char>)
    requires
        host_ids_distinct(h.apps),
    ensures
        host_ids_distinct(launched_in(h, id, body).apps),
        forall|k: Seq<char>| #[trigger] knows(launched_in(h, id, body).apps, k) == (knows(h.apps, k) || k == id),
{
    let a = h.apps;
    let b = launched_in(h, id, body).apps;
    lemma_index_iff_knows(a, id);
    lemma_host_app_index_props(a, id, 0);
    match host_app_index(a, id) {
        Some(i) => {
            assert forall|j: int| 0 <= j < b.len() implies b[j].0 == a[j].0 by {}
            assert forall|k: Seq<char>| knows(b, k) == (knows(a, k) || k == id) by {
                if knows(a, k) {
                    let j = choose|j: int| 0 <= j < a.len() && a[j].0 == k;
                    assert(b[j].0 == k);
                }
                if knows(b, k) {
                    let j = choose|j: int| 0 <= j < b.len() && b[j].0 == k;
                    assert(a[j].0 == k);
                }
                if k == id {
                    assert(b[i as int].0 == k);
                }
            }
        },
        None => {
            assert forall|k: Seq<char>| knows(b, k) == (knows(a, k) || k == id) by {
                if knows(a, k) {
                    let j = choose|j: int| 0 <= j < a.len() && a[j].0 == k;
                    assert(b[j].0 == k);
                }
                if knows(b, k) {
                    let j = choose|j: int| 0 <= j < b.len() && b[j].0 == k;
                    if j < a.len() {
                        assert(a[j].0 == k);
                    }
                }
                if k == id {
                    assert(b[a.len() as int].0 == k);
                }
            }
            assert forall|x: int, y: int| 0 <= x < y < b.len() implies b[x].0 != b[y].0 by {
                if y == a.len() {
                    assert(b[x].0 == a[x].0);
                    if a[x].0 == id {
                        assert(knows(a, id));
                    }
                }
            }
        },
    }
}

proof fn lemma_closed_knows(h: HostStateView, id: Seq<char>)
    requires
        host_ids_distinct(h.apps),
    ensures
        host_ids_distinct(closed_in(h, id).apps),
        forall|k: Seq<char>| #[trigger] knows(closed_in(h, id).apps, k) == (knows(h.apps, k) && k != id),
{
    let a = h.apps;
    let b = closed_in(h, id).apps;
    lemma_index_iff_knows(a, id);
    lemma_host_app_index_props(a, id, 0);
    match host_app_index(a, id) {
        Some(i) => {
            assert forall|k: Seq<char>| knows(b, k) == (knows(a, k) && k != id) by {
                if knows(b, k) {
                    let j = choose|j: int| 0 <= j < b.len() && b[j].0 == k;
                    if j < i {
                        assert(a[j].0 == k);
                        assert(j != i);
                    } else {
                        assert(a[j + 1].0 == k);
                        assert(j + 1 != i);
                    }
                }
                if knows(a, k) && k != id {
                    let j = choose|j: int| 0 <= j < a.len() && a[j].0 == k;
                    assert(j != i);
                    if j < i {
                        assert(b[j].0 == k);
                    } else {
                        assert(b[j - 1].0 == k);
                    }
                }
            }
            assert forall|x: int, y: int| 0 <= x < y < b.len() implies b[x].0 != b[y].0 by {
                let xa = if x < i { x } else { x + 1 };
                let ya = if y < i { y } else { y + 1 };
                assert(b[x] == a[xa]);
                assert(b[y] == a[ya]);
            }
        },
        None => {},
    }
}

proof fn lemma_launch_all_knows(h: HostStateView, new: Seq<(Seq<char>, Seq<char>)>)
    requires
        host_ids_distinct(h.apps),
    ensures
        host_ids_distinct(launch_all(h, new).apps),
        forall|k: Seq<char>| #[trigger] knows(launch_all(h, new).apps, k) == (knows(h.apps, k) || exists|j: int| 0 <= j < new.len() && new[j].0 == k),
    decreases new.len(),
{
    if new.len() > 0 {
        let prev = launch_all(h, new.drop_last());
        lemma_launch_all_knows(h, new.drop_last());
        lemma_launched_knows(prev, new.last().0, new.last().1);
        assert forall|k: Seq<char>| knows(launch_all(h, new).apps, k) == (knows(h.apps, k) || exists|j: int| 0 <= j < new.len() && new[j].0 == k) by {
            assert(knows(launch_all(h, new).apps, k) == (knows(prev.apps, k) || k == new.last().0));
            assert(knows(prev.apps, k) == (knows(h.apps, k) || exists|j: int| 0 <= j < new.drop_last().len() && new.drop_last()[j].0 == k));
            if k == new.last().0 {
                assert(new[new.len() - 1].0 == k);
            }
            if exists|j: int| 0 <= j < new.len() && new[j].0 == k {
                let j = choose|j: int| 0 <= j < new.len() && new[j].0 == k;
                if j < new.len() - 1 {
                    assert(new.drop_last()[j].0 == k);
                }
            }
            if exists|j: int| 0 <= j < new.drop_last().len() && new.drop_last()[j].0 == k {
                let j = choose|j: int| 0 <= j < new.drop_last().len() && new.drop_last()[j].0 == k;
                assert(new[j].0 == k);
            }
        }
    }
}

proof fn lemma_close_all_knows(h: HostStateView, ids: Seq<Seq<char>>)
    requires
        host_ids_distinct(h.apps),
    ensures
        host_ids_distinct(close_all(h, ids).apps),
        forall|k: Seq<char>| #[trigger] knows(close_all(h, ids).apps, k) == (knows(h.apps, k) && !ids.contains(k)),
    decreases ids.len(),
{
    if ids.len() > 0 {
        let prev = close_all(h, ids.drop_last());
        lemma_close_all_knows(h, ids.drop_last());
        lemma_closed_knows(prev, ids.last());
        assert forall|k: Seq<char>| knows(close_all(h, ids).apps, k) == (knows(h.apps, k) && !ids.contains(k)) by {
            assert(knows(close_all(h, ids).apps, k) == (knows(prev.apps, k) && k != ids.last()));
            assert(knows(prev.apps, k) == (knows(h.apps, k) && !ids.drop_last().contains(k)));
            if k == ids.last() {
                assert(ids[ids.len() - 1] == k);
            }
            if ids.contains(k) {
                let j = choose|j: int| 0 <= j < ids.len() && ids[j] == k;
                if j < ids.len() - 1 {
                    assert(ids.drop_last()[j] == k);
                }
            }
            if ids.drop_last().contains(k) {
                let j = choose|j: int| 0 <= j < ids.drop_last().len() && ids.drop_last()[j] == k;
                assert(ids[j] == k);
            }
        }
    }
}

proof fn lemma_new_apps_members(
    apps: Seq<(Seq<char>, MiniAppView)>,
    known: Seq<(Seq<char>, AppStateView)>,
    k: Seq<char>,
)
    ensures
        (exists|j: int| 0 <= j < new_apps_spec(apps, known).len() && new_apps_spec(apps, known)[j].0 == k)
            == (has_app(apps, k) && !knows(known, k)),
    decreases apps.len(),
{
    lemma_index_iff_knows(known, k);
    if apps.len() > 0 {
        let prev = apps.drop_last();
        lemma_new_apps_members(prev, known, k);
        let n = new_apps_spec(apps, known);
        let p = new_apps_spec(prev, known);
        lemma_index_iff_knows(known, apps.last().0);
        if exists|j: int| 0 <= j < n.len() && n[j].0 == k {
            let j = choose|j: int| 0 <= j < n.len() && n[j].0 == k;
            if j < p.len() {
                assert(p[j].0 == k);
                let q = choose|q: int| 0 <= q < prev.len() && prev[q].0 == k;
                assert(apps[q].0 == k);
            } else {
                assert(apps[apps.len() - 1].0 == k);
            }
        }
        if has_app(apps, k) && !knows(known, k) {
            let q = choose|q: int| 0 <= q < apps.len() && apps[q].0 == k;
            if q < apps.len() - 1 {
                assert(prev[q].0 == k);
                let j = choose|j: int| 0 <= j < p.len() && p[j].0 == k;
                assert(n[j].0 == k);
            } else {
                assert(n[p.len() as int].0 == k);
            }
        }
    }
}

proof fn lemma_closed_apps_members(
    known: Seq<(Seq<char>, AppStateView)>,
    apps: Seq<(Seq<char>, MiniAppView)>,
    k: Seq<char>,
)
    ensures
        closed_apps_spec(known, apps).contains(k) == (knows(known, k) && !has_app(apps, k)),
    decreases known.len(),
{
    if known.len() > 0 {
        let prev = known.drop_last();
        lemma_closed_apps_members(prev, apps, k);
        let c = closed_apps_spec(known, apps);
        let p = closed_apps_spec(prev, apps);
        lemma_app_index(apps, known.last().0);
        if c.contains(k) {
            let j = choose|j: int| 0 <= j < c.len() && c[j] == k;
            if j < p.len() {
                assert(p[j] == k);
                let q = choose|q: int| 0 <= q < prev.len() && prev[q].0 == k;
                assert(known[q].0 == k);
            } else {
                assert(known[known.len() - 1].0 == k);
                if has_app(apps, k) {
                    let q = choose|q: int| 0 <= q < apps.len() && apps[q].0 == k;
                    assert(apps[q].0 != k);
                }
            }
        }
        if knows(known, k) && !has_app(apps, k) {
            let q = choose|q: int| 0 <= q < known.len() && known[q].0 == k;
            if q < known.len() - 1 {
                assert(prev[q].0 == k);
                let j = choose|j: int| 0 <= j < p.len() && p[j] == k;
                assert(c[j] == k);
            } else {
                assert(app_index(apps, k) is None) by {
                    if app_index(apps, k) is Some {
                        let i = app_index(apps, k)->0;
                        assert(apps[i as int].0 == k);
                    }
                }
                assert(c[p.len() as int] == k);
            }
        }
    }
}

proof fn lemma_result_knows(h: HostStateView, id: Seq<char>, content: Seq<char>)
    requires
        host_ids_distinct(h.apps),
    ensures
        host_ids_distinct(result_in(h, id, content).apps),
        forall|k: Seq<char>| #[trigger] knows(result_in(h, id, content).apps, k) == (knows(h.apps, k) || k == id),
{
    let a = h.apps;
    let b = result_in(h, id, content).apps;
    lemma_index_iff_knows(a, id);
    lemma_host_app_index_props(a, id, 0);
    match host_app_index(a, id) {
        Some(i) => {
            assert forall|j: int| 0 <= j < b.len() implies b[j].0 == a[j].0 by {}
            assert forall|k: Seq<char>| knows(b, k) == (knows(a, k) || k == id) by {
                if knows(a, k) {
                    let j = choose|j: int| 0 <= j < a.len() && a[j].0 == k;
                    assert(b[j].0 == k);
                }
                if knows(b, k) {
                    let j = choose|j: int| 0 <= j < b.len() && b[j].0 == k;
                    assert(a[j].0 == k);
                }
                if k == id {
                    assert(b[i as int].0 == k);
                }
            }
        },
        None => {
            assert forall|k: Seq<char>| knows(b, k) == (knows(a, k) || k == id) by {
                if knows(a, k) {
                    let j = choose|j: int| 0 <= j < a.len() && a[j].0 == k;
                    assert(b[j].0 == k);
                }
                if knows(b, k) {
                    let j = choose|j: int| 0 <= j < b.len() && b[j].0 == k;
                    if j < a.len() {
                        assert(a[j].0 == k);
                    }
                }
                if k == id {
                    assert(b[a.len() as int].0 == k);
                }
            }
            assert forall|x: int, y: int| 0 <= x < y < b.len() implies b[x].0 != b[y].0 by {
                if y == a.len() {
                    assert(b[x].0 == a[x].0);
                    if a[x].0 == id {
                        assert(knows(a, id));
                    }
                }
            }
        },
    }
}

proof fn lemma_deliver_all_knows(h: HostStateView, results: Seq<(Seq<char>, Seq<char>)>)
    requires
        host_ids_distinct(h.apps),
    ensures
        host_ids_distinct(deliver_all(h, results).apps),
        forall|k: Seq<char>| #[trigger] knows(deliver_all(h, results).apps, k) == (knows(h.apps, k) || exists|j: int| 0 <= j < results.len() && results[j].0 == k),
    decreases results.len(),
{
    if results.len() > 0 {
        let prev = deliver_all(h, results.drop_last());
        lemma_deliver_all_knows(h, results.drop_last());
        lemma_result_knows(prev, results.last().0, results.last().1);
        assert forall|k: Seq<char>| knows(deliver_all(h, results).apps, k) == (knows(h.apps, k) || exists|j: int| 0 <= j < results.len() && results[j].0 == k) by {
            assert(knows(prev.apps, k) == (knows(h.apps, k) || exists|j: int| 0 <= j < results.drop_last().len() && results.drop_last()[j].0 == k));
            if k == results.last().0 {
                assert(results[results.len() - 1].0 == k);
            }
            if exists|j: int| 0 <= j < results.len() && results[j].0 == k {
                let j = choose|j: int| 0 <= j < results.len() && results[j].0 == k;
                if j < results.len() - 1 {
                    assert(results.drop_last()[j].0 == k);
                }
            }
            if exists|j: int| 0 <= j < results.drop_last().len() && results.drop_last()[j].0 == k {
                let j = choose|j: int| 0 <= j < results.drop_last().len() && results.drop_last()[j].0 == k;
                assert(results[j].0 == k);
            }
        }
    }
}

/// The host mirrors the document: once the apps that appeared are launched,
/// the apps that left are closed and the inference results (each for an app
/// of the document) are delivered, the host knows exactly the apps that the
/// document has (given that it knew each app once before).
pub proof fn law_host_mirrors_document(
    h: HostStateView,
    apps: Seq<(Seq<char>, MiniAppView)>,
    results: Seq<(Seq<char>, Seq<char>)>,
)
    requires
        host_ids_distinct(h.apps),
        forall|j: int| 0 <= j < results.len() ==> has_app(apps, #[trigger] results[j].0),
    ensures
        ({
            let h1 = launch_all(h, new_apps_spec(apps, h.apps));
            let h2 = close_all(h1, closed_apps_spec(h.apps, apps));
            let h3 = deliver_all(h2, results);
            &&& host_ids_distinct(h3.apps)
            &&& forall|k: Seq<char>| knows(h3.apps, k) <==> has_app(apps, k)
        }),
{
    let new = new_apps_spec(apps, h.apps);
    let closed = closed_apps_spec(h.apps, apps);
    let h1 = launch_all(h, new);
    lemma_launch_all_knows(h, new);
    lemma_close_all_knows(h1, closed);
    let h2 = close_all(h1, closed);
    lemma_deliver_all_knows(h2, results);
    assert forall|k: Seq<char>| knows(close_all(h1, closed).apps, k) <==> has_app(apps, k) by {
        lemma_new_apps_members(apps, h.apps, k);
        lemma_closed_apps_members(h.apps, apps, k);
    }
    assert forall|k: Seq<char>| knows(deliver_all(h2, results).apps, k) <==> has_app(apps, k) by {
        if exists|j: int| 0 <= j < results.len() && results[j].0 == k {
            let j = choose|j: int| 0 <= j < results.len() && results[j].0 == k;
            assert(has_app(apps, results[j].0));
        }
    }
}

// ── The host follows the document app by app ──────────────────────────────

/// The host shows the app `id` with `body`.
pub open spec fn shows(apps: Seq<(Seq<char>, AppStateView)>, id: Seq<char>, body: Seq<char>) -> bool {
    exists|i: int| 0 <= i < apps.len() && apps[i].0 == id && apps[i].1.content == body
}

proof fn lemma_launched_shows(h: HostStateView, id: Seq<char>, body: Seq<char>, id2: Seq<char>, body2: Seq<char>)
    ensures
        shows(launched_in(h, id, body).apps, id, body),
        shows(h.apps, id2, body2) && id2 != id ==> shows(launched_in(h, id, body).apps, id2, body2),
{
    lemma_host_app_index_props(h.apps, id, 0);
    let a = h.apps;
    let b = launched_in(h, id, body).apps;
    match host_app_index(a, id) {
        Some(i) => {
            assert(b[i as int].0 == id && b[i as int].1.content == body);
            if shows(a, id2, body2) && id2 != id {
                let k = choose|k: int| 0 <= k < a.len() && a[k].0 == id2 && a[k].1.content == body2;
                assert(k != i);
                assert(b[k] == a[k]);
            }
        },
        None => {
            assert(b[a.len() as int] == (id, fresh_app(body)));
            if shows(a, id2, body2) && id2 != id {
                let k = choose|k: int| 0 <= k < a.len() && a[k].0 == id2 && a[k].1.content == body2;
                assert(b[k] == a[k]);
            }
        },
    }
}

proof fn lemma_closed_shows(h: HostStateView, c: Seq<char>, id2: Seq<char>, body2: Seq<char>)
    ensures
        shows(h.apps, id2, body2) && id2 != c ==> shows(closed_in(h, c).apps, id2, body2),
{
    lemma_host_app_index_props(h.apps, c, 0);
    let a = h.apps;
    let b = closed_in(h, c).apps;
    if shows(a, id2, body2) && id2 != c {
        let k = choose|k: int| 0 <= k < a.len() && a[k].0 == id2 && a[k].1.content == body2;
        match host_app_index(a, c) {
            Some(i) => {
                assert(k != i);
                if k < i {
                    assert(b[k] == a[k]);
                } else {
                    assert(b[k - 1] == a[k]);
                }
            },
            None => {
                assert(b[k] == a[k]);
            },
        }
    }
}

/// `seq_without(s, x)` keeps every element of `s` other than `x`.
proof fn lemma_without_keeps(s: Seq<Seq<char>>, x: Seq<char>, y: Seq<char>)
    ensures
        s.contains(y) && y != x ==> seq_without(s, x).contains(y),
    decreases s.len(),
{
    if s.len() > 0 && s.contains(y) && y != x {
        let prev = s.drop_last();
        let w = seq_without(s, x);
        let wp = seq_without(prev, x);
        let q = choose|q: int| 0 <= q < s.len() && s[q] == y;
        if q < s.len() - 1 {
            assert(prev[q] == y);
            lemma_without_keeps(prev, x, y);
            let r = choose|r: int| 0 <= r < wp.len() && wp[r] == y;
            assert(w[r] == y);
        } else {
            assert(w[wp.len() as int] == y);
        }
    }
}

/// The app order once `id` is launched keeps what it listed and lists `id`.
proof fn lemma_launched_order(h: HostStateView, id: Seq<char>, body: Seq<char>, y: Seq<char>)
    ensures
        launched_in(h, id, body).app_order.contains(id),
        h.app_order.contains(y) ==> launched_in(h, id, body).app_order.contains(y),
{
    let o = h.app_order;
    if !o.contains(id) {
        assert(o.push(id)[o.len() as int] == id);
        if o.contains(y) {
            let q = choose|q: int| 0 <= q < o.len() && o[q] == y;
            assert(o.push(id)[q] == y);
        }
    }
}

proof fn lemma_launch_all_shows(h: HostStateView, new: Seq<(Seq<char>, Seq<char>)>)
    requires
        forall|i: int, j: int| 0 <= i < j < new.len() ==> new[i].0 != new[j].0,
    ensures
        forall|j: int| 0 <= j < new.len() ==> shows(launch_all(h, new).apps, #[trigger] new[j].0, new[j].1)
            && launch_all(h, new).app_order.contains(new[j].0),
        launch_all(h, new).pending_launches == h.pending_launches + new,
    decreases new.len(),
{
    if new.len() == 0 {
        assert(h.pending_launches + new =~= h.pending_launches);
    } else {
        let prevs = new.drop_last();
        let last = new.last();
        lemma_launch_all_shows(h, prevs);
        let prev = launch_all(h, prevs);
        assert forall|j: int| 0 <= j < new.len() implies shows(launch_all(h, new).apps, #[trigger] new[j].0, new[j].1)
            && launch_all(h, new).app_order.contains(new[j].0) by {
            lemma_launched_shows(prev, last.0, last.1, new[j].0, new[j].1);
            lemma_launched_order(prev, last.0, last.1, new[j].0);
            if j < new.len() - 1 {
                assert(prevs[j] == new[j]);
                assert(new[j].0 != new[new.len() - 1].0);
            }
        }
        assert(launch_all(h, new).pending_launches =~= h.pending_launches + new);
    }
}

proof fn lemma_close_all_keeps(h: HostStateView, ids: Seq<Seq<char>>, id: Seq<char>, body: Seq<char>)
    ensures
        !ids.contains(id) && shows(h.apps, id, body) ==> shows(close_all(h, ids).apps, id, body),
        !ids.contains(id) && h.app_order.contains(id) ==> close_all(h, ids).app_order.contains(id),
        close_all(h, ids).pending_launches == h.pending_launches,
    decreases ids.len(),
{
    if ids.len() > 0 {
        let prevs = ids.drop_last();
        lemma_close_all_keeps(h, prevs, id, body);
        let prev = close_all(h, prevs);
        if !ids.contains(id) {
            assert(!prevs.contains(id)) by {
                if prevs.contains(id) {
                    let q = choose|q: int| 0 <= q < prevs.len() && prevs[q] == id;
                    assert(ids[q] == id);
                }
            }
            assert(ids.last() != id) by {
                assert(ids[ids.len() - 1] == ids.last());
            }
            lemma_closed_shows(prev, ids.last(), id, body);
            lemma_without_keeps(prev.app_order, ids.last(), id);
        }
    }
}

proof fn lemma_close_all_order(h: HostStateView, ids: Seq<Seq<char>>, k: Seq<char>)
    ensures
        ids.contains(k) ==> !close_all(h, ids).app_order.contains(k),
    decreases ids.len(),
{
    if ids.len() > 0 && ids.contains(k) {
        let prevs = ids.drop_last();
        let prev = close_all(h, prevs);
        if k == ids.last() {
            lemma_without_lacks(prev.app_order, k);
        } else {
            let q = choose|q: int| 0 <= q < ids.len() && ids[q] == k;
            assert(q < ids.len() - 1);
            assert(prevs[q] == k);
            lemma_close_all_order(h, prevs, k);
            lemma_without_within(prev.app_order, ids.last(), k);
        }
    }
}

/// The new apps of a document whose ids are distinct have distinct ids.
proof fn lemma_new_apps_distinct(apps: Seq<(Seq<char>, MiniAppView)>, known: Seq<(Seq<char>, AppStateView)>)
    requires
        ids_distinct(apps),
    ensures
        ({
            let n = new_apps_spec(apps, known);
            forall|i: int, j: int| 0 <= i < j < n.len() ==> n[i].0 != n[j].0
        }),
    decreases apps.len(),
{
    if apps.len() > 0 {
        let prev = apps.drop_last();
        assert(ids_distinct(prev)) by {
            assert forall|i: int, j: int| 0 <= i < j < prev.len() implies prev[i].0 != prev[j].0 by {
                assert(prev[i] == apps[i] && prev[j] == apps[j]);
            }
        }
        lemma_new_apps_distinct(prev, known);
        let n = new_apps_spec(apps, known);
        let np = new_apps_spec(prev, known);
        assert forall|i: int, j: int| 0 <= i < j < n.len() implies n[i].0 != n[j].0 by {
            if j < np.len() {
                assert(n[i] == np[i] && n[j] == np[j]);
            } else {
                assert(n[i] == np[i]);
                assert(n[j].0 == apps.last().0);
                lemma_new_apps_members(prev, known, np[i].0);
                let q = choose|q: int| 0 <= q < prev.len() && prev[q].0 == np[i].0;
                assert(apps[q].0 != apps[apps.len() - 1].0);
            }
        }
    }
}

/// The host follows the document app by app: once the changes that a
/// document (with distinct app ids) means for the host are applied, and
/// none is an inference result, the host knows exactly the document's apps,
/// each once; every new app is shown with its body, listed in the app order
/// exactly once, and queued for launch in document order; every closed app is
/// gone from the apps and the app order; the app order has no repeats; and
/// the revision has risen by the number of changes (wrapping).
pub proof fn law_host_follows_document(h: HostStateView, m: Seq<(Seq<char>, MiniAppView)>, c: DocChanges)
    requires
        describes(c, h, m),
        c.inference_results@.len() == 0,
        ids_distinct(m),
        host_ids_distinct(h.apps),
        h.app_order.no_duplicates(),
    ensures
        ({
            let h3 = changes_applied(h, c);
            let n = pairs_view(c.new_apps@);
            let gone = strs_view(c.closed_apps@);
            &&& host_ids_distinct(h3.apps)
            &&& forall|k: Seq<char>| knows(h3.apps, k) <==> has_app(m, k)
            &&& h3.app_order.no_duplicates()
            &&& h3.revision == revision_after(h.revision, change_count(c))
            &&& forall|j: int| 0 <= j < n.len() ==> shows(h3.apps, #[trigger] n[j].0, n[j].1)
                && h3.app_order.contains(n[j].0)
            &&& h3.pending_launches == h.pending_launches + n
            &&& forall|j: int| 0 <= j < gone.len() ==> !knows(h3.apps, #[trigger] gone[j])
                && !h3.app_order.contains(gone[j])
        }),
{
    let n = pairs_view(c.new_apps@);
    let gone = strs_view(c.closed_apps@);
    let rv = pairs_view(c.inference_results@);
    let h1 = launch_all(h, n);
    let h2 = close_all(h1, gone);
    assert(rv.len() == 0);
    assert(changes_applied(h, c) == h2);
    law_host_mirrors_document(h, m, rv);
    lemma_revision_zero(h.revision);
    lemma_launch_all_steps(h, n, h.revision, 0);
    lemma_close_all_steps(h1, gone, h.revision, n.len());
    assert(change_count(c) == n.len() + gone.len());
    lemma_new_apps_distinct(m, h.apps);
    lemma_launch_all_shows(h, n);
    lemma_close_all_keeps(h1, gone, Seq::empty(), Seq::empty());
    assert forall|j: int| 0 <= j < n.len() implies shows(h2.apps, #[trigger] n[j].0, n[j].1)
        && h2.app_order.contains(n[j].0) by {
        let k = n[j].0;
        lemma_new_apps_members(m, h.apps, k);
        lemma_closed_apps_members(h.apps, m, k);
        lemma_close_all_keeps(h1, gone, k, n[j].1);
    }
    lemma_launch_all_knows(h, n);
    lemma_close_all_knows(h1, gone);
    assert forall|j: int| 0 <= j < gone.len() implies !knows(h2.apps, #[trigger] gone[j])
        && !h2.app_order.contains(gone[j]) by {
        assert(gone.contains(gone[j]));
        lemma_close_all_order(h1, gone, gone[j]);
    }
}

// ── What the host shows, what wakes it, what the router keeps ─────────────

/// A pending app is shown whenever its body differs from the body shown
/// last, whether or not its id changed (an app relaunched under the same id
/// with a new body): the UI is handed the new body, the app's status line and
/// the error line, the app is confirmed as launched, and the body and id are
/// remembered.
pub proof fn law_changed_body_is_shown(
    v: HostViewView,
    d: AgentDocView,
    id: Seq<char>,
    body: Seq<char>,
    status: AppStatus,
)
    requires
        !d.should_exit,
        d.pending_app == Some(PendingAppView { id, splash_body: body, status }),
        id.len() > 0 || body.len() > 0,
        body != v.last_splash_body,
    ensures
        sync_update(v, d) matches Some(u) && u.splash_body == Some(body) && u.source_body == Some(body)
            && u.status == Some("App: "@ + id) && u.error_msg == Some(error_line(d)),
        confirms_launch(v, d),
        sync_next(v, d).last_splash_body == body,
        sync_next(v, d).last_app_id == id,
{
}

/// A document whose app id is new to the host wakes it, whether the host
/// last saw no app or another one.
pub proof fn law_new_app_id_wakes_host(w: HostWatchView, d: AgentDocView)
    requires
        d.app_id() is Some,
        d.app_id() != w.last_pending_id,
    ensures
        watch_signal(w, d),
{
}

/// The app `k` is launched with the value `a`.
pub open spec fn has_entry(apps: Seq<(Seq<char>, MiniAppView)>, k: Seq<char>, a: MiniAppView) -> bool {
    exists|i: int| 0 <= i < apps.len() && apps[i] == (k, a)
}

/// Closing an app leaves every other app launched as it was, and launches
/// none.
pub proof fn law_router_close_keeps_others(d: RequestDocView, p: nat, id: Seq<char>)
    requires
        !d.should_exit,
        first_routable(d.requests, 0) == Some(p),
        d.requests[p as int] == (AgentRequestView::CloseApp { id }),
    ensures
        forall|k: Seq<char>, a: MiniAppView| k != id ==> (has_entry(routed(d).mini_apps, k, a) <==> has_entry(
            d.mini_apps,
            k,
            a,
        )),
{
    let apps = d.mini_apps;
    let after = routed(d).mini_apps;
    lemma_app_index(apps, id);
    match app_index(apps, id) {
        Some(i) => {
            assert forall|k: Seq<char>, a: MiniAppView| k != id implies (has_entry(after, k, a) <==> has_entry(
                apps,
                k,
                a,
            )) by {
                if has_entry(after, k, a) {
                    let j = choose|j: int| 0 <= j < after.len() && after[j] == (k, a);
                    if j < i {
                        assert(apps[j] == after[j]);
                    } else {
                        assert(apps[j + 1] == after[j]);
                    }
                }
                if has_entry(apps, k, a) {
                    let j = choose|j: int| 0 <= j < apps.len() && apps[j] == (k, a);
                    assert(j != i);
                    if j < i {
                        assert(after[j] == apps[j]);
                    } else {
                        assert(after[j - 1] == apps[j]);
                    }
                }
            }
        },
        None => {},
    }
}

/// Launching an app leaves every other app launched as it was, and closes
/// none.
pub proof fn law_router_launch_keeps_others(d: RequestDocView, p: nat, id: Seq<char>, splash_body: Seq<char>)
    requires
        !d.should_exit,
        first_routable(d.requests, 0) == Some(p),
        d.requests[p as int] == (AgentRequestView::LaunchApp { id, splash_body }),
    ensures
        forall|k: Seq<char>, a: MiniAppView| k != id ==> (has_entry(routed(d).mini_apps, k, a) <==> has_entry(
            d.mini_apps,
            k,
            a,
        )),
{
    let apps = d.mini_apps;
    let after = routed(d).mini_apps;
    lemma_app_index(apps, id);
    assert forall|k: Seq<char>, a: MiniAppView| k != id implies (has_entry(after, k, a) <==> has_entry(apps, k, a)) by {
        if has_entry(after, k, a) {
            let j = choose|j: int| 0 <= j < after.len() && after[j] == (k, a);
            if j < apps.len() {
                assert(apps[j] == after[j]);
            }
        }
        if has_entry(apps, k, a) {
            let j = choose|j: int| 0 <= j < apps.len() && apps[j] == (k, a);
            assert(after[j] == apps[j]);
        }
    }
}

/// When the shown log holds no progress sign, a final answer replaces
/// everything from the last answer marker on: the log keeps what precedes
/// the marker and ends with the answer line.
pub proof fn law_final_answer_replaces_last_answer(current: Seq<char>, data: Seq<char>, m: int)
    requires
        forall|j: int| !occurs_at(shown_log(current), seq!['\u{2699}'], j),
        occurs_at(shown_log(current), seq!['\n', '\u{1F916}', ' '], m),
        forall|j: int| m < j ==> !occurs_at(shown_log(current), seq!['\n', '\u{1F916}', ' '], j),
    ensures
        final_log_spec(current, data) == shown_log(current).subrange(0, m + 1) + seq!['\u{1F916}', ' '] + data
            + seq!['\n'],
{
    let c = shown_log(current);
    reveal_strlit("\u{2699}");
    reveal_strlit("\u{1F916} ");
    reveal_strlit("\n");
    assert("\u{2699}"@ =~= seq!['\u{2699}']);
    assert("\u{1F916} "@ =~= seq!['\u{1F916}', ' ']);
    assert("\n"@ =~= seq!['\n']);
    lemma_find_from_spec_props(c, "\u{2699}"@, 0);
    assert(!contains_spec(c, "\u{2699}"@));
    let marker = seq!['\n', '\u{1F916}', ' '];
    lemma_rfind_upto_some(c, marker, c.len() - marker.len(), m);
    assert(rfind_spec(c, marker) == Some(m as nat));
}

/// The first occurrence at or after `start` comes no later than any other.
proof fn lemma_find_from_first(s: Seq<char>, pat: Seq<char>, start: nat, i: nat)
    requires
        start <= i,
        occurs_at(s, pat, i as int),
    ensures
        find_from_spec(s, pat, start) matches Some(e) && start <= e <= i,
    decreases i - start,
{
    if start < i && !occurs_at(s, pat, start as int) {
        lemma_find_from_first(s, pat, start + 1, i);
    }
}

proof fn lemma_scan_reaches_open_block(t: Seq<char>, p: int, from: nat, found: Option<Seq<char>>)
    requires
        from <= p,
        occurs_at(t, rs_open(), p),
        forall|j: int| p + 12 <= j ==> !occurs_at(t, rs_close(), j),
        forall|b: int| 0 <= b < p && occurs_at(t, rs_open(), b) ==> exists|e: int|
            b + 12 <= e && e + 3 <= p && occurs_at(t, rs_close(), e),
        utf8_len(t.subrange(p + 12, t.len() as int)) > 20,
        trimmed(t.subrange(p + 12, t.len() as int)).len() > 0,
    ensures
        streaming_scan(t, from, found) == Some(trimmed(t.subrange(p + 12, t.len() as int))),
    decreases t.len() + 1 - from,
{
    assert(rs_open().len() == 12);
    assert(rs_close().len() == 3);
    lemma_find_from_first(t, rs_open(), from, p as nat);
    lemma_find_from_spec_props(t, rs_open(), from);
    let b = find_from_spec(t, rs_open(), from)->0;
    let a = b + 12;
    if b == p {
        lemma_find_from_spec_props(t, rs_close(), a);
        assert(find_from_spec(t, rs_close(), a) is None);
    } else {
        let e0 = choose|e: int| b + 12 <= e && e + 3 <= p && occurs_at(t, rs_close(), e);
        lemma_find_from_first(t, rs_close(), a, e0 as nat);
        lemma_find_from_spec_props(t, rs_close(), a);
        let e = find_from_spec(t, rs_close(), a)->0;
        let code = trimmed(t.subrange(a as int, e as int));
        lemma_scan_reaches_open_block(t, p, e + 3, if code.len() > 0 { Some(code) } else { found });
    }
}

/// Streaming text that ends in an open `runsplash` block, opened after every
/// earlier block was closed, runs that block's code once it holds more than
/// 20 bytes with some code, whatever blocks come before it.
pub proof fn law_open_last_block_runs(t: Seq<char>, p: int)
    requires
        occurs_at(t, rs_open(), p),
        forall|j: int| p + 12 <= j ==> !occurs_at(t, rs_close(), j),
        forall|b: int| 0 <= b < p && occurs_at(t, rs_open(), b) ==> exists|e: int|
            b + 12 <= e && e + 3 <= p && occurs_at(t, rs_close(), e),
        utf8_len(t.subrange(p + 12, t.len() as int)) > 20,
        trimmed(t.subrange(p + 12, t.len() as int)).len() > 0,
    ensures
        streaming_code_spec(t) == Some(trimmed(t.subrange(p + 12, t.len() as int))),
{
    lemma_scan_reaches_open_block(t, p, 0, None);
}

} // verus!
