//! The host's picture of the launched apps, kept in step with the request
//! document: apps that appear are launched, apps that disappear are closed,
//! and inference results reach the app that asked.
use vstd::prelude::*;

use tokio::sync::oneshot;

use crate::router::{app_index, AgentResponse, AgentResponseView, MiniAppView, RequestDoc, RequestDocView};
use crate::state::{host_app_index, AppState, AppStateView, HostState, HostStateView, PendingLaunch, next_revision};

verus! {

/// What a change of the request document means for the host.
pub struct DocChanges {
    pub should_exit: bool,
    /// Apps in the document that the host does not know yet: id and body.
    pub new_apps: Vec<(String, String)>,
    /// Apps that the host knows and that are gone from the document.
    pub closed_apps: Vec<String>,
    /// Inference results in the document: app id and content, in order.
    pub inference_results: Vec<(String, String)>,
}

pub open spec fn pairs_view(v: Seq<(String, String)>) -> Seq<(Seq<char>, Seq<char>)> {
    v.map_values(|p: (String, String)| (p.0@, p.1@))
}

pub open spec fn strs_view(v: Seq<String>) -> Seq<Seq<char>> {
    v.map_values(|s: String| s@)
}

/// The apps of the document that the host does not know, in document order.
pub open spec fn new_apps_spec(
    apps: Seq<(Seq<char>, MiniAppView)>,
    known: Seq<(Seq<char>, AppStateView)>,
) -> Seq<(Seq<char>, Seq<char>)>
    decreases apps.len(),
{
    if apps.len() == 0 {
        Seq::empty()
    } else {
        let last = apps.last();
        new_apps_spec(apps.drop_last(), known) + if host_app_index(known, last.0) is None {
            seq![(last.0, last.1.splash_body)]
        } else {
            Seq::empty()
        }
    }
}

/// The apps that the host knows and the document no longer has, in the
/// host's order.
pub open spec fn closed_apps_spec(
    known: Seq<(Seq<char>, AppStateView)>,
    apps: Seq<(Seq<char>, MiniAppView)>,
) -> Seq<Seq<char>>
    decreases known.len(),
{
    if known.len() == 0 {
        Seq::empty()
    } else {
        let last = known.last();
        closed_apps_spec(known.drop_last(), apps) + if app_index(apps, last.0) is None {
            seq![last.0]
        } else {
            Seq::empty()
        }
    }
}

/// The inference results among the responses, in order.
pub open spec fn results_spec(responses: Seq<AgentResponseView>) -> Seq<(Seq<char>, Seq<char>)>
    decreases responses.len(),
{
    if responses.len() == 0 {
        Seq::empty()
    } else {
        results_spec(responses.drop_last()) + match responses.last() {
            AgentResponseView::InferenceResult { app_id, content } => seq![(app_id, content)],
            _ => Seq::empty(),
        }
    }
}

/// `s` without any element equal to `x`.
pub open spec fn seq_without(s: Seq<Seq<char>>, x: Seq<char>) -> Seq<Seq<char>>
    decreases s.len(),
{
    if s.len() == 0 {
        Seq::empty()
    } else {
        seq_without(s.drop_last(), x) + if s.last() == x {
            Seq::empty()
        } else {
            seq![s.last()]
        }
    }
}

/// An app just launched with `body`.
pub open spec fn fresh_app(body: Seq<char>) -> AppStateView {
    AppStateView {
        content: body,
        last_request: None,
        last_response: None,
        request_in_flight: false,
        waiting: Seq::empty(),
    }
}

/// The host state once the app `id` appears with `body`: it is shown last in
/// the app order (once), takes the body, is queued for launch, and the
/// revision is bumped.
pub open spec fn launched_in(h: HostStateView, id: Seq<char>, body: Seq<char>) -> HostStateView {
    HostStateView {
        revision: next_revision(h.revision),
        pending_launches: h.pending_launches.push((id, body)),
        app_order: if h.app_order.contains(id) {
            h.app_order
        } else {
            h.app_order.push(id)
        },
        apps: match host_app_index(h.apps, id) {
            Some(i) => h.apps.update(i as int, (id, AppStateView { content: body, ..h.apps[i as int].1 })),
            None => h.apps.push((id, fresh_app(body))),
        },
    }
}

/// The host state once the app `id` is gone.
pub open spec fn closed_in(h: HostStateView, id: Seq<char>) -> HostStateView {
    HostStateView {
        revision: next_revision(h.revision),
        app_order: seq_without(h.app_order, id),
        apps: match host_app_index(h.apps, id) {
            Some(i) => h.apps.remove(i as int),
            None => h.apps,
        },
        ..h
    }
}

/// The host state once an inference result `content` arrives for `app_id`:
/// it becomes the app's last response, the request is no longer in flight,
/// and the oldest waiter (if any) leaves the queue to be served.
pub open spec fn result_in(h: HostStateView, app_id: Seq<char>, content: Seq<char>) -> HostStateView {
    HostStateView {
        revision: next_revision(h.revision),
        apps: match host_app_index(h.apps, app_id) {
            Some(i) => h.apps.update(
                i as int,
                (
                    app_id,
                    AppStateView {
                        last_response: Some(content),
                        request_in_flight: false,
                        waiting: if h.apps[i as int].1.waiting.len() > 0 {
                            h.apps[i as int].1.waiting.drop_first()
                        } else {
                            h.apps[i as int].1.waiting
                        },
                        ..h.apps[i as int].1
                    },
                ),
            ),
            None => h.apps.push(
                (app_id, AppStateView { last_response: Some(content), ..fresh_app(Seq::empty()) }),
            ),
        },
        ..h
    }
}

/// The response is an inference result for `app_id`.
pub open spec fn is_result_for(r: AgentResponseView, app_id: Seq<char>) -> bool {
    r matches AgentResponseView::InferenceResult { app_id: a, .. } && a == app_id
}

/// The position of the first inference result for `app_id`.
pub open spec fn result_index(responses: Seq<AgentResponseView>, app_id: Seq<char>) -> Option<nat> {
    result_index_from(responses, app_id, 0)
}

pub open spec fn result_index_from(responses: Seq<AgentResponseView>, app_id: Seq<char>, i: nat) -> Option<nat>
    decreases responses.len() - i,
{
    if i >= responses.len() {
        None
    } else if is_result_for(responses[i as int], app_id) {
        Some(i)
    } else {
        result_index_from(responses, app_id, i + 1)
    }
}

proof fn lemma_result_index_some(responses: Seq<AgentResponseView>, app_id: Seq<char>, i: nat, p: nat)
    requires
        i <= p < responses.len(),
        is_result_for(responses[p as int], app_id),
        forall|k: int| i <= k < p ==> !is_result_for(responses[k], app_id),
    ensures
        result_index_from(responses, app_id, i) == Some(p),
    decreases p - i,
{
    if i < p {
        lemma_result_index_some(responses, app_id, i + 1, p);
    }
}

proof fn lemma_result_index_none(responses: Seq<AgentResponseView>, app_id: Seq<char>, i: nat)
    requires
        forall|k: int| i <= k < responses.len() ==> !is_result_for(responses[k], app_id),
    ensures
        result_index_from(responses, app_id, i) is None,
    decreases responses.len() - i,
{
    if i < responses.len() {
        lemma_result_index_none(responses, app_id, i + 1);
    }
}

proof fn lemma_contains_push(s: Seq<Seq<char>>, x: Seq<char>, y: Seq<char>)
    ensures
        s.push(y).contains(x) == (s.contains(x) || y == x),
{
    if s.contains(x) {
        let w = choose|w: int| 0 <= w < s.len() && s[w] == x;
        assert(s.push(y)[w] == x);
    }
    if y == x {
        assert(s.push(y)[s.len() as int] == x);
    }
    if s.push(y).contains(x) {
        let w = choose|w: int| 0 <= w < s.push(y).len() && s.push(y)[w] == x;
        if w < s.len() {
            assert(s[w] == x);
        }
    }
}

/// The caller that an inference result for `app_id` is handed to: the oldest
/// one waiting at that app, if any.
pub open spec fn served_waiter(h: HostStateView, app_id: Seq<char>) -> Option<oneshot::Sender<String>> {
    match host_app_index(h.apps, app_id) {
        Some(i) => if h.apps[i as int].1.waiting.len() > 0 {
            Some(h.apps[i as int].1.waiting[0])
        } else {
            None
        },
        None => None,
    }
}

/// The host knows the app `k`.
pub open spec fn knows(apps: Seq<(Seq<char>, AppStateView)>, k: Seq<char>) -> bool {
    exists|i: int| 0 <= i < apps.len() && apps[i].0 == k
}

/// The document has the app `k`.
pub open spec fn has_app(apps: Seq<(Seq<char>, MiniAppView)>, k: Seq<char>) -> bool {
    exists|i: int| 0 <= i < apps.len() && apps[i].0 == k
}

/// The host knows each app once.
pub open spec fn host_ids_distinct(apps: Seq<(Seq<char>, AppStateView)>) -> bool {
    forall|i: int, j: int| 0 <= i < j < apps.len() ==> apps[i].0 != apps[j].0
}

/// The host state once all of `new` have appeared, in order.
pub open spec fn launch_all(h: HostStateView, new: Seq<(Seq<char>, Seq<char>)>) -> HostStateView
    decreases new.len(),
{
    if new.len() == 0 {
        h
    } else {
        launched_in(launch_all(h, new.drop_last()), new.last().0, new.last().1)
    }
}

/// The host state once all of `ids` are gone, in order.
pub open spec fn close_all(h: HostStateView, ids: Seq<Seq<char>>) -> HostStateView
    decreases ids.len(),
{
    if ids.len() == 0 {
        h
    } else {
        closed_in(close_all(h, ids.drop_last()), ids.last())
    }
}

/// The host state once all of `results` have arrived, in order.
pub open spec fn deliver_all(h: HostStateView, results: Seq<(Seq<char>, Seq<char>)>) -> HostStateView
    decreases results.len(),
{
    if results.len() == 0 {
        h
    } else {
        result_in(deliver_all(h, results.drop_last()), results.last().0, results.last().1)
    }
}

/// The callers served while `results` arrive, each with its content, in order.
pub open spec fn served_all(h: HostStateView, results: Seq<(Seq<char>, Seq<char>)>) -> Seq<
    (oneshot::Sender<String>, Seq<char>),
>
    decreases results.len(),
{
    if results.len() == 0 {
        Seq::empty()
    } else {
        served_all(h, results.drop_last()) + match served_waiter(
            deliver_all(h, results.drop_last()),
            results.last().0,
        ) {
            Some(tx) => seq![(tx, results.last().1)],
            None => Seq::empty(),
        }
    }
}

/// The revision after `n` more changes; it wraps around after `u64::MAX`.
pub open spec fn revision_after(r: u64, n: nat) -> u64 {
    ((r + n) % 0x1_0000_0000_0000_0000) as u64
}

/// The number of changes that `c` holds.
pub open spec fn change_count(c: DocChanges) -> nat {
    c.new_apps@.len() + c.closed_apps@.len() + c.inference_results@.len()
}

/// The host state once the changes `c` are applied: the new apps are
/// launched, then the closed ones closed, then the results delivered.
pub open spec fn changes_applied(h: HostStateView, c: DocChanges) -> HostStateView {
    deliver_all(
        close_all(launch_all(h, pairs_view(c.new_apps@)), strs_view(c.closed_apps@)),
        pairs_view(c.inference_results@),
    )
}

/// The changes `c` are what the document with apps `m` means for the host
/// `h`, and every result is for an app of the document.
pub open spec fn describes(c: DocChanges, h: HostStateView, m: Seq<(Seq<char>, MiniAppView)>) -> bool {
    &&& pairs_view(c.new_apps@) == new_apps_spec(m, h.apps)
    &&& strs_view(c.closed_apps@) == closed_apps_spec(h.apps, m)
    &&& forall|j: int| 0 <= j < c.inference_results@.len() ==> has_app(m, #[trigger] c.inference_results@[j].0@)
}

proof fn lemma_revision_step(r: u64, n: nat)
    ensures
        next_revision(revision_after(r, n)) == revision_after(r, n + 1),
{
}

pub(crate) proof fn lemma_revision_zero(r: u64)
    ensures
        revision_after(r, 0) == r,
{
}

/// `seq_without(s, x)` keeps only elements of `s`.
pub(crate) proof fn lemma_without_within(s: Seq<Seq<char>>, x: Seq<char>, y: Seq<char>)
    ensures
        seq_without(s, x).contains(y) ==> s.contains(y),
    decreases s.len(),
{
    if s.len() > 0 {
        let prev = s.drop_last();
        lemma_without_within(prev, x, y);
        let w = seq_without(s, x);
        let wp = seq_without(prev, x);
        if w.contains(y) {
            let k = choose|k: int| 0 <= k < w.len() && w[k] == y;
            if k < wp.len() {
                assert(wp[k] == y);
                let q = choose|q: int| 0 <= q < prev.len() && prev[q] == y;
                assert(s[q] == y);
            } else {
                assert(s[s.len() - 1] == y);
            }
        }
    }
}

/// `seq_without` keeps a list free of repeats.
proof fn lemma_without_unique(s: Seq<Seq<char>>, x: Seq<char>)
    requires
        s.no_duplicates(),
    ensures
        seq_without(s, x).no_duplicates(),
    decreases s.len(),
{
    if s.len() > 0 {
        let prev = s.drop_last();
        assert(prev.no_duplicates()) by {
            assert forall|i: int, j: int| 0 <= i < prev.len() && 0 <= j < prev.len() && i != j implies prev[i]
                != prev[j] by {
                assert(prev[i] == s[i] && prev[j] == s[j]);
            }
        }
        lemma_without_unique(prev, x);
        let wp = seq_without(prev, x);
        if s.last() != x {
            lemma_without_within(prev, x, s.last());
            assert(!prev.contains(s.last())) by {
                if prev.contains(s.last()) {
                    let q = choose|q: int| 0 <= q < prev.len() && prev[q] == s.last();
                    assert(s[q] == s[s.len() - 1]);
                }
            }
            let w = seq_without(s, x);
            assert(w =~= wp.push(s.last()));
            assert forall|i: int, j: int| 0 <= i < w.len() && 0 <= j < w.len() && i != j implies w[i] != w[j] by {
                if i < wp.len() && j < wp.len() {
                    assert(w[i] == wp[i] && w[j] == wp[j]);
                } else if i < wp.len() {
                    assert(w[i] == wp[i]);
                    assert(wp.contains(w[i]));
                } else if j < wp.len() {
                    assert(w[j] == wp[j]);
                    assert(wp.contains(w[j]));
                }
            }
        } else {
            assert(seq_without(s, x) =~= wp);
        }
    }
}

proof fn lemma_launched_unique(h: HostStateView, id: Seq<char>, body: Seq<char>)
    requires
        h.app_order.no_duplicates(),
    ensures
        launched_in(h, id, body).app_order.no_duplicates(),
{
    let o = h.app_order;
    if !o.contains(id) {
        let o2 = o.push(id);
        assert forall|i: int, j: int| 0 <= i < o2.len() && 0 <= j < o2.len() && i != j implies o2[i] != o2[j] by {
            if i == o.len() {
                assert(o2[j] == o[j]);
            } else if j == o.len() {
                assert(o2[i] == o[i]);
            } else {
                assert(o2[i] == o[i] && o2[j] == o[j]);
            }
        }
    }
}

/// Launching, closing and delivering each bump the revision once and keep
/// the app order free of repeats.
pub(crate) proof fn lemma_launch_all_steps(h: HostStateView, new: Seq<(Seq<char>, Seq<char>)>, r: u64, n: nat)
    requires
        h.revision == revision_after(r, n),
    ensures
        launch_all(h, new).revision == revision_after(r, n + new.len()),
        h.app_order.no_duplicates() ==> launch_all(h, new).app_order.no_duplicates(),
    decreases new.len(),
{
    if new.len() > 0 {
        lemma_launch_all_steps(h, new.drop_last(), r, n);
        lemma_revision_step(r, n + new.drop_last().len());
        if h.app_order.no_duplicates() {
            lemma_launched_unique(launch_all(h, new.drop_last()), new.last().0, new.last().1);
        }
    }
}

pub(crate) proof fn lemma_close_all_steps(h: HostStateView, ids: Seq<Seq<char>>, r: u64, n: nat)
    requires
        h.revision == revision_after(r, n),
    ensures
        close_all(h, ids).revision == revision_after(r, n + ids.len()),
        h.app_order.no_duplicates() ==> close_all(h, ids).app_order.no_duplicates(),
    decreases ids.len(),
{
    if ids.len() > 0 {
        lemma_close_all_steps(h, ids.drop_last(), r, n);
        lemma_revision_step(r, n + ids.drop_last().len());
        if h.app_order.no_duplicates() {
            lemma_without_unique(close_all(h, ids.drop_last()).app_order, ids.last());
        }
    }
}

proof fn lemma_deliver_all_steps(h: HostStateView, results: Seq<(Seq<char>, Seq<char>)>, r: u64, n: nat)
    requires
        h.revision == revision_after(r, n),
    ensures
        deliver_all(h, results).revision == revision_after(r, n + results.len()),
        deliver_all(h, results).app_order == h.app_order,
    decreases results.len(),
{
    if results.len() > 0 {
        lemma_deliver_all_steps(h, results.drop_last(), r, n);
        lemma_revision_step(r, n + results.drop_last().len());
    }
}

impl RequestDoc {
    /// What the document means for a host that knows `state`.
    pub fn changes_for(&self, state: &HostState) -> (r: DocChanges)
        ensures
            r.should_exit == self@.should_exit,
            pairs_view(r.new_apps@) == new_apps_spec(self@.mini_apps, state@.apps),
            strs_view(r.closed_apps@) == closed_apps_spec(state@.apps, self@.mini_apps),
            pairs_view(r.inference_results@) == results_spec(self@.responses),
    {
        let mut new_apps: Vec<(String, String)> = Vec::new();
        let mut i: usize = 0;
        while i < self.mini_apps.len()
            invariant
                i <= self.mini_apps.len(),
                pairs_view(new_apps@) == new_apps_spec(self@.mini_apps.take(i as int), state@.apps),
            decreases self.mini_apps.len() - i,
        {
            let ghost prefix = self@.mini_apps.take(i + 1);
            assert(prefix.drop_last() =~= self@.mini_apps.take(i as int));
            let ghost before = new_apps@;
            if state.app_position(&self.mini_apps[i].0).is_none() {
                new_apps.push((self.mini_apps[i].0.clone(), self.mini_apps[i].1.splash_body.clone()));
            }
            assert(pairs_view(new_apps@) =~= new_apps_spec(prefix, state@.apps)) by {
                assert(pairs_view(before) == new_apps_spec(self@.mini_apps.take(i as int), state@.apps));
            }
            i += 1;
        }
        assert(self@.mini_apps.take(self@.mini_apps.len() as int) =~= self@.mini_apps);

        let mut closed_apps: Vec<String> = Vec::new();
        let mut j: usize = 0;
        while j < state.apps.len()
            invariant
                j <= state.apps.len(),
                strs_view(closed_apps@) == closed_apps_spec(state@.apps.take(j as int), self@.mini_apps),
            decreases state.apps.len() - j,
        {
            let ghost prefix = state@.apps.take(j + 1);
            assert(prefix.drop_last() =~= state@.apps.take(j as int));
            let ghost before = closed_apps@;
            if self.find_app(&state.apps[j].0).is_none() {
                closed_apps.push(state.apps[j].0.clone());
            }
            assert(strs_view(closed_apps@) =~= closed_apps_spec(prefix, self@.mini_apps)) by {
                assert(strs_view(before) == closed_apps_spec(state@.apps.take(j as int), self@.mini_apps));
            }
            j += 1;
        }
        assert(state@.apps.take(state@.apps.len() as int) =~= state@.apps);

        let mut inference_results: Vec<(String, String)> = Vec::new();
        let mut k: usize = 0;
        while k < self.responses.len()
            invariant
                k <= self.responses.len(),
                pairs_view(inference_results@) == results_spec(self@.responses.take(k as int)),
            decreases self.responses.len() - k,
        {
            let ghost prefix = self@.responses.take(k + 1);
            assert(prefix.drop_last() =~= self@.responses.take(k as int));
            let ghost before = inference_results@;
            match &self.responses[k] {
                AgentResponse::InferenceResult { app_id, content } => {
                    inference_results.push((app_id.clone(), content.clone()));
                },
                _ => {},
            }
            assert(pairs_view(inference_results@) =~= results_spec(prefix)) by {
                assert(pairs_view(before) == results_spec(self@.responses.take(k as int)));
            }
            k += 1;
        }
        assert(self@.responses.take(self@.responses.len() as int) =~= self@.responses);
        DocChanges { should_exit: self.should_exit, new_apps, closed_apps, inference_results }
    }

    /// Removes the first inference result for `app_id`, once it has been delivered.
    pub fn remove_inference_result(&mut self, app_id: &String)
        ensures
            final(self)@ == (RequestDocView {
                responses: match result_index(old(self)@.responses, app_id@) {
                    Some(i) => old(self)@.responses.remove(i as int),
                    None => old(self)@.responses,
                },
                ..old(self)@
            }),
    {
        let mut i: usize = 0;
        while i < self.responses.len()
            invariant
                self@ == old(self)@,
                i <= self.responses.len(),
                forall|k: int| 0 <= k < i ==> !is_result_for(old(self)@.responses[k], app_id@),
            decreases self.responses.len() - i,
        {
            let found = match &self.responses[i] {
                AgentResponse::InferenceResult { app_id: a, .. } => *a == *app_id,
                _ => false,
            };
            if found {
                proof {
                    lemma_result_index_some(old(self)@.responses, app_id@, 0, i as nat);
                }
                self.responses.remove(i);
                assert(self@.responses =~= old(self)@.responses.remove(i as int));
                assert(self@.requests =~= old(self)@.requests);
                assert(self@.mini_apps =~= old(self)@.mini_apps);
                return;
            }
            i += 1;
        }
        proof {
            lemma_result_index_none(old(self)@.responses, app_id@, 0);
        }
    }
}

impl HostState {
    /// The position of the app `id`, if the host knows it.
    pub fn app_position(&self, id: &String) -> (r: Option<usize>)
        ensures
            match r {
                Some(i) => host_app_index(self@.apps, id@) == Some(i as nat),
                None => host_app_index(self@.apps, id@) is None,
            },
            r matches Some(i) ==> i < self.apps.len(),
    {
        let mut i: usize = 0;
        while i < self.apps.len()
            invariant
                i <= self.apps.len(),
                forall|k: int| 0 <= k < i ==> self@.apps[k].0 != id@,
            decreases self.apps.len() - i,
        {
            if self.apps[i].0 == *id {
                proof {
                    crate::state::lemma_host_app_index_some(self@.apps, id@, 0, i as nat);
                }
                return Some(i);
            }
            i += 1;
        }
        proof {
            crate::state::lemma_host_app_index_none(self@.apps, id@, 0);
        }
        None
    }

    /// The app `id` appears in the document with `body`.
    pub fn launch_app(&mut self, id: String, body: String)
        ensures
            final(self)@ == launched_in(old(self)@, id@, body@),
    {
        let ghost h = self@;
        let mut listed = false;
        let mut k: usize = 0;
        while k < self.app_order.len()
            invariant
                self@ == h,
                k <= self.app_order.len(),
                listed == h.app_order.take(k as int).contains(id@),
            decreases self.app_order.len() - k,
        {
            assert(h.app_order.take(k + 1) =~= h.app_order.take(k as int).push(h.app_order[k as int]));
            proof {
                lemma_contains_push(h.app_order.take(k as int), id@, h.app_order[k as int]);
            }
            if self.app_order[k] == id {
                listed = true;
            }
            k += 1;
        }
        assert(h.app_order.take(h.app_order.len() as int) =~= h.app_order);
        if !listed {
            self.app_order.push(id.clone());
        }
        proof {
            crate::state::lemma_host_app_index_props(h.apps, id@, 0);
        }
        match self.app_position(&id) {
            Some(i) => {
                let (key, mut app) = self.apps.remove(i);
                app.content = body.clone();
                self.apps.insert(i, (key, app));
            },
            None => {
                self.apps.push((id.clone(), AppState::new(body.clone())));
            },
        }
        self.pending_launches.push(PendingLaunch { id, content: body });
        self.bump_revision();
        let ghost target = launched_in(h, id@, body@);
        assert(self@.apps =~= target.apps);
        assert(self@.app_order =~= target.app_order);
        assert(self@.pending_launches =~= target.pending_launches);
    }

    /// The app `id` is gone from the document.
    pub fn close_app(&mut self, id: &String)
        ensures
            final(self)@ == closed_in(old(self)@, id@),
    {
        let ghost h = self@;
        match self.app_position(id) {
            Some(i) => {
                self.apps.remove(i);
            },
            None => {},
        }
        let mut kept: Vec<String> = Vec::new();
        let mut k: usize = 0;
        while k < self.app_order.len()
            invariant
                self@.app_order == h.app_order,
                k <= self.app_order.len(),
                strs_view(kept@) == seq_without(h.app_order.take(k as int), id@),
            decreases self.app_order.len() - k,
        {
            let ghost prefix = h.app_order.take(k + 1);
            assert(prefix.drop_last() =~= h.app_order.take(k as int));
            let ghost before = kept@;
            if !(self.app_order[k] == *id) {
                kept.push(self.app_order[k].clone());
            }
            assert(strs_view(kept@) =~= seq_without(prefix, id@)) by {
                assert(strs_view(before) == seq_without(h.app_order.take(k as int), id@));
            }
            k += 1;
        }
        assert(h.app_order.take(h.app_order.len() as int) =~= h.app_order);
        self.app_order = kept;
        self.bump_revision();
        let ghost target = closed_in(h, id@);
        assert(self@.apps =~= target.apps);
        assert(self@.app_order =~= target.app_order);
        assert(self@.pending_launches =~= target.pending_launches);
    }

    /// An inference result `content` arrives for `app_id`. The oldest caller
    /// waiting at that app leaves its queue and is returned with the content,
    /// for the caller of this function to hand it over.
    pub fn deliver_inference_result(&mut self, app_id: String, content: String) -> (r: Option<
        (oneshot::Sender<String>, String),
    >)
        ensures
            final(self)@ == result_in(old(self)@, app_id@, content@),
            match r {
                Some((tx, v)) => served_waiter(old(self)@, app_id@) == Some(tx) && v@ == content@,
                None => served_waiter(old(self)@, app_id@) is None,
            },
    {
        let ghost h = self@;
        proof {
            crate::state::lemma_host_app_index_props(h.apps, app_id@, 0);
        }
        match self.app_position(&app_id) {
            Some(i) => {
                let (key, mut app) = self.apps.remove(i);
                app.last_response = Some(content.clone());
                app.request_in_flight = false;
                let served = match app.pending_inference.pop_front() {
                    Some(tx) => Some((tx, content)),
                    None => None,
                };
                self.apps.insert(i, (key, app));
                self.bump_revision();
                let ghost target = result_in(h, app_id@, content@);
                assert(self@.apps =~= target.apps);
                assert(self@.app_order =~= target.app_order);
                assert(self@.pending_launches =~= target.pending_launches);
                served
            },
            None => {
                let mut app = AppState::new(String::new());
                app.last_response = Some(content);
                self.apps.push((app_id, app));
                self.bump_revision();
                let ghost target = result_in(h, app_id@, content@);
                assert(self@.apps =~= target.apps);
                assert(self@.app_order =~= target.app_order);
                assert(self@.pending_launches =~= target.pending_launches);
                None
            },
        }
    }
}

impl HostState {
    /// Applies what a change of the request document means: the new apps are
    /// launched, the closed ones closed, and the inference results delivered,
    /// in that order. The callers served by the results are returned with
    /// their contents, for the caller of this function to hand over. Whether
    /// to exit is the caller's to act on.
    pub fn apply_changes(&mut self, changes: DocChanges) -> (r: Vec<(oneshot::Sender<String>, String)>)
        ensures
            final(self)@ == changes_applied(old(self)@, changes),
            final(self)@.revision == revision_after(old(self)@.revision, change_count(changes)),
            old(self)@.app_order.no_duplicates() ==> final(self)@.app_order.no_duplicates(),
            r@.map_values(|p: (oneshot::Sender<String>, String)| (p.0, p.1@)) == served_all(
                close_all(
                    launch_all(old(self)@, pairs_view(changes.new_apps@)),
                    strs_view(changes.closed_apps@),
                ),
                pairs_view(changes.inference_results@),
            ),
            forall|m: Seq<(Seq<char>, MiniAppView)>| #[trigger] describes(changes, old(self)@, m)
                && host_ids_distinct(old(self)@.apps) ==> {
                &&& host_ids_distinct(final(self)@.apps)
                &&& forall|k: Seq<char>| knows(final(self)@.apps, k) <==> has_app(m, k)
            },
    {
        let ghost h0 = self@;
        let ghost c = changes;
        let ghost nv = pairs_view(changes.new_apps@);
        let ghost cv = strs_view(changes.closed_apps@);
        let ghost rv = pairs_view(changes.inference_results@);
        let DocChanges { should_exit: _, new_apps, closed_apps, inference_results } = changes;

        let mut i: usize = 0;
        while i < new_apps.len()
            invariant
                i <= new_apps.len(),
                nv == pairs_view(new_apps@),
                self@ == launch_all(h0, nv.take(i as int)),
            decreases new_apps.len() - i,
        {
            self.launch_app(new_apps[i].0.clone(), new_apps[i].1.clone());
            assert(nv.take(i + 1).drop_last() =~= nv.take(i as int));
            i += 1;
        }
        assert(nv.take(nv.len() as int) =~= nv);
        let ghost h1 = self@;

        let mut j: usize = 0;
        while j < closed_apps.len()
            invariant
                j <= closed_apps.len(),
                cv == strs_view(closed_apps@),
                h1 == launch_all(h0, nv),
                self@ == close_all(h1, cv.take(j as int)),
            decreases closed_apps.len() - j,
        {
            self.close_app(&closed_apps[j]);
            assert(cv.take(j + 1).drop_last() =~= cv.take(j as int));
            j += 1;
        }
        assert(cv.take(cv.len() as int) =~= cv);
        let ghost h2 = self@;

        let mut served: Vec<(oneshot::Sender<String>, String)> = Vec::new();
        let mut k: usize = 0;
        while k < inference_results.len()
            invariant
                k <= inference_results.len(),
                rv == pairs_view(inference_results@),
                h2 == close_all(launch_all(h0, nv), cv),
                self@ == deliver_all(h2, rv.take(k as int)),
                served@.map_values(|p: (oneshot::Sender<String>, String)| (p.0, p.1@)) == served_all(
                    h2,
                    rv.take(k as int),
                ),
            decreases inference_results.len() - k,
        {
            let ghost before = served@;
            let ghost prefix = rv.take(k + 1);
            assert(prefix.drop_last() =~= rv.take(k as int));
            let got = self.deliver_inference_result(
                inference_results[k].0.clone(),
                inference_results[k].1.clone(),
            );
            match got {
                Some(w) => {
                    served.push(w);
                },
                None => {},
            }
            assert(served@.map_values(|p: (oneshot::Sender<String>, String)| (p.0, p.1@)) =~= served_all(
                h2,
                prefix,
            ));
            k += 1;
        }
        assert(rv.take(rv.len() as int) =~= rv);
        proof {
            lemma_revision_zero(h0.revision);
            lemma_launch_all_steps(h0, nv, h0.revision, 0);
            lemma_close_all_steps(h1, cv, h0.revision, nv.len());
            lemma_deliver_all_steps(h2, rv, h0.revision, nv.len() + cv.len());
            assert forall|m: Seq<(Seq<char>, MiniAppView)>| #[trigger] describes(c, h0, m)
                && host_ids_distinct(h0.apps) implies {
                &&& host_ids_distinct(self@.apps)
                &&& forall|k: Seq<char>| knows(self@.apps, k) <==> has_app(m, k)
            } by {
                assert forall|j: int| 0 <= j < rv.len() implies has_app(m, #[trigger] rv[j].0) by {
                    assert(rv[j].0 == c.inference_results@[j].0@);
                }
                crate::laws::law_host_mirrors_document(h0, m, rv);
            }
        }
        served
    }
}

} // verus!
