//! The request queue between the host and the harness: the host queues
//! requests (launch, close, inference), the harness's router serves launches
//! and closes, and answers in the response list. Inference requests are left
//! in the queue for the pi extension.
use vstd::prelude::*;

verus! {

/// A request queued by the host.
#[derive(Clone, Debug, PartialEq)]
pub enum AgentRequest {
    LaunchApp { id: String, splash_body: String },
    CloseApp { id: String },
    Inference { content: String, app_id: String },
}

/// An answer to a request.
#[derive(Clone, Debug, PartialEq)]
pub enum AgentResponse {
    AppLaunched { id: String },
    AppClosed { id: String },
    InferenceResult { app_id: String, content: String },
}

/// A launched mini app.
#[derive(Clone, Debug, PartialEq)]
pub struct MiniApp {
    pub splash_body: String,
    /// Values that the app stored, by key.
    pub state: Vec<(String, String)>,
}

/// The document that carries the request queue, the launched mini apps (by
/// id, each id once) and the responses.
pub struct RequestDoc {
    pub should_exit: bool,
    pub requests: Vec<AgentRequest>,
    pub mini_apps: Vec<(String, MiniApp)>,
    pub responses: Vec<AgentResponse>,
}

// ── Views ─────────────────────────────────────────────────────────────────

pub enum AgentRequestView {
    LaunchApp { id: Seq<char>, splash_body: Seq<char> },
    CloseApp { id: Seq<char> },
    Inference { content: Seq<char>, app_id: Seq<char> },
}

pub enum AgentResponseView {
    AppLaunched { id: Seq<char> },
    AppClosed { id: Seq<char> },
    InferenceResult { app_id: Seq<char>, content: Seq<char> },
}

pub struct MiniAppView {
    pub splash_body: Seq<char>,
    pub state: Seq<(Seq<char>, Seq<char>)>,
}

pub struct RequestDocView {
    pub should_exit: bool,
    pub requests: Seq<AgentRequestView>,
    pub mini_apps: Seq<(Seq<char>, MiniAppView)>,
    pub responses: Seq<AgentResponseView>,
}

impl View for AgentRequest {
    type V = AgentRequestView;

    open spec fn view(&self) -> AgentRequestView {
        match self {
            AgentRequest::LaunchApp { id, splash_body } => AgentRequestView::LaunchApp {
                id: id@,
                splash_body: splash_body@,
            },
            AgentRequest::CloseApp { id } => AgentRequestView::CloseApp { id: id@ },
            AgentRequest::Inference { content, app_id } => AgentRequestView::Inference {
                content: content@,
                app_id: app_id@,
            },
        }
    }
}

impl View for AgentResponse {
    type V = AgentResponseView;

    open spec fn view(&self) -> AgentResponseView {
        match self {
            AgentResponse::AppLaunched { id } => AgentResponseView::AppLaunched { id: id@ },
            AgentResponse::AppClosed { id } => AgentResponseView::AppClosed { id: id@ },
            AgentResponse::InferenceResult { app_id, content } => AgentResponseView::InferenceResult {
                app_id: app_id@,
                content: content@,
            },
        }
    }
}

impl View for MiniApp {
    type V = MiniAppView;

    open spec fn view(&self) -> MiniAppView {
        MiniAppView {
            splash_body: self.splash_body@,
            state: self.state@.map_values(|e: (String, String)| (e.0@, e.1@)),
        }
    }
}

impl View for RequestDoc {
    type V = RequestDocView;

    open spec fn view(&self) -> RequestDocView {
        RequestDocView {
            should_exit: self.should_exit,
            requests: self.requests@.map_values(|r: AgentRequest| r@),
            mini_apps: self.mini_apps@.map_values(|e: (String, MiniApp)| (e.0@, e.1@)),
            responses: self.responses@.map_values(|r: AgentResponse| r@),
        }
    }
}

// ── Specifications ────────────────────────────────────────────────────────

/// Requests that the router serves; the others wait for the pi extension.
pub open spec fn is_routable(r: AgentRequestView) -> bool {
    r is LaunchApp || r is CloseApp
}

/// The first request at or after `i` that the router serves.
pub open spec fn first_routable(reqs: Seq<AgentRequestView>, i: nat) -> Option<nat>
    decreases reqs.len() - i,
{
    if i >= reqs.len() {
        None
    } else if is_routable(reqs[i as int]) {
        Some(i)
    } else {
        first_routable(reqs, i + 1)
    }
}

/// The position of the app `id`, if it is launched.
pub open spec fn app_index(apps: Seq<(Seq<char>, MiniAppView)>, id: Seq<char>) -> Option<nat> {
    app_index_from(apps, id, 0)
}

pub open spec fn app_index_from(apps: Seq<(Seq<char>, MiniAppView)>, id: Seq<char>, i: nat) -> Option<
    nat,
>
    decreases apps.len() - i,
{
    if i >= apps.len() {
        None
    } else if apps[i as int].0 == id {
        Some(i)
    } else {
        app_index_from(apps, id, i + 1)
    }
}

/// Each app is launched at most once.
pub open spec fn ids_distinct(apps: Seq<(Seq<char>, MiniAppView)>) -> bool {
    forall|i: int, j: int| 0 <= i < j < apps.len() ==> apps[i].0 != apps[j].0
}

/// The apps once `id` is (re)launched as `app`.
pub open spec fn apps_with(
    apps: Seq<(Seq<char>, MiniAppView)>,
    id: Seq<char>,
    app: MiniAppView,
) -> Seq<(Seq<char>, MiniAppView)> {
    match app_index(apps, id) {
        Some(i) => apps.update(i as int, (id, app)),
        None => apps.push((id, app)),
    }
}

/// The apps once `id` is closed.
pub open spec fn apps_without(apps: Seq<(Seq<char>, MiniAppView)>, id: Seq<char>) -> Seq<
    (Seq<char>, MiniAppView),
> {
    match app_index(apps, id) {
        Some(i) => apps.remove(i as int),
        None => apps,
    }
}

/// The document once the router has served the first launch or close request.
pub open spec fn routed(d: RequestDocView) -> RequestDocView {
    if d.should_exit {
        d
    } else {
        match first_routable(d.requests, 0) {
            None => d,
            Some(p) => {
                let rest = d.requests.remove(p as int);
                match d.requests[p as int] {
                    AgentRequestView::LaunchApp { id, splash_body } => RequestDocView {
                        requests: rest,
                        mini_apps: apps_with(
                            d.mini_apps,
                            id,
                            MiniAppView { splash_body, state: Seq::empty() },
                        ),
                        responses: d.responses.push(AgentResponseView::AppLaunched { id }),
                        ..d
                    },
                    AgentRequestView::CloseApp { id } => RequestDocView {
                        requests: rest,
                        mini_apps: apps_without(d.mini_apps, id),
                        responses: d.responses.push(AgentResponseView::AppClosed { id }),
                        ..d
                    },
                    AgentRequestView::Inference { .. } => RequestDocView { requests: rest, ..d },
                }
            },
        }
    }
}

// ── Lemmas ────────────────────────────────────────────────────────────────

proof fn lemma_first_routable_some(reqs: Seq<AgentRequestView>, i: nat, p: nat)
    requires
        i <= p < reqs.len(),
        is_routable(reqs[p as int]),
        forall|k: int| i <= k < p ==> !is_routable(reqs[k]),
    ensures
        first_routable(reqs, i) == Some(p),
    decreases p - i,
{
    if i < p {
        lemma_first_routable_some(reqs, i + 1, p);
    }
}

proof fn lemma_first_routable_none(reqs: Seq<AgentRequestView>, i: nat)
    requires
        forall|k: int| i <= k < reqs.len() ==> !is_routable(reqs[k]),
    ensures
        first_routable(reqs, i) is None,
    decreases reqs.len() - i,
{
    if i < reqs.len() {
        lemma_first_routable_none(reqs, i + 1);
    }
}

/// What `first_routable` finds.
pub proof fn lemma_first_routable_props(reqs: Seq<AgentRequestView>, i: nat)
    ensures
        first_routable(reqs, i) matches Some(p) ==> i <= p < reqs.len() && is_routable(
            reqs[p as int],
        ),
    decreases reqs.len() - i,
{
    if i < reqs.len() && !is_routable(reqs[i as int]) {
        lemma_first_routable_props(reqs, i + 1);
    }
}

proof fn lemma_app_index_some(apps: Seq<(Seq<char>, MiniAppView)>, id: Seq<char>, i: nat, p: nat)
    requires
        i <= p < apps.len(),
        apps[p as int].0 == id,
        forall|k: int| i <= k < p ==> apps[k].0 != id,
    ensures
        app_index_from(apps, id, i) == Some(p),
    decreases p - i,
{
    if i < p {
        lemma_app_index_some(apps, id, i + 1, p);
    }
}

proof fn lemma_app_index_none(apps: Seq<(Seq<char>, MiniAppView)>, id: Seq<char>, i: nat)
    requires
        forall|k: int| i <= k < apps.len() ==> apps[k].0 != id,
    ensures
        app_index_from(apps, id, i) is None,
    decreases apps.len() - i,
{
    if i < apps.len() {
        lemma_app_index_none(apps, id, i + 1);
    }
}

/// What `app_index` finds.
pub proof fn lemma_app_index(apps: Seq<(Seq<char>, MiniAppView)>, id: Seq<char>)
    ensures
        app_index(apps, id) matches Some(i) ==> i < apps.len() && apps[i as int].0 == id,
        app_index(apps, id) is None ==> forall|k: int| 0 <= k < apps.len() ==> apps[k].0 != id,
{
    lemma_app_index_props(apps, id, 0);
}

proof fn lemma_app_index_props(apps: Seq<(Seq<char>, MiniAppView)>, id: Seq<char>, i: nat)
    ensures
        app_index_from(apps, id, i) matches Some(p) ==> i <= p < apps.len() && apps[p as int].0
            == id,
        app_index_from(apps, id, i) is None ==> forall|k: int| i <= k < apps.len() ==> apps[k].0
            != id,
    decreases apps.len() - i,
{
    if i < apps.len() && apps[i as int].0 != id {
        lemma_app_index_props(apps, id, i + 1);
    }
}

// ── Executable ────────────────────────────────────────────────────────────

impl RequestDoc {
    /// An empty queue with no apps.
    pub fn new() -> (r: RequestDoc)
        ensures
            r@ == (RequestDocView {
                should_exit: false,
                requests: Seq::empty(),
                mini_apps: Seq::empty(),
                responses: Seq::empty(),
            }),
    {
        let r = RequestDoc {
            should_exit: false,
            requests: Vec::new(),
            mini_apps: Vec::new(),
            responses: Vec::new(),
        };
        assert(r@.requests =~= Seq::empty());
        assert(r@.mini_apps =~= Seq::empty());
        assert(r@.responses =~= Seq::empty());
        r
    }

    /// Each app is launched at most once.
    pub open spec fn wf(&self) -> bool {
        ids_distinct(self@.mini_apps)
    }

    /// Queues a request.
    pub fn push_request(&mut self, req: AgentRequest)
        ensures
            final(self)@ == (RequestDocView { requests: old(self)@.requests.push(req@), ..old(self)@ }),
    {
        self.requests.push(req);
        assert(self@.requests =~= old(self)@.requests.push(req@));
    }

    /// The position of the app `id`, if it is launched.
    pub fn find_app(&self, id: &String) -> (r: Option<usize>)
        ensures
            opt_index(r) == app_index(self@.mini_apps, id@),
    {
        let mut i: usize = 0;
        while i < self.mini_apps.len()
            invariant
                i <= self.mini_apps.len(),
                forall|k: int| 0 <= k < i ==> self@.mini_apps[k].0 != id@,
            decreases self.mini_apps.len() - i,
        {
            if self.mini_apps[i].0 == *id {
                proof {
                    lemma_app_index_some(self@.mini_apps, id@, 0, i as nat);
                }
                return Some(i);
            }
            i += 1;
        }
        proof {
            lemma_app_index_none(self@.mini_apps, id@, 0);
        }
        None
    }

    /// Launches `id` with `app`, replacing an app of that id.
    fn launch_app(&mut self, id: String, app: MiniApp)
        requires
            old(self).wf(),
        ensures
            final(self).wf(),
            final(self)@ == (RequestDocView {
                mini_apps: apps_with(old(self)@.mini_apps, id@, app@),
                ..old(self)@
            }),
    {
        let ghost entry = (id@, app@);
        proof {
            lemma_app_index(self@.mini_apps, id@);
        }
        match self.find_app(&id) {
            Some(i) => {
                self.mini_apps.set(i, (id, app));
                assert(self@.mini_apps =~= old(self)@.mini_apps.update(i as int, entry));
            },
            None => {
                self.mini_apps.push((id, app));
                assert(self@.mini_apps =~= old(self)@.mini_apps.push(entry));
            },
        }
        assert(self@.requests =~= old(self)@.requests);
        assert(self@.responses =~= old(self)@.responses);
    }

    /// Closes `id`, if it is launched.
    fn close_app(&mut self, id: &String)
        requires
            old(self).wf(),
        ensures
            final(self).wf(),
            final(self)@ == (RequestDocView {
                mini_apps: apps_without(old(self)@.mini_apps, id@),
                ..old(self)@
            }),
    {
        proof {
            lemma_app_index(self@.mini_apps, id@);
        }
        match self.find_app(id) {
            Some(i) => {
                self.mini_apps.remove(i);
                assert(self@.mini_apps =~= old(self)@.mini_apps.remove(i as int));
            },
            None => {},
        }
        assert(self@.requests =~= old(self)@.requests);
        assert(self@.responses =~= old(self)@.responses);
    }

    /// Serves the first launch or close request in the queue, unless an exit
    /// is asked: a launch records the app and answers `AppLaunched`, a close
    /// removes it and answers `AppClosed`. Inference requests stay queued.
    pub fn process_pending_requests(&mut self)
        requires
            old(self).wf(),
        ensures
            final(self).wf(),
            final(self)@ == routed(old(self)@),
    {
        if self.should_exit {
            return;
        }
        let ghost d = self@;
        let mut pos: usize = 0;
        while pos < self.requests.len() && !is_routable_request(&self.requests[pos])
            invariant
                self@ == d,
                pos <= self.requests.len(),
                forall|k: int| 0 <= k < pos ==> !is_routable(d.requests[k]),
            decreases self.requests.len() - pos,
        {
            pos += 1;
        }
        if pos == self.requests.len() {
            proof {
                lemma_first_routable_none(d.requests, 0);
            }
            return;
        }
        proof {
            lemma_first_routable_some(d.requests, 0, pos as nat);
        }
        let req = self.requests.remove(pos);
        assert(self@.requests =~= d.requests.remove(pos as int));
        match req {
            AgentRequest::LaunchApp { id, splash_body } => {
                let app = MiniApp { splash_body, state: Vec::new() };
                assert(app@.state =~= Seq::empty());
                let response = AgentResponse::AppLaunched { id: id.clone() };
                self.launch_app(id, app);
                self.responses.push(response);
            },
            AgentRequest::CloseApp { id } => {
                self.close_app(&id);
                self.responses.push(AgentResponse::AppClosed { id });
            },
            AgentRequest::Inference { .. } => {},
        }
        assert(self@.responses =~= routed(d).responses);
    }
}

/// Whether the router serves the request.
pub fn is_routable_request(req: &AgentRequest) -> (r: bool)
    ensures
        r == is_routable(req@),
{
    match req {
        AgentRequest::LaunchApp { .. } => true,
        AgentRequest::CloseApp { .. } => true,
        AgentRequest::Inference { .. } => false,
    }
}

/// Maps an optional position to the integers.
pub open spec fn opt_index(o: Option<usize>) -> Option<nat> {
    match o {
        Some(i) => Some(i as nat),
        None => None,
    }
}

} // verus!
