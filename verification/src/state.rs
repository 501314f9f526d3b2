//! The host's command channel: commands that the UI hands to the background
//! task, and the launches that the background task hands to the UI.
use vstd::prelude::*;

use std::collections::VecDeque;

use tokio::sync::mpsc::error::SendError;
use tokio::sync::mpsc::UnboundedSender;
use tokio::sync::oneshot;

use crate::doc::opt_str;
use crate::router::{AgentRequest, AgentRequestView, RequestDoc, RequestDocView};

verus! {

/// `tokio::sync::mpsc::UnboundedSender`, the sending end of the command
/// channel; carried through opaquely.
#[verifier::external_type_specification]
#[verifier::external_body]
#[verifier::reject_recursive_types(T)]
pub struct ExUnboundedSender<T>(UnboundedSender<T>);

/// `tokio::sync::mpsc::error::SendError`, the error of a send on a closed
/// channel; only told apart from success.
#[verifier::external_type_specification]
#[verifier::external_body]
#[verifier::reject_recursive_types(T)]
pub struct ExSendError<T>(SendError<T>);

/// `tokio::sync::oneshot::Sender`, the end through which a waiting task is
/// handed its inference result; carried through opaquely.
#[verifier::external_type_specification]
#[verifier::external_body]
#[verifier::reject_recursive_types(T)]
pub struct ExOneshotSender<T>(oneshot::Sender<T>);

/// A command from the UI to the background task.
#[derive(Debug, Clone)]
pub enum HostCommand {
    Inference { app_id: String, content: String },
    CloseApp(String),
}

/// An app that the background task asks the UI to launch.
pub struct PendingLaunch {
    pub id: String,
    pub content: String,
}

/// The answer when no command channel is set up yet.
pub open spec fn not_ready_error() -> Seq<char> {
    "Makepad backend is not ready yet."@
}

/// The answer when the background task has dropped its end of the channel.
pub open spec fn closed_error() -> Seq<char> {
    "Makepad backend command channel is closed."@
}

/// The UI's end of the command channel, with a record of the commands that
/// the channel has accepted.
pub struct CommandSender {
    tx: UnboundedSender<HostCommand>,
    accepted: Ghost<Seq<HostCommand>>,
}

impl CommandSender {
    /// The commands that the channel has accepted through this sender, oldest
    /// first.
    pub closed spec fn sent(&self) -> Seq<HostCommand> {
        self.accepted@
    }

    /// A sender over `tx` that has sent nothing yet.
    pub fn new(tx: UnboundedSender<HostCommand>) -> (r: CommandSender)
        ensures
            r.sent() == Seq::<HostCommand>::empty(),
    {
        CommandSender { tx, accepted: Ghost(Seq::empty()) }
    }
}

/// `tokio::sync::mpsc::UnboundedSender::send`: either queues `command` on the
/// channel, or, where the receiving end is gone, hands it back inside the
/// error. Which of the two happens depends on the receiver, which nothing
/// here can see; what is stated is that an accepted command is the one given
/// and that a refused one is not recorded.
#[verifier::external_body]
fn channel_send(tx: &mut CommandSender, command: HostCommand) -> (r: Result<(), SendError<HostCommand>>)
    ensures
        r is Ok ==> final(tx).sent() == old(tx).sent().push(command),
        r is Err ==> final(tx).sent() == old(tx).sent(),
{
    tx.tx.send(command)
}

/// The answer to the UI for the outcome of a send on the channel.
pub fn send_outcome(sent: Result<(), SendError<HostCommand>>) -> (r: Result<(), String>)
    ensures
        r is Ok <==> sent is Ok,
        r matches Err(e) ==> e@ == closed_error(),
{
    match sent {
        Ok(()) => Ok(()),
        Err(_) => Err("Makepad backend command channel is closed.".to_string()),
    }
}

/// Hands `command` to the background task over the channel `tx`, which is
/// `None` until the background task has set it up.
pub fn send_command(tx: &mut Option<CommandSender>, command: HostCommand) -> (r: Result<(), String>)
    ensures
        *old(tx) is None ==> *final(tx) is None && (r matches Err(e) && e@ == not_ready_error()),
        *old(tx) is Some ==> *final(tx) is Some,
        *old(tx) is Some ==> (r is Ok <==> (*final(tx))->0.sent() == (*old(tx))->0.sent().push(command)),
        *old(tx) is Some ==> (r matches Err(e) ==> e@ == closed_error() && (*final(tx))->0.sent() == (
            *old(tx))->0.sent()),
{
    match tx {
        None => Err("Makepad backend is not ready yet.".to_string()),
        Some(sender) => {
            let ghost before = sender.sent();
            let sent = channel_send(sender, command);
            assert(before.push(command).len() != before.len());
            send_outcome(sent)
        },
    }
}

// ── Host state ────────────────────────────────────────────────────────────

/// What the host knows of one app.
pub struct AppState {
    pub content: String,
    pub last_request: Option<String>,
    pub last_response: Option<String>,
    pub request_in_flight: bool,
    /// Callers waiting for the next inference result, oldest first.
    pub pending_inference: VecDeque<oneshot::Sender<String>>,
}

pub struct AppStateView {
    pub content: Seq<char>,
    pub last_request: Option<Seq<char>>,
    pub last_response: Option<Seq<char>>,
    pub request_in_flight: bool,
    /// The callers waiting for the next inference result, oldest first.
    pub waiting: Seq<oneshot::Sender<String>>,
}

impl View for AppState {
    type V = AppStateView;

    open spec fn view(&self) -> AppStateView {
        AppStateView {
            content: self.content@,
            last_request: opt_str(self.last_request),
            last_response: opt_str(self.last_response),
            request_in_flight: self.request_in_flight,
            waiting: self.pending_inference@,
        }
    }
}

impl AppState {
    /// An app showing `content`, with no request made yet.
    pub fn new(content: String) -> (r: AppState)
        ensures
            r@ == (AppStateView {
                content: content@,
                last_request: None,
                last_response: None,
                request_in_flight: false,
                waiting: Seq::empty(),
            }),
    {
        AppState {
            content,
            last_request: None,
            last_response: None,
            request_in_flight: false,
            pending_inference: VecDeque::new(),
        }
    }
}

/// What the host's UI and its background task share.
pub struct HostState {
    /// Bumped on every change that the UI should pick up.
    pub revision: u64,
    pub pending_launches: Vec<PendingLaunch>,
    /// App ids in launch order.
    pub app_order: Vec<String>,
    /// The apps by id, each id once.
    pub apps: Vec<(String, AppState)>,
}

pub struct HostStateView {
    pub revision: u64,
    pub pending_launches: Seq<(Seq<char>, Seq<char>)>,
    pub app_order: Seq<Seq<char>>,
    pub apps: Seq<(Seq<char>, AppStateView)>,
}

impl View for HostState {
    type V = HostStateView;

    open spec fn view(&self) -> HostStateView {
        HostStateView {
            revision: self.revision,
            pending_launches: self.pending_launches@.map_values(|l: PendingLaunch| (l.id@, l.content@)),
            app_order: self.app_order@.map_values(|s: String| s@),
            apps: self.apps@.map_values(|e: (String, AppState)| (e.0@, e.1@)),
        }
    }
}

/// The revision after one more change; it wraps around after `u64::MAX`.
pub open spec fn next_revision(r: u64) -> u64 {
    if r == u64::MAX {
        0
    } else {
        (r + 1) as u64
    }
}

/// The position of the app `id`, if the host knows it.
pub open spec fn host_app_index(apps: Seq<(Seq<char>, AppStateView)>, id: Seq<char>) -> Option<nat> {
    host_app_index_from(apps, id, 0)
}

pub open spec fn host_app_index_from(apps: Seq<(Seq<char>, AppStateView)>, id: Seq<char>, i: nat) -> Option<
    nat,
>
    decreases apps.len() - i,
{
    if i >= apps.len() {
        None
    } else if apps[i as int].0 == id {
        Some(i)
    } else {
        host_app_index_from(apps, id, i + 1)
    }
}

/// What `host_app_index` finds.
pub proof fn lemma_host_app_index_props(apps: Seq<(Seq<char>, AppStateView)>, id: Seq<char>, i: nat)
    ensures
        host_app_index_from(apps, id, i) matches Some(p) ==> i <= p < apps.len() && apps[p as int].0
            == id && forall|k: int| i <= k < p ==> apps[k].0 != id,
    decreases apps.len() - i,
{
    if i < apps.len() && apps[i as int].0 != id {
        lemma_host_app_index_props(apps, id, i + 1);
    }
}

pub proof fn lemma_host_app_index_some(apps: Seq<(Seq<char>, AppStateView)>, id: Seq<char>, i: nat, p: nat)
    requires
        i <= p < apps.len(),
        apps[p as int].0 == id,
        forall|k: int| i <= k < p ==> apps[k].0 != id,
    ensures
        host_app_index_from(apps, id, i) == Some(p),
    decreases p - i,
{
    if i < p {
        lemma_host_app_index_some(apps, id, i + 1, p);
    }
}

pub proof fn lemma_host_app_index_none(apps: Seq<(Seq<char>, AppStateView)>, id: Seq<char>, i: nat)
    requires
        forall|k: int| i <= k < apps.len() ==> apps[k].0 != id,
    ensures
        host_app_index_from(apps, id, i) is None,
    decreases apps.len() - i,
{
    if i < apps.len() {
        lemma_host_app_index_none(apps, id, i + 1);
    }
}

/// The host state once `content` is requested for the app `id`: a known app
/// records the request as in flight, and the revision is bumped; an unknown
/// app changes nothing.
pub open spec fn inference_recorded(h: HostStateView, id: Seq<char>, content: Seq<char>) -> HostStateView {
    match host_app_index(h.apps, id) {
        Some(i) => HostStateView {
            revision: next_revision(h.revision),
            apps: h.apps.update(
                i as int,
                (id, AppStateView { last_request: Some(content), request_in_flight: true, ..h.apps[i as int].1 }),
            ),
            ..h
        },
        None => h,
    }
}

impl HostState {
    /// No apps, nothing pending, revision 0.
    pub fn new() -> (r: HostState)
        ensures
            r@ == (HostStateView {
                revision: 0,
                pending_launches: Seq::empty(),
                app_order: Seq::empty(),
                apps: Seq::empty(),
            }),
    {
        let r = HostState {
            revision: 0,
            pending_launches: Vec::new(),
            app_order: Vec::new(),
            apps: Vec::new(),
        };
        assert(r@.pending_launches =~= Seq::empty());
        assert(r@.app_order =~= Seq::empty());
        assert(r@.apps =~= Seq::empty());
        r
    }

    /// Marks a change for the UI.
    pub fn bump_revision(&mut self)
        ensures
            final(self)@ == (HostStateView { revision: next_revision(old(self).revision), ..old(self)@ }),
    {
        self.revision = self.revision.wrapping_add(1);
    }

    /// Records an inference request for the app `app_id`, if the host knows it.
    pub fn record_inference_request(&mut self, app_id: &String, content: &String)
        ensures
            final(self)@ == inference_recorded(old(self)@, app_id@, content@),
    {
        let ghost h = self@;
        let mut i: usize = 0;
        while i < self.apps.len()
            invariant
                self@ == h,
                h == old(self)@,
                i <= self.apps.len(),
                forall|k: int| 0 <= k < i ==> h.apps[k].0 != app_id@,
            decreases self.apps.len() - i,
        {
            if self.apps[i].0 == *app_id {
                let (id, mut app) = self.apps.remove(i);
                app.last_request = Some(content.clone());
                app.request_in_flight = true;
                self.apps.insert(i, (id, app));
                proof {
                    lemma_host_app_index_some(h.apps, app_id@, 0, i as nat);
                }
                let ghost target = inference_recorded(h, app_id@, content@);
                assert(self@.apps =~= target.apps);
                self.bump_revision();
                return;
            }
            i += 1;
        }
        proof {
            lemma_host_app_index_none(h.apps, app_id@, 0);
        }
    }
}

/// The background task's handling of a command from the UI: an inference
/// request is recorded for its app (if known) and queued; a close request is
/// queued.
pub fn handle_host_command(state: &mut HostState, doc: &mut RequestDoc, cmd: HostCommand)
    ensures
        match cmd {
            HostCommand::Inference { app_id, content } => {
                &&& final(state)@ == inference_recorded(old(state)@, app_id@, content@)
                &&& final(doc)@ == (RequestDocView {
                    requests: old(doc)@.requests.push(
                        AgentRequestView::Inference { content: content@, app_id: app_id@ },
                    ),
                    ..old(doc)@
                })
            },
            HostCommand::CloseApp(id) => {
                &&& final(state)@ == old(state)@
                &&& final(doc)@ == (RequestDocView {
                    requests: old(doc)@.requests.push(AgentRequestView::CloseApp { id: id@ }),
                    ..old(doc)@
                })
            },
        },
{
    match cmd {
        HostCommand::Inference { app_id, content } => {
            state.record_inference_request(&app_id, &content);
            doc.push_request(AgentRequest::Inference { content, app_id });
        },
        HostCommand::CloseApp(id) => {
            doc.push_request(AgentRequest::CloseApp { id });
        },
    }
}

} // verus!
