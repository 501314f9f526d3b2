//! The harness's side of the protocol: what each message from pi does to the
//! shared document, and which document changes are forwarded back to pi.
use vstd::prelude::*;

use crate::doc::{
    opt_str, opt_string_clone, opt_string_eq, str_is, AgentDoc, AgentDocView, AppStatus,
    DebugCommandView, PendingAppView, streamed,
};
use crate::text::{
    chars_of, find_from, find_from_spec, lemma_find_from_spec_props, slice_chars, string_of, trim,
    trimmed,
};

verus! {

/// A message from the pi extension to the harness.
#[derive(Clone, Debug, PartialEq)]
pub enum PiToHarnessMsg {
    Launch { app_id: String, splash_body: String },
    Clear { app_id: String },
    Debug { app_id: String, command: String, params: String },
    SendPiResponse { app_id: String, data: String },
    SendStreamingDelta { app_id: String, delta: String },
    SendStreamingEnd { app_id: String, final_text: String },
    GetDoc,
    Exit,
}

/// A message from the harness to the pi extension.
#[derive(Clone, Debug, PartialEq)]
#[allow(inconsistent_fields)]
pub enum HarnessToPiMsg {
    Welcome,
    Status { app_id: String, status: String },
    UserResponse { app_id: String, response: String },
    Error { app_id: String, message: String },
    DebugResponse { app_id: String, result: String },
    DocState {
        app_id: Option<String>,
        user_response: Option<String>,
        error_message: Option<String>,
        status: Option<String>,
        pi_response: Option<String>,
    },
}

#[allow(inconsistent_fields)]
pub enum HarnessMsgView {
    Welcome,
    Status { app_id: Seq<char>, status: Seq<char> },
    UserResponse { app_id: Seq<char>, response: Seq<char> },
    Error { app_id: Seq<char>, message: Seq<char> },
    DebugResponse { app_id: Seq<char>, result: Seq<char> },
    DocState {
        app_id: Option<Seq<char>>,
        user_response: Option<Seq<char>>,
        error_message: Option<Seq<char>>,
        status: Option<Seq<char>>,
        pi_response: Option<Seq<char>>,
    },
}

impl View for HarnessToPiMsg {
    type V = HarnessMsgView;

    open spec fn view(&self) -> HarnessMsgView {
        match self {
            HarnessToPiMsg::Welcome => HarnessMsgView::Welcome,
            HarnessToPiMsg::Status { app_id, status } => HarnessMsgView::Status {
                app_id: app_id@,
                status: status@,
            },
            HarnessToPiMsg::UserResponse { app_id, response } => HarnessMsgView::UserResponse {
                app_id: app_id@,
                response: response@,
            },
            HarnessToPiMsg::Error { app_id, message } => HarnessMsgView::Error {
                app_id: app_id@,
                message: message@,
            },
            HarnessToPiMsg::DebugResponse { app_id, result } => HarnessMsgView::DebugResponse {
                app_id: app_id@,
                result: result@,
            },
            HarnessToPiMsg::DocState {
                app_id,
                user_response,
                error_message,
                status,
                pi_response,
            } => HarnessMsgView::DocState {
                app_id: opt_str(*app_id),
                user_response: opt_str(*user_response),
                error_message: opt_str(*error_message),
                status: opt_str(*status),
                pi_response: opt_str(*pi_response),
            },
        }
    }
}

/// The views of a list of messages, in order.
pub open spec fn msgs_view(v: Seq<HarnessToPiMsg>) -> Seq<HarnessMsgView> {
    v.map_values(|m: HarnessToPiMsg| m@)
}

/// The word by which pi is told an app's status.
pub open spec fn status_label_spec(s: AppStatus) -> Seq<char> {
    match s {
        AppStatus::Pending => "Pending"@,
        AppStatus::Launched => "Launched"@,
    }
}

/// The status word of the pending app, if there is one.
pub open spec fn doc_status(d: AgentDocView) -> Option<Seq<char>> {
    match d.pending_app {
        Some(a) => Some(status_label_spec(a.status)),
        None => None,
    }
}

/// The answer to `get_doc`: the document as pi sees it.
pub open spec fn doc_state_spec(d: AgentDocView) -> HarnessMsgView {
    HarnessMsgView::DocState {
        app_id: d.app_id(),
        user_response: d.user_response,
        error_message: d.error_message,
        status: doc_status(d),
        pi_response: d.pi_response,
    }
}

/// The word by which pi is told an app's status.
pub fn status_label(s: AppStatus) -> (r: String)
    ensures
        r@ == status_label_spec(s),
{
    match s {
        AppStatus::Pending => "Pending".to_string(),
        AppStatus::Launched => "Launched".to_string(),
    }
}

/// The status word of the pending app, if there is one.
pub fn app_status_word(doc: &AgentDoc) -> (r: Option<String>)
    ensures
        opt_str(r) == doc_status(doc@),
{
    match &doc.pending_app {
        Some(a) => Some(status_label(a.status)),
        None => None,
    }
}

/// The answer to `get_doc`.
pub fn doc_state(doc: &AgentDoc) -> (r: HarnessToPiMsg)
    ensures
        r@ == doc_state_spec(doc@),
{
    HarnessToPiMsg::DocState {
        app_id: doc.app_id(),
        user_response: opt_string_clone(&doc.user_response),
        error_message: opt_string_clone(&doc.error_message),
        status: app_status_word(doc),
        pi_response: opt_string_clone(&doc.pi_response),
    }
}

/// The greeting that pi receives when it connects.
pub fn welcome() -> (r: HarnessToPiMsg)
    ensures
        r@ == HarnessMsgView::Welcome,
{
    HarnessToPiMsg::Welcome
}

// ── Messages from pi ──────────────────────────────────────────────────────

/// What the connection does after a message from pi has been applied.
pub enum PiStep {
    /// Nothing more.
    Continue,
    /// A second write follows that marks the new app `Launched`
    /// (`AgentDoc::confirm_launch`).
    ConfirmLaunch,
    /// This answer goes back to pi.
    Reply(HarnessToPiMsg),
    /// The connection ends.
    Disconnect,
}

/// Debug commands that act on the app, whose effect shows in the next
/// `user_response` rather than in the current one.
pub open spec fn is_interactive_spec(command: Seq<char>) -> bool {
    command == "click"@ || command == "type_text"@
}

/// Whether the message is an interactive debug command; the harness then
/// skips the document change that the command itself causes.
pub fn raises_interaction(msg: &PiToHarnessMsg) -> (r: bool)
    ensures
        r == (msg matches PiToHarnessMsg::Debug { command, .. } && is_interactive_spec(command@)),
{
    match msg {
        PiToHarnessMsg::Debug { command, .. } => str_is(command.as_str(), "click") || str_is(
            command.as_str(),
            "type_text",
        ),
        _ => false,
    }
}

/// The document after the write that a message from pi makes.
pub open spec fn pi_write_spec(d: AgentDocView, msg: PiToHarnessMsg) -> AgentDocView {
    match msg {
        PiToHarnessMsg::Launch { app_id, splash_body } => AgentDocView {
            pending_app: Some(
                PendingAppView { id: app_id@, splash_body: splash_body@, status: AppStatus::Pending },
            ),
            user_response: None,
            error_message: None,
            extension_requests: true,
            ..d
        },
        PiToHarnessMsg::Debug { command, params, .. } => AgentDocView {
            debug_response: None,
            debug_command: Some(DebugCommandView { command: command@, params: params@ }),
            ..d
        },
        PiToHarnessMsg::GetDoc => d,
        PiToHarnessMsg::SendStreamingDelta { delta, .. } => AgentDocView {
            streaming_text: Some(streamed(d.streaming_text, delta@)),
            extension_requests: true,
            ..d
        },
        PiToHarnessMsg::SendStreamingEnd { final_text, .. } => AgentDocView {
            pi_response: Some(final_text@),
            streaming_text: None,
            extension_requests: true,
            ..d
        },
        PiToHarnessMsg::SendPiResponse { data, .. } => AgentDocView {
            pi_response: Some(data@),
            streaming_text: None,
            extension_requests: true,
            ..d
        },
        PiToHarnessMsg::Clear { .. } => AgentDocView {
            pending_app: None,
            extension_requests: true,
            ..d
        },
        PiToHarnessMsg::Exit => AgentDocView { should_exit: true, ..d },
    }
}

/// Applies a message from pi to the shared document.
pub fn apply_pi_message(doc: &mut AgentDoc, msg: PiToHarnessMsg) -> (step: PiStep)
    ensures
        final(doc)@ == pi_write_spec(old(doc)@, msg),
        msg is Launch <==> step is ConfirmLaunch,
        msg is Exit <==> step is Disconnect,
        msg is GetDoc <==> step is Reply,
        step matches PiStep::Reply(m) ==> m@ == doc_state_spec(old(doc)@),
{
    match msg {
        PiToHarnessMsg::Launch { app_id, splash_body } => {
            doc.start_launch(app_id, splash_body);
            PiStep::ConfirmLaunch
        },
        PiToHarnessMsg::Debug { app_id: _, command, params } => {
            doc.set_debug_command(command, params);
            PiStep::Continue
        },
        PiToHarnessMsg::GetDoc => PiStep::Reply(doc_state(doc)),
        PiToHarnessMsg::SendStreamingDelta { app_id: _, delta } => {
            doc.append_streaming_text(delta);
            PiStep::Continue
        },
        PiToHarnessMsg::SendStreamingEnd { app_id: _, final_text } => {
            doc.deliver_pi_response(final_text);
            PiStep::Continue
        },
        PiToHarnessMsg::SendPiResponse { app_id: _, data } => {
            doc.deliver_pi_response(data);
            PiStep::Continue
        },
        PiToHarnessMsg::Clear { app_id: _ } => {
            doc.clear_app();
            PiStep::Continue
        },
        PiToHarnessMsg::Exit => {
            doc.request_exit();
            PiStep::Disconnect
        },
    }
}

// ── Document changes to pi ────────────────────────────────────────────────

/// What the harness last forwarded to pi, so that nothing is sent twice.
pub struct BridgeTracker {
    pub last_user_response_version: u64,
    pub last_error_message: Option<String>,
    pub last_status: Option<String>,
    pub last_status_app_id: Option<String>,
}

pub struct BridgeTrackerView {
    pub last_user_response_version: u64,
    pub last_error_message: Option<Seq<char>>,
    pub last_status: Option<Seq<char>>,
    pub last_status_app_id: Option<Seq<char>>,
}

impl View for BridgeTracker {
    type V = BridgeTrackerView;

    open spec fn view(&self) -> BridgeTrackerView {
        BridgeTrackerView {
            last_user_response_version: self.last_user_response_version,
            last_error_message: opt_str(self.last_error_message),
            last_status: opt_str(self.last_status),
            last_status_app_id: opt_str(self.last_status_app_id),
        }
    }
}

/// What one look at the document gives.
pub struct BridgeStep {
    /// Messages for pi, in order.
    pub messages: Vec<HarnessToPiMsg>,
    /// The debug answer was forwarded and is to be cleared from the document.
    pub clear_debug_response: bool,
    /// The document asks the harness to stop.
    pub exit: bool,
}

/// A new user response (by version) of the pending app.
pub open spec fn user_response_msgs(t: BridgeTrackerView, d: AgentDocView) -> Seq<HarnessMsgView> {
    if d.user_response_version != 0 && d.user_response_version != t.last_user_response_version
        && d.user_response is Some && d.app_id() is Some {
        seq![
            HarnessMsgView::UserResponse {
                app_id: d.app_id()->0,
                response: d.user_response->0,
            },
        ]
    } else {
        seq![]
    }
}

/// A debug answer of the pending app.
pub open spec fn debug_response_msgs(d: AgentDocView) -> Seq<HarnessMsgView> {
    if d.debug_response is Some && d.app_id() is Some {
        seq![
            HarnessMsgView::DebugResponse { app_id: d.app_id()->0, result: d.debug_response->0 },
        ]
    } else {
        seq![]
    }
}

/// A changed status (or a changed app) of the pending app.
pub open spec fn status_msgs(t: BridgeTrackerView, d: AgentDocView) -> Seq<HarnessMsgView> {
    if (doc_status(d) != t.last_status || d.app_id() != t.last_status_app_id) && d.app_id() is Some {
        seq![HarnessMsgView::Status { app_id: d.app_id()->0, status: doc_status(d)->0 }]
    } else {
        seq![]
    }
}

/// A changed error message of the pending app.
pub open spec fn error_msgs(t: BridgeTrackerView, d: AgentDocView) -> Seq<HarnessMsgView> {
    if d.error_message != t.last_error_message && d.error_message is Some && d.app_id() is Some {
        seq![HarnessMsgView::Error { app_id: d.app_id()->0, message: d.error_message->0 }]
    } else {
        seq![]
    }
}

/// Everything that a look at the document forwards, in order.
pub open spec fn bridge_msgs(t: BridgeTrackerView, d: AgentDocView) -> Seq<HarnessMsgView> {
    user_response_msgs(t, d) + debug_response_msgs(d) + status_msgs(t, d) + error_msgs(t, d)
}

/// What the harness remembers after a look at the document.
pub open spec fn bridge_next(t: BridgeTrackerView, d: AgentDocView) -> BridgeTrackerView {
    BridgeTrackerView {
        last_user_response_version: if d.user_response_version != 0 {
            d.user_response_version
        } else {
            t.last_user_response_version
        },
        last_error_message: d.error_message,
        last_status: doc_status(d),
        last_status_app_id: d.app_id(),
    }
}

impl BridgeTracker {
    /// Nothing forwarded yet.
    pub fn new() -> (r: BridgeTracker)
        ensures
            r@ == (BridgeTrackerView {
                last_user_response_version: 0,
                last_error_message: None,
                last_status: None,
                last_status_app_id: None,
            }),
    {
        BridgeTracker {
            last_user_response_version: 0,
            last_error_message: None,
            last_status: None,
            last_status_app_id: None,
        }
    }

    /// One look at the document after it changed. Where pi has just sent an
    /// interactive debug command, the change is the command's own write and
    /// is skipped whole: nothing is forwarded and nothing is remembered.
    pub fn step(&mut self, doc: &AgentDoc, interaction_pending: bool) -> (r: BridgeStep)
        ensures
            interaction_pending ==> final(self)@ == old(self)@ && r.messages@.len() == 0
                && !r.clear_debug_response && !r.exit,
            !interaction_pending ==> {
                &&& final(self)@ == bridge_next(old(self)@, doc@)
                &&& msgs_view(r.messages@) == bridge_msgs(old(self)@, doc@)
                &&& r.clear_debug_response == (doc@.debug_response is Some && doc@.app_id() is Some)
                &&& r.exit == doc@.should_exit
            },
    {
        let mut messages: Vec<HarnessToPiMsg> = Vec::new();
        if interaction_pending {
            return BridgeStep { messages, clear_debug_response: false, exit: false };
        }
        let ghost t = self@;
        let ghost d = doc@;
        let app_id = doc.app_id();
        let status = app_status_word(doc);
        let version = doc.user_response_version;

        if version != 0 && version != self.last_user_response_version {
            match (&doc.user_response, &app_id) {
                (Some(response), Some(id)) => {
                    messages.push(
                        HarnessToPiMsg::UserResponse { app_id: id.clone(), response: response.clone() },
                    );
                },
                _ => {},
            }
            self.last_user_response_version = version;
        }
        assert(msgs_view(messages@) =~= user_response_msgs(t, d));
        let ghost m1 = messages@;

        let mut clear_debug_response = false;
        match (&doc.debug_response, &app_id) {
            (Some(result), Some(id)) => {
                messages.push(
                    HarnessToPiMsg::DebugResponse { app_id: id.clone(), result: result.clone() },
                );
                clear_debug_response = true;
            },
            _ => {},
        }
        assert(msgs_view(messages@) =~= user_response_msgs(t, d) + debug_response_msgs(d)) by {
            assert(msgs_view(m1) == user_response_msgs(t, d));
        }
        let ghost m2 = messages@;

        if !opt_string_eq(&status, &self.last_status) || !opt_string_eq(
            &app_id,
            &self.last_status_app_id,
        ) {
            match (&app_id, &status) {
                (Some(id), Some(st)) => {
                    messages.push(HarnessToPiMsg::Status { app_id: id.clone(), status: st.clone() });
                },
                _ => {},
            }
        }
        self.last_status = status;
        self.last_status_app_id = opt_string_clone(&app_id);
        assert(msgs_view(messages@) =~= user_response_msgs(t, d) + debug_response_msgs(d)
            + status_msgs(t, d)) by {
            assert(msgs_view(m2) == user_response_msgs(t, d) + debug_response_msgs(d));
        }
        let ghost m3 = messages@;

        if !opt_string_eq(&doc.error_message, &self.last_error_message) {
            match (&doc.error_message, &app_id) {
                (Some(text), Some(id)) => {
                    messages.push(HarnessToPiMsg::Error { app_id: id.clone(), message: text.clone() });
                },
                _ => {},
            }
        }
        self.last_error_message = opt_string_clone(&doc.error_message);
        assert(msgs_view(messages@) =~= bridge_msgs(t, d)) by {
            assert(msgs_view(m3) == user_response_msgs(t, d) + debug_response_msgs(d) + status_msgs(
                t,
                d,
            ));
        }
        BridgeStep { messages, clear_debug_response, exit: doc.should_exit }
    }
}

// ── Stale processes on the pi port ────────────────────────────────────────

/// A trimmed line, kept where it is not empty.
pub open spec fn kept_line(t: Seq<char>) -> Seq<Seq<char>> {
    if trimmed(t).len() > 0 {
        seq![trimmed(t)]
    } else {
        Seq::empty()
    }
}

/// The non-empty trimmed lines of `s` from `start` on.
pub open spec fn listed_lines_from(s: Seq<char>, start: nat) -> Seq<Seq<char>>
    decreases s.len() + 1 - start,
{
    if start > s.len() {
        Seq::empty()
    } else {
        match find_from_spec(s, seq!['\n'], start) {
            None => kept_line(s.subrange(start as int, s.len() as int)),
            Some(i) => {
                proof {
                    lemma_find_from_spec_props(s, seq!['\n'], start);
                }
                kept_line(s.subrange(start as int, i as int)) + listed_lines_from(s, i + 1)
            },
        }
    }
}

/// The process ids in the output of `lsof -t`: one per line, trimmed, blank
/// lines skipped.
pub open spec fn listed_pids_spec(output: Seq<char>) -> Seq<Seq<char>> {
    listed_lines_from(output, 0)
}

/// The process ids in the output of `lsof -t`.
pub fn listed_pids(output: &str) -> (r: Vec<String>)
    ensures
        r@.map_values(|p: String| p@) == listed_pids_spec(output@),
{
    let s = chars_of(output);
    let nl = vec!['\n'];
    assert(nl@ =~= seq!['\n']);
    let mut out: Vec<String> = Vec::new();
    let mut start: usize = 0;
    loop
        invariant
            s@ == output@,
            nl@ == seq!['\n'],
            start <= s.len(),
            out@.map_values(|p: String| p@) + listed_lines_from(s@, start as nat) == listed_pids_spec(output@),
        decreases s.len() - start,
    {
        proof {
            lemma_find_from_spec_props(s@, seq!['\n'], start as nat);
        }
        let ghost before = out@;
        match find_from(s.as_slice(), nl.as_slice(), start) {
            None => {
                let line = trim(slice_chars(s.as_slice(), start, s.len()).as_slice());
                if line.len() > 0 {
                    out.push(string_of(line.as_slice()));
                }
                assert(out@.map_values(|p: String| p@) =~= before.map_values(|p: String| p@) + listed_lines_from(s@, start as nat));
                return out;
            },
            Some(i) => {
                let line = trim(slice_chars(s.as_slice(), start, i).as_slice());
                if line.len() > 0 {
                    out.push(string_of(line.as_slice()));
                }
                assert(out@.map_values(|p: String| p@) + listed_lines_from(s@, (i + 1) as nat) =~= before.map_values(|p: String| p@) + listed_lines_from(s@, start as nat));
                start = i + 1;
            },
        }
    }
}

} // verus!
