//! The shared agent document that the harness and the host keep in sync,
//! and the writes that each side makes to it.
use vstd::prelude::*;

use crate::text::{chars_eq, chars_of, join2};

verus! {

/// JSON WebSocket port: pi extension to harness (plain JSON, no CRDT).
pub const JSON_WS_PORT: u16 = 2341;

/// samod WebSocket port: harness to makepad-host (CRDT sync between Rust processes).
pub const SAMOD_WS_PORT: u16 = 2342;

/// Where the app that the pi extension asked for stands.
#[derive(Clone, Copy, Debug, PartialEq, Eq, Structural)]
pub enum AppStatus {
    Pending,
    Launched,
}

/// A debug command from pi to the makepad-host.
#[derive(Clone, Debug, PartialEq)]
pub struct DebugCommand {
    /// The type of debug command: "widget_dump", "widget_snapshot",
    /// "widget_query", "click", "type_text".
    pub command: String,
    /// JSON-encoded parameters (varies by command).
    pub params: String,
}

/// The single app that the pi extension wants launched.
#[derive(Clone, Debug, PartialEq)]
pub struct PendingApp {
    pub id: String,
    pub splash_body: String,
    pub status: AppStatus,
}

/// The document shared by the harness and the host.
#[derive(Clone, Debug, PartialEq)]
pub struct AgentDoc {
    /// The single app that the pi extension wants launched; `None`: no app running.
    pub pending_app: Option<PendingApp>,
    /// Set whenever the pi extension makes a change.
    pub extension_requests: bool,
    /// Set by pi to request a graceful shutdown.
    pub should_exit: bool,
    /// Payload sent by the rendered splash app back to the pi extension.
    pub user_response: Option<String>,
    /// Incremented by the host on each write of `user_response`, so that the
    /// harness can tell a re-sent equal value from no change.
    pub user_response_version: u64,
    /// Set by the host when the splash body fails to evaluate.
    pub error_message: Option<String>,
    /// Debug command from pi to the host; cleared by the host once processed.
    pub debug_command: Option<DebugCommand>,
    /// The host's answer to a debug command; cleared by the harness once forwarded.
    pub debug_response: Option<String>,
    /// Data sent from pi to the splash app; cleared by the host once shown.
    pub pi_response: Option<String>,
    /// Streaming text of a sub-agent answer, replaced as it grows.
    pub streaming_text: Option<String>,
    /// Backtrace of a panic in the host.
    pub panic_backtrace: Option<String>,
}

// ── Views ─────────────────────────────────────────────────────────────────

pub struct DebugCommandView {
    pub command: Seq<char>,
    pub params: Seq<char>,
}

pub struct PendingAppView {
    pub id: Seq<char>,
    pub splash_body: Seq<char>,
    pub status: AppStatus,
}

pub struct AgentDocView {
    pub pending_app: Option<PendingAppView>,
    pub extension_requests: bool,
    pub should_exit: bool,
    pub user_response: Option<Seq<char>>,
    pub user_response_version: u64,
    pub error_message: Option<Seq<char>>,
    pub debug_command: Option<DebugCommandView>,
    pub debug_response: Option<Seq<char>>,
    pub pi_response: Option<Seq<char>>,
    pub streaming_text: Option<Seq<char>>,
    pub panic_backtrace: Option<Seq<char>>,
}

impl View for DebugCommand {
    type V = DebugCommandView;

    open spec fn view(&self) -> DebugCommandView {
        DebugCommandView { command: self.command@, params: self.params@ }
    }
}

impl View for PendingApp {
    type V = PendingAppView;

    open spec fn view(&self) -> PendingAppView {
        PendingAppView { id: self.id@, splash_body: self.splash_body@, status: self.status }
    }
}

/// The view of an optional string.
pub open spec fn opt_str(o: Option<String>) -> Option<Seq<char>> {
    match o {
        Some(s) => Some(s@),
        None => None,
    }
}

/// The streaming text once `delta` is appended to `text`.
pub open spec fn streamed(text: Option<Seq<char>>, delta: Seq<char>) -> Seq<char> {
    match text {
        Some(t) => t + delta,
        None => delta,
    }
}

impl View for AgentDoc {
    type V = AgentDocView;

    open spec fn view(&self) -> AgentDocView {
        AgentDocView {
            pending_app: match self.pending_app {
                Some(a) => Some(a@),
                None => None,
            },
            extension_requests: self.extension_requests,
            should_exit: self.should_exit,
            user_response: opt_str(self.user_response),
            user_response_version: self.user_response_version,
            error_message: opt_str(self.error_message),
            debug_command: match self.debug_command {
                Some(c) => Some(c@),
                None => None,
            },
            debug_response: opt_str(self.debug_response),
            pi_response: opt_str(self.pi_response),
            streaming_text: opt_str(self.streaming_text),
            panic_backtrace: opt_str(self.panic_backtrace),
        }
    }
}

impl AgentDocView {
    /// The document as `Default` makes it: no app, no flags, nothing pending.
    pub open spec fn empty() -> AgentDocView {
        AgentDocView {
            pending_app: None,
            extension_requests: false,
            should_exit: false,
            user_response: None,
            user_response_version: 0,
            error_message: None,
            debug_command: None,
            debug_response: None,
            pi_response: None,
            streaming_text: None,
            panic_backtrace: None,
        }
    }

    /// The id of the pending app, if there is one.
    pub open spec fn app_id(self) -> Option<Seq<char>> {
        match self.pending_app {
            Some(a) => Some(a.id),
            None => None,
        }
    }

    /// The harness's reset at start-up: everything that a session reads is cleared.
    pub open spec fn session_reset(self) -> AgentDocView {
        AgentDocView {
            pending_app: None,
            extension_requests: false,
            should_exit: false,
            user_response: None,
            error_message: None,
            debug_command: None,
            debug_response: None,
            ..self
        }
    }

    /// The document after the host writes `value` into the field named `field`.
    pub open spec fn field_written(self, field: Seq<char>, value: Seq<char>) -> AgentDocView {
        if field == "user_response"@ {
            AgentDocView {
                user_response: Some(value),
                user_response_version: (self.user_response_version + 1) as u64,
                ..self
            }
        } else if field == "error_message"@ {
            AgentDocView { error_message: Some(value), ..self }
        } else if field == "pi_response"@ {
            AgentDocView { pi_response: Some(value), ..self }
        } else {
            self
        }
    }

    /// The document once the host has answered its debug command with `result`.
    pub open spec fn debug_finished(self, result: Option<Seq<char>>) -> AgentDocView {
        AgentDocView {
            debug_response: match result {
                Some(r) => Some(r),
                None => self.debug_response,
            },
            debug_command: None,
            ..self
        }
    }

    /// The pending app, if any, with its status advanced to `Launched`.
    pub open spec fn launched(self) -> AgentDocView {
        AgentDocView {
            pending_app: match self.pending_app {
                Some(a) => Some(PendingAppView { status: AppStatus::Launched, ..a }),
                None => None,
            },
            ..self
        }
    }
}

impl Default for AgentDoc {
    fn default() -> (r: AgentDoc)
        ensures
            r@ == AgentDocView::empty(),
    {
        AgentDoc {
            pending_app: None,
            extension_requests: false,
            should_exit: false,
            user_response: None,
            user_response_version: 0,
            error_message: None,
            debug_command: None,
            debug_response: None,
            pi_response: None,
            streaming_text: None,
            panic_backtrace: None,
        }
    }
}

/// Compares two optional strings by their contents.
pub fn opt_string_eq(a: &Option<String>, b: &Option<String>) -> (r: bool)
    ensures
        r == (opt_str(*a) == opt_str(*b)),
{
    match (a, b) {
        (Some(x), Some(y)) => *x == *y,
        (None, None) => true,
        _ => false,
    }
}

/// A copy of an optional string.
pub fn opt_string_clone(a: &Option<String>) -> (r: Option<String>)
    ensures
        opt_str(r) == opt_str(*a),
{
    match a {
        Some(x) => Some(x.clone()),
        None => None,
    }
}

/// Whether the string `s` reads `lit`.
pub fn str_is(s: &str, lit: &str) -> (r: bool)
    ensures
        r == (s@ == lit@),
{
    let a = chars_of(s);
    let b = chars_of(lit);
    chars_eq(a.as_slice(), b.as_slice())
}

impl AgentDoc {
    /// The id of the pending app, if there is one.
    pub fn app_id(&self) -> (r: Option<String>)
        ensures
            opt_str(r) == self@.app_id(),
    {
        match &self.pending_app {
            Some(a) => Some(a.id.clone()),
            None => None,
        }
    }

    /// Clears every field that a session reads, as the harness does on start-up
    /// so that a fresh document is in a known state.
    pub fn reset_session(&mut self)
        ensures
            final(self)@ == old(self)@.session_reset(),
    {
        self.pending_app = None;
        self.extension_requests = false;
        self.should_exit = false;
        self.user_response = None;
        self.error_message = None;
        self.debug_command = None;
        self.debug_response = None;
    }

    /// First write of a launch: the app is recorded as `Pending`, stale
    /// responses and errors are cleared, and the extension flag is raised.
    pub fn start_launch(&mut self, app_id: String, splash_body: String)
        ensures
            final(self)@ == (AgentDocView {
                pending_app: Some(
                    PendingAppView { id: app_id@, splash_body: splash_body@, status: AppStatus::Pending },
                ),
                user_response: None,
                error_message: None,
                extension_requests: true,
                ..old(self)@
            }),
    {
        self.user_response = None;
        self.error_message = None;
        self.pending_app = Some(PendingApp { id: app_id, splash_body, status: AppStatus::Pending });
        self.extension_requests = true;
    }

    /// Whether the pending app still waits to be marked `Launched`.
    pub fn awaits_launch(&self) -> (r: bool)
        ensures
            r == (self@.pending_app matches Some(a) && a.status == AppStatus::Pending),
    {
        match &self.pending_app {
            Some(a) => a.status == AppStatus::Pending,
            None => false,
        }
    }

    /// Marks the pending app, if any, as `Launched`.
    pub fn confirm_launch(&mut self)
        ensures
            final(self)@ == old(self)@.launched(),
    {
        match &mut self.pending_app {
            Some(app) => {
                app.status = AppStatus::Launched;
            },
            None => {},
        }
    }

    /// Hands a debug command to the host, dropping any stale answer.
    pub fn set_debug_command(&mut self, command: String, params: String)
        ensures
            final(self)@ == (AgentDocView {
                debug_response: None,
                debug_command: Some(DebugCommandView { command: command@, params: params@ }),
                ..old(self)@
            }),
    {
        self.debug_response = None;
        self.debug_command = Some(DebugCommand { command, params });
    }

    /// Appends a streaming delta to the streaming text (an absent text counts
    /// as empty).
    pub fn append_streaming_text(&mut self, delta: String)
        ensures
            final(self)@ == (AgentDocView {
                streaming_text: Some(streamed(old(self)@.streaming_text, delta@)),
                extension_requests: true,
                ..old(self)@
            }),
    {
        let text = match &self.streaming_text {
            Some(t) => join2(t.as_str(), delta.as_str()),
            None => delta,
        };
        self.streaming_text = Some(text);
        self.extension_requests = true;
    }

    /// Delivers data from pi to the splash app; it supersedes any streaming text.
    pub fn deliver_pi_response(&mut self, data: String)
        ensures
            final(self)@ == (AgentDocView {
                pi_response: Some(data@),
                streaming_text: None,
                extension_requests: true,
                ..old(self)@
            }),
    {
        self.pi_response = Some(data);
        self.streaming_text = None;
        self.extension_requests = true;
    }

    /// Removes the pending app.
    pub fn clear_app(&mut self)
        ensures
            final(self)@ == (AgentDocView { pending_app: None, extension_requests: true, ..old(self)@ }),
    {
        self.pending_app = None;
        self.extension_requests = true;
    }

    /// Asks both sides to shut down.
    pub fn request_exit(&mut self)
        ensures
            final(self)@ == (AgentDocView { should_exit: true, ..old(self)@ }),
    {
        self.should_exit = true;
    }

    /// Drops the debug answer once the harness has forwarded it.
    pub fn clear_debug_response(&mut self)
        ensures
            final(self)@ == (AgentDocView { debug_response: None, ..old(self)@ }),
    {
        self.debug_response = None;
    }

    /// Drops the error message (the host does so when no app is shown).
    pub fn clear_error_message(&mut self)
        ensures
            final(self)@ == (AgentDocView { error_message: None, ..old(self)@ }),
    {
        if self.error_message.is_some() {
            self.error_message = None;
        }
    }

    /// Drops the data from pi once the splash app has shown it.
    pub fn clear_pi_response(&mut self)
        ensures
            final(self)@ == (AgentDocView { pi_response: None, ..old(self)@ }),
    {
        self.pi_response = None;
    }

    /// The host's answer to the debug command: the answer, if any, is stored
    /// and the command is cleared so that it is not processed again.
    pub fn finish_debug_command(&mut self, result: Option<String>)
        ensures
            final(self)@ == old(self)@.debug_finished(opt_str(result)),
    {
        match result {
            Some(json) => {
                self.debug_response = Some(json);
            },
            None => {},
        }
        self.debug_command = None;
    }

    /// The host's write of a named field: `user_response` (which also bumps
    /// its version), `error_message` or `pi_response`; any other name writes
    /// nothing.
    pub fn write_doc_field(&mut self, field: &str, value: String)
        requires
            field@ == "user_response"@ ==> old(self).user_response_version < u64::MAX,
        ensures
            final(self)@ == old(self)@.field_written(field@, value@),
    {
        if str_is(field, "user_response") {
            self.user_response = Some(value);
            self.user_response_version = self.user_response_version + 1;
        } else if str_is(field, "error_message") {
            self.error_message = Some(value);
        } else if str_is(field, "pi_response") {
            self.pi_response = Some(value);
        }
    }
}

} // verus!
