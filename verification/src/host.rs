//! The host's side of the protocol: when a document change is worth waking
//! the UI for, which UI changes a document state calls for, and what a
//! debug command asks of the host.
use vstd::prelude::*;

use crate::doc::{opt_str, opt_string_clone, opt_string_eq, str_is, AgentDoc, AgentDocView, DebugCommand};
use crate::text::{join2, join3, trim_str, trimmed};

verus! {

// ── Waking the UI ─────────────────────────────────────────────────────────

/// The last values of the fields that the harness writes, as the host saw them.
pub struct HostWatch {
    pub last_pending_id: Option<String>,
    pub last_debug_cmd: Option<String>,
    pub last_pi_response: Option<String>,
    pub last_streaming_text: Option<String>,
}

pub struct HostWatchView {
    pub last_pending_id: Option<Seq<char>>,
    pub last_debug_cmd: Option<Seq<char>>,
    pub last_pi_response: Option<Seq<char>>,
    pub last_streaming_text: Option<Seq<char>>,
}

impl View for HostWatch {
    type V = HostWatchView;

    open spec fn view(&self) -> HostWatchView {
        HostWatchView {
            last_pending_id: opt_str(self.last_pending_id),
            last_debug_cmd: opt_str(self.last_debug_cmd),
            last_pi_response: opt_str(self.last_pi_response),
            last_streaming_text: opt_str(self.last_streaming_text),
        }
    }
}

/// What one look at the document asks of the host.
pub struct WatchStep {
    /// Wake the UI thread.
    pub signal: bool,
    /// Hand this streaming text to the UI thread at once.
    pub delta: Option<String>,
    /// The document asks the host to stop.
    pub exit: bool,
}

/// The command name of the pending debug command, if any.
pub open spec fn doc_debug_cmd(d: AgentDocView) -> Option<Seq<char>> {
    match d.debug_command {
        Some(c) => Some(c.command),
        None => None,
    }
}

/// A value is new when it is present and differs from the last one seen;
/// a change to `None` (the host clearing the field itself) is not.
pub open spec fn is_fresh(current: Option<Seq<char>>, last: Option<Seq<char>>) -> bool {
    current is Some && current != last
}

/// Whether the document state calls for waking the UI.
pub open spec fn watch_signal(w: HostWatchView, d: AgentDocView) -> bool {
    ||| d.should_exit
    ||| is_fresh(d.app_id(), w.last_pending_id)
    ||| is_fresh(doc_debug_cmd(d), w.last_debug_cmd)
    ||| is_fresh(d.pi_response, w.last_pi_response)
    ||| is_fresh(d.streaming_text, w.last_streaming_text)
}

/// The streaming text to hand over: a changed, non-empty one.
pub open spec fn watch_delta(w: HostWatchView, d: AgentDocView) -> Option<Seq<char>> {
    if d.streaming_text != w.last_streaming_text && d.streaming_text is Some
        && d.streaming_text->0.len() > 0 {
        d.streaming_text
    } else {
        None
    }
}

/// What the host remembers after a look at the document.
pub open spec fn watch_next(d: AgentDocView) -> HostWatchView {
    HostWatchView {
        last_pending_id: d.app_id(),
        last_debug_cmd: doc_debug_cmd(d),
        last_pi_response: d.pi_response,
        last_streaming_text: d.streaming_text,
    }
}

impl HostWatch {
    /// Nothing seen yet.
    pub fn new() -> (r: HostWatch)
        ensures
            r@ == (HostWatchView {
                last_pending_id: None,
                last_debug_cmd: None,
                last_pi_response: None,
                last_streaming_text: None,
            }),
    {
        HostWatch {
            last_pending_id: None,
            last_debug_cmd: None,
            last_pi_response: None,
            last_streaming_text: None,
        }
    }

    /// One look at the document, after a change or a poll.
    pub fn observe(&mut self, doc: &AgentDoc) -> (r: WatchStep)
        ensures
            r.signal == watch_signal(old(self)@, doc@),
            opt_str(r.delta) == watch_delta(old(self)@, doc@),
            r.exit == doc@.should_exit,
            final(self)@ == watch_next(doc@),
    {
        let current_id = doc.app_id();
        let current_cmd = match &doc.debug_command {
            Some(c) => Some(c.command.clone()),
            None => None,
        };
        let pi_resp = opt_string_clone(&doc.pi_response);
        let streaming = opt_string_clone(&doc.streaming_text);
        let should_exit = doc.should_exit;

        let signal = should_exit || (current_id.is_some() && !opt_string_eq(
            &current_id,
            &self.last_pending_id,
        )) || (current_cmd.is_some() && !opt_string_eq(&current_cmd, &self.last_debug_cmd)) || (
        pi_resp.is_some() && !opt_string_eq(&pi_resp, &self.last_pi_response)) || (
        streaming.is_some() && !opt_string_eq(&streaming, &self.last_streaming_text));

        let mut delta: Option<String> = None;
        if !opt_string_eq(&streaming, &self.last_streaming_text) {
            match &streaming {
                Some(text) => {
                    if text.as_str().unicode_len() > 0 {
                        delta = Some(text.clone());
                    }
                },
                None => {},
            }
        }
        self.last_pending_id = current_id;
        self.last_debug_cmd = current_cmd;
        self.last_pi_response = pi_resp;
        self.last_streaming_text = streaming;
        WatchStep { signal, delta, exit: should_exit }
    }
}

// ── UI updates from the document ──────────────────────────────────────────

/// UI changes noted on a wake-up and applied on the next draw.
pub struct PendingUiUpdate {
    pub splash_body: Option<String>,
    pub source_body: Option<String>,
    pub status: Option<String>,
    pub error_msg: Option<String>,
    pub should_exit: bool,
}

pub struct PendingUiUpdateView {
    pub splash_body: Option<Seq<char>>,
    pub source_body: Option<Seq<char>>,
    pub status: Option<Seq<char>>,
    pub error_msg: Option<Seq<char>>,
    pub should_exit: bool,
}

impl View for PendingUiUpdate {
    type V = PendingUiUpdateView;

    open spec fn view(&self) -> PendingUiUpdateView {
        PendingUiUpdateView {
            splash_body: opt_str(self.splash_body),
            source_body: opt_str(self.source_body),
            status: opt_str(self.status),
            error_msg: opt_str(self.error_msg),
            should_exit: self.should_exit,
        }
    }
}

/// What the host's UI last showed of the document.
pub struct HostView {
    pub last_app_id: String,
    pub last_splash_body: String,
    pub last_error_msg: String,
}

pub struct HostViewView {
    pub last_app_id: Seq<char>,
    pub last_splash_body: Seq<char>,
    pub last_error_msg: Seq<char>,
}

impl View for HostView {
    type V = HostViewView;

    open spec fn view(&self) -> HostViewView {
        HostViewView {
            last_app_id: self.last_app_id@,
            last_splash_body: self.last_splash_body@,
            last_error_msg: self.last_error_msg@,
        }
    }
}

/// What the host does with a document state.
pub struct SyncStep {
    /// The document asks the host to stop.
    pub exit: bool,
    /// UI changes to apply on the next draw.
    pub update: Option<PendingUiUpdate>,
    /// Clear `error_message` in the document (`AgentDoc::clear_error_message`).
    pub clear_error: bool,
    /// Mark the app `Launched` in the document if it is still `Pending`.
    pub confirm_launch: bool,
}

/// The status line shown while no app is launched.
pub open spec fn waiting_status() -> Seq<char> {
    "Waiting for app launch\u{2026}"@
}

/// The id of the pending app, empty where there is none.
pub open spec fn shown_app_id(d: AgentDocView) -> Seq<char> {
    match d.pending_app {
        Some(a) => a.id,
        None => Seq::empty(),
    }
}

/// The splash body of the pending app, empty where there is none.
pub open spec fn shown_body(d: AgentDocView) -> Seq<char> {
    match d.pending_app {
        Some(a) => a.splash_body,
        None => Seq::empty(),
    }
}

/// The error line: the message behind a warning sign, or empty.
pub open spec fn error_line(d: AgentDocView) -> Seq<char> {
    match d.error_message {
        Some(e) => "\u{26a0} "@ + e,
        None => Seq::empty(),
    }
}

/// The document shows no app at all.
pub open spec fn shows_no_app(d: AgentDocView) -> bool {
    shown_body(d).len() == 0 && shown_app_id(d).len() == 0
}

/// The app shown differs from the one last shown.
pub open spec fn app_changed(v: HostViewView, d: AgentDocView) -> bool {
    shown_body(d) != v.last_splash_body || shown_app_id(d) != v.last_app_id
}

/// Nothing that the UI shows has changed.
pub open spec fn unchanged(v: HostViewView, d: AgentDocView) -> bool {
    !app_changed(v, d) && error_line(d) == v.last_error_msg
}

/// The UI changes that a document state calls for, if any.
pub open spec fn sync_update(v: HostViewView, d: AgentDocView) -> Option<PendingUiUpdateView> {
    if d.should_exit {
        None
    } else if shows_no_app(d) {
        Some(
            PendingUiUpdateView {
                splash_body: Some(Seq::empty()),
                source_body: Some(Seq::empty()),
                status: Some(waiting_status()),
                error_msg: None,
                should_exit: false,
            },
        )
    } else if unchanged(v, d) {
        None
    } else if app_changed(v, d) {
        Some(
            PendingUiUpdateView {
                splash_body: Some(shown_body(d)),
                source_body: Some(shown_body(d)),
                status: Some("App: "@ + shown_app_id(d)),
                error_msg: Some(error_line(d)),
                should_exit: false,
            },
        )
    } else {
        Some(
            PendingUiUpdateView {
                splash_body: None,
                source_body: None,
                status: None,
                error_msg: Some(error_line(d)),
                should_exit: false,
            },
        )
    }
}

/// Whether the host marks the pending app `Launched` after a document state.
pub open spec fn confirms_launch(v: HostViewView, d: AgentDocView) -> bool {
    !d.should_exit && !shows_no_app(d) && app_changed(v, d)
}

/// What the host's UI remembers after a document state.
pub open spec fn sync_next(v: HostViewView, d: AgentDocView) -> HostViewView {
    if d.should_exit {
        v
    } else if shows_no_app(d) {
        HostViewView { last_app_id: Seq::empty(), last_splash_body: Seq::empty(), ..v }
    } else if unchanged(v, d) {
        v
    } else if app_changed(v, d) {
        HostViewView {
            last_app_id: shown_app_id(d),
            last_splash_body: shown_body(d),
            last_error_msg: error_line(d),
        }
    } else {
        HostViewView { last_error_msg: error_line(d), ..v }
    }
}

/// The view of an optional UI update.
pub open spec fn opt_update(u: Option<PendingUiUpdate>) -> Option<PendingUiUpdateView> {
    match u {
        Some(x) => Some(x@),
        None => None,
    }
}

impl HostView {
    /// Nothing shown yet.
    pub fn new() -> (r: HostView)
        ensures
            r@ == (HostViewView {
                last_app_id: Seq::empty(),
                last_splash_body: Seq::empty(),
                last_error_msg: Seq::empty(),
            }),
    {
        HostView { last_app_id: String::new(), last_splash_body: String::new(), last_error_msg: String::new() }
    }

    /// Reads a document state and notes the UI changes it calls for.
    pub fn sync_from_doc(&mut self, doc: &AgentDoc) -> (r: SyncStep)
        ensures
            r.exit == doc@.should_exit,
            opt_update(r.update) == sync_update(old(self)@, doc@),
            r.clear_error == (!doc@.should_exit && shows_no_app(doc@)),
            r.confirm_launch == confirms_launch(old(self)@, doc@),
            final(self)@ == sync_next(old(self)@, doc@),
    {
        if doc.should_exit {
            return SyncStep { exit: true, update: None, clear_error: false, confirm_launch: false };
        }
        let (app_id, splash_body) = match &doc.pending_app {
            Some(a) => (a.id.clone(), a.splash_body.clone()),
            None => (String::new(), String::new()),
        };
        if splash_body.as_str().unicode_len() == 0 && app_id.as_str().unicode_len() == 0 {
            self.last_app_id = String::new();
            self.last_splash_body = String::new();
            let update = PendingUiUpdate {
                splash_body: Some(String::new()),
                source_body: Some(String::new()),
                status: Some("Waiting for app launch\u{2026}".to_string()),
                error_msg: None,
                should_exit: false,
            };
            return SyncStep { exit: false, update: Some(update), clear_error: true, confirm_launch: false };
        }
        let error_text = match &doc.error_message {
            Some(e) => join2("\u{26a0} ", e.as_str()),
            None => String::new(),
        };
        let changed_app = !(splash_body == self.last_splash_body) || !(app_id == self.last_app_id);
        if !changed_app && error_text == self.last_error_msg {
            return SyncStep { exit: false, update: None, clear_error: false, confirm_launch: false };
        }
        self.last_error_msg = error_text.clone();
        let mut update = PendingUiUpdate {
            splash_body: None,
            source_body: None,
            status: None,
            error_msg: Some(error_text),
            should_exit: false,
        };
        if changed_app {
            update.splash_body = Some(splash_body.clone());
            update.source_body = Some(splash_body.clone());
            update.status = Some(join2("App: ", app_id.as_str()));
            self.last_app_id = app_id;
            self.last_splash_body = splash_body;
        }
        SyncStep { exit: false, update: Some(update), clear_error: false, confirm_launch: changed_app }
    }
}

// ── Debug commands ────────────────────────────────────────────────────────

/// What a debug command asks of the host.
pub enum DebugAction {
    /// A compact text dump of the widget tree.
    WidgetDump,
    /// A structured snapshot of all widgets.
    WidgetSnapshot,
    /// The rectangles of the widgets that match this query.
    WidgetQuery(String),
    /// A click, whose target the parameters give.
    Click(String),
    /// Type `text` into the splash's first text input, answering `reply`.
    TypeText { text: String, reply: String },
    /// Nothing to do but answer this.
    Reply(String),
}

pub enum DebugActionView {
    WidgetDump,
    WidgetSnapshot,
    WidgetQuery(Seq<char>),
    Click(Seq<char>),
    TypeText { text: Seq<char>, reply: Seq<char> },
    Reply(Seq<char>),
}

impl View for DebugAction {
    type V = DebugActionView;

    open spec fn view(&self) -> DebugActionView {
        match self {
            DebugAction::WidgetDump => DebugActionView::WidgetDump,
            DebugAction::WidgetSnapshot => DebugActionView::WidgetSnapshot,
            DebugAction::WidgetQuery(q) => DebugActionView::WidgetQuery(q@),
            DebugAction::Click(p) => DebugActionView::Click(p@),
            DebugAction::TypeText { text, reply } => DebugActionView::TypeText {
                text: text@,
                reply: reply@,
            },
            DebugAction::Reply(r) => DebugActionView::Reply(r@),
        }
    }
}

/// The answer to a `type_text` command without text.
pub open spec fn no_text_reply() -> Seq<char> {
    "{\"error\": \"No text provided. Provide text to type.\"}"@
}

/// The answer to a `type_text` command that will type `text`.
pub open spec fn typing_reply(text: Seq<char>) -> Seq<char> {
    "{\"status\":\"pending\",\"text\":\""@ + text + "\"}"@
}

/// The answer to a command that the host does not know.
pub open spec fn unknown_reply(command: Seq<char>) -> Seq<char> {
    "{\"error\": \"Unknown debug command: "@ + command + "\"}"@
}

/// What a debug command asks of the host.
pub open spec fn debug_action_spec(command: Seq<char>, params: Seq<char>) -> DebugActionView {
    if command == "widget_dump"@ {
        DebugActionView::WidgetDump
    } else if command == "widget_snapshot"@ {
        DebugActionView::WidgetSnapshot
    } else if command == "widget_query"@ {
        DebugActionView::WidgetQuery(trimmed(params))
    } else if command == "click"@ {
        DebugActionView::Click(params)
    } else if command == "type_text"@ {
        if trimmed(params).len() == 0 {
            DebugActionView::Reply(no_text_reply())
        } else {
            DebugActionView::TypeText { text: trimmed(params), reply: typing_reply(trimmed(params)) }
        }
    } else {
        DebugActionView::Reply(unknown_reply(command))
    }
}

/// Reads a debug command.
pub fn plan_debug_command(cmd: &DebugCommand) -> (r: DebugAction)
    ensures
        r@ == debug_action_spec(cmd.command@, cmd.params@),
{
    let command = cmd.command.as_str();
    if str_is(command, "widget_dump") {
        DebugAction::WidgetDump
    } else if str_is(command, "widget_snapshot") {
        DebugAction::WidgetSnapshot
    } else if str_is(command, "widget_query") {
        DebugAction::WidgetQuery(trim_str(cmd.params.as_str()))
    } else if str_is(command, "click") {
        DebugAction::Click(cmd.params.clone())
    } else if str_is(command, "type_text") {
        let text = trim_str(cmd.params.as_str());
        if text.as_str().unicode_len() == 0 {
            DebugAction::Reply(
                "{\"error\": \"No text provided. Provide text to type.\"}".to_string(),
            )
        } else {
            let reply = join3("{\"status\":\"pending\",\"text\":\"", text.as_str(), "\"}");
            DebugAction::TypeText { text, reply }
        }
    } else {
        DebugAction::Reply(join3("{\"error\": \"Unknown debug command: ", command, "\"}"))
    }
}

} // verus!
