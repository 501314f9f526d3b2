//! The splash runtime's text logic: the source that a splash body is
//! evaluated as, the `runsplash` code blocks found in agent answers, the
//! activity log beside them, and the bookkeeping of one splash widget.
use vstd::prelude::*;

use crate::doc::{opt_str, str_is};
use crate::text::{
    chars_of, concat_chars, contains, contains_spec, find, find_from, find_from_spec, find_spec,
    lemma_find_from_spec_props, occurs_at, rfind, rfind_spec,
    slice_chars, starts_with, string_of, trim, trimmed, utf8_len, utf8_len_exceeds,
};

verus! {

// ── Splash source ─────────────────────────────────────────────────────────

/// Opens the view that every splash body is evaluated in.
pub const SPLASH_PREFIX: &'static str = "use mod.prelude.widgets.*View{width:Fill height:Fit flow:Down ";

/// Closes a splash body with the widgets through which it talks to pi.
pub const SPLASH_SUFFIX: &'static str = "  __run_splash := mod.widgets.AgentSplash{width:Fill height:Fit is_root:false}\n  __ai_text := TextInput{text:\" \" height:0 width:Fill visible:false}\n  __pi_response := Label{text:\"\" visible:false}\n  __pi_data := Label{text:\" \" visible:false}";

/// What an empty body is evaluated as.
pub const EMPTY_SPLASH: &'static str = "use mod.prelude.widgets.*View{width:Fill height:Fit}";

/// The source that a splash body is evaluated as.
pub open spec fn eval_source_spec(body: Seq<char>) -> Seq<char> {
    if body.len() == 0 {
        EMPTY_SPLASH@
    } else {
        SPLASH_PREFIX@ + body + SPLASH_SUFFIX@
    }
}

/// The source that a splash body is evaluated as.
pub fn eval_source(body: &str) -> (r: String)
    ensures
        r@ == eval_source_spec(body@),
{
    if body.unicode_len() == 0 {
        EMPTY_SPLASH.to_string()
    } else {
        let s = SPLASH_PREFIX.to_string();
        let s = s.concat(body);
        s.concat(SPLASH_SUFFIX)
    }
}

// ── runsplash blocks ──────────────────────────────────────────────────────

/// The fence that opens a `runsplash` block.
pub open spec fn rs_open() -> Seq<char> {
    seq!['`', '`', '`', 'r', 'u', 'n', 's', 'p', 'l', 'a', 's', 'h']
}

/// The fence that closes a block.
pub open spec fn rs_close() -> Seq<char> {
    seq!['`', '`', '`']
}

fn rs_open_chars() -> (r: Vec<char>)
    ensures
        r@ == rs_open(),
{
    let r = vec!['`', '`', '`', 'r', 'u', 'n', 's', 'p', 'l', 'a', 's', 'h'];
    assert(r@ =~= rs_open());
    r
}

fn rs_close_chars() -> (r: Vec<char>)
    ensures
        r@ == rs_close(),
{
    let r = vec!['`', '`', '`'];
    assert(r@ =~= rs_close());
    r
}

/// Scans streaming text from `from` on, keeping the last code found so far in
/// `found`: each complete block whose trimmed code is non-empty replaces it,
/// and an unclosed block at the end replaces it too once it holds more than
/// 20 bytes and non-empty trimmed code.
pub open spec fn streaming_scan(t: Seq<char>, from: nat, found: Option<Seq<char>>) -> Option<
    Seq<char>,
>
    decreases t.len() + 1 - from,
{
    match find_from_spec(t, rs_open(), from) {
        None => found,
        Some(b) => {
            let a = b + rs_open().len();
            match find_from_spec(t, rs_close(), a) {
                Some(e) => {
                    proof {
                        lemma_find_from_spec_props(t, rs_open(), from);
                        lemma_find_from_spec_props(t, rs_close(), a);
                    }
                    let code = trimmed(t.subrange(a as int, e as int));
                    streaming_scan(
                        t,
                        e + rs_close().len(),
                        if code.len() > 0 {
                            Some(code)
                        } else {
                            found
                        },
                    )
                },
                None => {
                    let rest = t.subrange(a as int, t.len() as int);
                    if utf8_len(rest) > 20 && trimmed(rest).len() > 0 {
                        Some(trimmed(rest))
                    } else {
                        found
                    }
                },
            }
        },
    }
}

/// The code to run from streaming text: that of its last `runsplash` block
/// with code, where an unclosed last block counts once it is long enough.
pub open spec fn streaming_code_spec(t: Seq<char>) -> Option<Seq<char>> {
    streaming_scan(t, 0, None)
}

/// The code to run from streaming text.
pub fn streaming_code(text: &str) -> (r: Option<String>)
    ensures
        opt_str(r) == streaming_code_spec(text@),
{
    let t = chars_of(text);
    let open = rs_open_chars();
    let close = rs_close_chars();
    let mut found: Option<String> = None;
    let mut from: usize = 0;
    loop
        invariant
            t@ == text@,
            open@ == rs_open(),
            close@ == rs_close(),
            from <= t.len(),
            streaming_scan(t@, from as nat, opt_str(found)) == streaming_code_spec(text@),
        decreases t.len() - from,
    {
        proof {
            lemma_find_from_spec_props(t@, rs_open(), from as nat);
        }
        match find_from(t.as_slice(), open.as_slice(), from) {
            None => {
                return found;
            },
            Some(b) => {
                let a = b + open.len();
                proof {
                    lemma_find_from_spec_props(t@, rs_close(), a as nat);
                }
                match find_from(t.as_slice(), close.as_slice(), a) {
                    Some(e) => {
                        let code = trim(slice_chars(t.as_slice(), a, e).as_slice());
                        if code.len() > 0 {
                            found = Some(string_of(code.as_slice()));
                        }
                        from = e + close.len();
                    },
                    None => {
                        if utf8_len_exceeds(t.as_slice(), a, 20) {
                            let code = trim(slice_chars(t.as_slice(), a, t.len()).as_slice());
                            if code.len() > 0 {
                                return Some(string_of(code.as_slice()));
                            }
                        }
                        return found;
                    },
                }
            },
        }
    }
}

/// The code of the first `runsplash` block of a final answer, if that block
/// is closed and its trimmed code is non-empty.
pub open spec fn final_code_spec(d: Seq<char>) -> Option<Seq<char>> {
    match find_spec(d, rs_open()) {
        None => None,
        Some(s) => {
            let cs = s + rs_open().len();
            match find_from_spec(d, rs_close(), cs) {
                None => None,
                Some(e) => {
                    let code = trimmed(d.subrange(cs as int, e as int));
                    if code.len() > 0 {
                        Some(code)
                    } else {
                        None
                    }
                },
            }
        },
    }
}

/// The code of the first `runsplash` block of a final answer.
pub fn final_code(data: &str) -> (r: Option<String>)
    ensures
        opt_str(r) == final_code_spec(data@),
{
    let d = chars_of(data);
    let open = rs_open_chars();
    let close = rs_close_chars();
    match find(d.as_slice(), open.as_slice()) {
        None => None,
        Some(s) => {
            assert(occurs_at(d@, open@, s as int));
            let n = d.len();
            assert(s + open@.len() <= n);
            let cs = s + open.len();
            proof {
                lemma_find_from_spec_props(d@, rs_close(), cs as nat);
            }
            match find_from(d.as_slice(), close.as_slice(), cs) {
                None => None,
                Some(e) => {
                    let code = trim(slice_chars(d.as_slice(), cs, e).as_slice());
                    if code.len() > 0 {
                        Some(string_of(code.as_slice()))
                    } else {
                        None
                    }
                },
            }
        },
    }
}

// ── The activity log ──────────────────────────────────────────────────────

/// The marker before an answer line in the log.
pub open spec fn ai_marker() -> Seq<char> {
    seq!['\n', '\u{1F916}', ' ']
}

fn ai_marker_chars() -> (r: Vec<char>)
    ensures
        r@ == ai_marker(),
{
    let r = vec!['\n', '\u{1F916}', ' '];
    assert(r@ =~= ai_marker());
    r
}

/// The log text as shown: a lone space stands for an empty log.
pub open spec fn shown_log(c: Seq<char>) -> Seq<char> {
    if c == " "@ {
        Seq::empty()
    } else {
        c
    }
}

/// The log once code generation starts: the last answer line, if any, gives
/// way to a progress line.
pub open spec fn generating_log_spec(current: Seq<char>) -> Seq<char> {
    let c = shown_log(current);
    if c.len() == 0 {
        "\u{2699} Generating..."@
    } else {
        match rfind_spec(c, ai_marker()) {
            Some(m) => c.subrange(0, m as int) + "\n\u{2699} Generating..."@,
            None => c + "\n\u{2699} Generating..."@,
        }
    }
}

/// The log once a final answer arrives: a progress line gives way to a done
/// line; otherwise the answer replaces the last answer line, or is added.
pub open spec fn final_log_spec(current: Seq<char>, data: Seq<char>) -> Seq<char> {
    let c = shown_log(current);
    if contains_spec(c, "\u{2699}"@) {
        match rfind_spec(c, "\n\u{2699} "@) {
            Some(m) => c.subrange(0, m as int) + "\n\u{2705} Done"@,
            None => if occurs_at(c, "\u{2699}"@, 0) || c.len() == 0 {
                "\u{2705} Done"@
            } else {
                c + "\n\u{2705} Done"@
            },
        }
    } else {
        match rfind_spec(c, ai_marker()) {
            Some(m) => c.subrange(0, m + 1int) + "\u{1F916} "@ + data + "\n"@,
            None => if occurs_at(c, "\u{1F916} "@, 0) || c.len() == 0 {
                "\u{1F916} "@ + data + "\n"@
            } else {
                c + "\n\u{1F916} "@ + data + "\n"@
            },
        }
    }
}

/// The log as an answer streams in: the answer so far replaces the last
/// answer line, or is added.
pub open spec fn delta_log_spec(current: Seq<char>, delta: Seq<char>) -> Seq<char> {
    let c = shown_log(current);
    match rfind_spec(c, ai_marker()) {
        Some(m) => c.subrange(0, m + 1int) + "\u{1F916} "@ + delta,
        None => if occurs_at(c, "\u{1F916} "@, 0) || c.len() == 0 {
            "\u{1F916} "@ + delta
        } else {
            c + "\n\u{1F916} "@ + delta
        },
    }
}

fn shown_log_chars(current: &str) -> (r: Vec<char>)
    ensures
        r@ == shown_log(current@),
{
    if str_is(current, " ") {
        Vec::new()
    } else {
        chars_of(current)
    }
}

/// The log once code generation starts.
pub fn generating_log(current: &str) -> (r: String)
    ensures
        r@ == generating_log_spec(current@),
{
    let c = shown_log_chars(current);
    let progress = chars_of("\n\u{2699} Generating...");
    if c.len() == 0 {
        return "\u{2699} Generating...".to_string();
    }
    let marker = ai_marker_chars();
    let out = match rfind(c.as_slice(), marker.as_slice()) {
        Some(m) => concat_chars(slice_chars(c.as_slice(), 0, m).as_slice(), progress.as_slice()),
        None => concat_chars(c.as_slice(), progress.as_slice()),
    };
    string_of(out.as_slice())
}

/// The log once a final answer arrives.
pub fn final_log(current: &str, data: &str) -> (r: String)
    ensures
        r@ == final_log_spec(current@, data@),
{
    let c = shown_log_chars(current);
    let gear = chars_of("\u{2699}");
    let robot = chars_of("\u{1F916} ");
    let d = chars_of(data);
    let newline = chars_of("\n");
    if contains(c.as_slice(), gear.as_slice()) {
        let done = chars_of("\n\u{2705} Done");
        let gear_marker = chars_of("\n\u{2699} ");
        match rfind(c.as_slice(), gear_marker.as_slice()) {
            Some(m) => {
                let out = concat_chars(slice_chars(c.as_slice(), 0, m).as_slice(), done.as_slice());
                string_of(out.as_slice())
            },
            None => {
                if starts_with(c.as_slice(), gear.as_slice()) || c.len() == 0 {
                    "\u{2705} Done".to_string()
                } else {
                    string_of(concat_chars(c.as_slice(), done.as_slice()).as_slice())
                }
            },
        }
    } else {
        let marker = ai_marker_chars();
        let line = concat_chars(concat_chars(robot.as_slice(), d.as_slice()).as_slice(), newline.as_slice());
        match rfind(c.as_slice(), marker.as_slice()) {
            Some(m) => {
                assert(occurs_at(c@, marker@, m as int));
                let n = c.len();
                assert(m + 3 <= n);
                let head = slice_chars(c.as_slice(), 0, m + 1);
                let out = concat_chars(head.as_slice(), line.as_slice());
                assert(out@ == head@ + robot@ + d@ + newline@);
                string_of(out.as_slice())
            },
            None => {
                if starts_with(c.as_slice(), robot.as_slice()) || c.len() == 0 {
                    string_of(line.as_slice())
                } else {
                    let out = concat_chars(concat_chars(c.as_slice(), newline.as_slice()).as_slice(), line.as_slice());
                    assert(out@ == c@ + "\n\u{1F916} "@ + d@ + "\n"@) by {
                        assert(newline@ + robot@ =~= "\n\u{1F916} "@) by {
                            reveal_strlit("\n");
                            reveal_strlit("\u{1F916} ");
                            reveal_strlit("\n\u{1F916} ");
                        }
                        assert(out@ =~= c@ + (newline@ + robot@) + d@ + newline@);
                    }
                    string_of(out.as_slice())
                }
            },
        }
    }
}

/// The log as an answer streams in.
pub fn delta_log(current: &str, delta: &str) -> (r: String)
    ensures
        r@ == delta_log_spec(current@, delta@),
{
    let c = shown_log_chars(current);
    let robot = chars_of("\u{1F916} ");
    let d = chars_of(delta);
    let line = concat_chars(robot.as_slice(), d.as_slice());
    let marker = ai_marker_chars();
    match rfind(c.as_slice(), marker.as_slice()) {
        Some(m) => {
            assert(occurs_at(c@, marker@, m as int));
            let n = c.len();
            assert(m + 3 <= n);
            let head = slice_chars(c.as_slice(), 0, m + 1);
            let out = concat_chars(head.as_slice(), line.as_slice());
            assert(out@ =~= head@ + robot@ + d@);
            string_of(out.as_slice())
        },
        None => {
            if starts_with(c.as_slice(), robot.as_slice()) || c.len() == 0 {
                string_of(line.as_slice())
            } else {
                let sep = chars_of("\n\u{1F916} ");
                let out = concat_chars(c.as_slice(), concat_chars(sep.as_slice(), d.as_slice()).as_slice());
                assert(out@ =~= c@ + sep@ + d@);
                string_of(out.as_slice())
            }
        },
    }
}

// ── One splash widget ────────────────────────────────────────────────────

/// The bookkeeping of one splash widget: its body and what it last passed
/// on, so that nothing is passed on twice.
pub struct SplashState {
    /// The splash body currently shown.
    pub body: String,
    /// Whether the last evaluation of the body succeeded.
    pub render_ok: bool,
    /// The last text of the response label that was sent to pi.
    pub last_response: String,
    /// The last data from pi that was shown.
    pub last_pi_data: String,
    /// The last streaming text that was shown.
    pub last_streaming_text: String,
    /// Only the root splash reads the document; nested ones render code blocks.
    pub is_root: bool,
}

pub struct SplashStateView {
    pub body: Seq<char>,
    pub render_ok: bool,
    pub last_response: Seq<char>,
    pub last_pi_data: Seq<char>,
    pub last_streaming_text: Seq<char>,
    pub is_root: bool,
}

impl SplashStateView {
    /// A label text is sent to pi when it is new and not empty.
    pub open spec fn sends_response(self, current: Seq<char>) -> bool {
        current != self.last_response && current.len() > 0
    }

    /// The splash once a new body `v` is set, before it is evaluated.
    pub open spec fn text_set(self, v: Seq<char>) -> SplashStateView {
        SplashStateView { body: v, last_response: Seq::empty(), last_pi_data: Seq::empty(), ..self }
    }

    /// The splash once its body has been evaluated with outcome `ok`; a
    /// non-empty body that failed gives way to `prev`.
    pub open spec fn evaluated(self, ok: bool, prev: Seq<char>) -> SplashStateView {
        if self.body.len() > 0 && !ok {
            SplashStateView { body: prev, render_ok: true, ..self }
        } else {
            SplashStateView { render_ok: ok, ..self }
        }
    }
}

impl View for SplashState {
    type V = SplashStateView;

    open spec fn view(&self) -> SplashStateView {
        SplashStateView {
            body: self.body@,
            render_ok: self.render_ok,
            last_response: self.last_response@,
            last_pi_data: self.last_pi_data@,
            last_streaming_text: self.last_streaming_text@,
            is_root: self.is_root,
        }
    }
}

/// Widget changes that a piece of incoming text calls for.
pub struct SplashUpdate {
    /// New text of the answer widget.
    pub ai_text: Option<String>,
    /// New text of the log widget.
    pub log_text: Option<String>,
    /// New body of the nested splash that runs code blocks.
    pub run_splash_body: Option<String>,
}

/// The code block to hand to the nested splash: new code only.
pub open spec fn run_body_update(code: Option<Seq<char>>, run_body: Option<Seq<char>>) -> Option<Seq<char>> {
    match (code, run_body) {
        (Some(k), Some(b)) => if k != b {
            Some(k)
        } else {
            None
        },
        _ => None,
    }
}

/// The log change while streaming: only when the first code block appears.
pub open spec fn streaming_log_update(
    log: Option<Seq<char>>,
    text: Seq<char>,
    previous: Seq<char>,
) -> Option<Seq<char>> {
    match log {
        Some(c) => if contains_spec(text, rs_open()) && !contains_spec(previous, rs_open()) {
            Some(generating_log_spec(c))
        } else {
            None
        },
        None => None,
    }
}

fn new_code_for(code: Option<String>, run_body: &Option<String>) -> (r: Option<String>)
    ensures
        opt_str(r) == run_body_update(opt_str(code), opt_str(*run_body)),
{
    match (code, run_body) {
        (Some(k), Some(b)) => if !(k == *b) {
            Some(k)
        } else {
            None
        },
        _ => None,
    }
}

impl SplashState {
    /// A splash with an empty body.
    pub fn new(is_root: bool) -> (r: SplashState)
        ensures
            r@ == (SplashStateView {
                body: Seq::empty(),
                render_ok: false,
                last_response: Seq::empty(),
                last_pi_data: Seq::empty(),
                last_streaming_text: Seq::empty(),
                is_root,
            }),
    {
        SplashState {
            body: String::new(),
            render_ok: false,
            last_response: String::new(),
            last_pi_data: String::new(),
            last_streaming_text: String::new(),
            is_root,
        }
    }

    /// The response label reads `current`: a new, non-empty text is to be
    /// sent to pi as the user response.
    pub fn response_to_send(&mut self, current: String) -> (r: Option<String>)
        ensures
            old(self)@.sends_response(current@) ==> opt_str(r) == Some(current@) && final(self)@
                == (SplashStateView { last_response: current@, ..old(self)@ }),
            !old(self)@.sends_response(current@) ==> r is None && final(self)@ == old(self)@,
    {
        if !(current == self.last_response) && current.as_str().unicode_len() > 0 {
            self.last_response = current.clone();
            Some(current)
        } else {
            None
        }
    }

    /// A streaming delta arrives on the channel; `log` is the log widget's
    /// text, if there is one.
    pub fn take_delta(&mut self, delta: String, log: Option<String>) -> (r: SplashUpdate)
        ensures
            delta@ != old(self)@.last_streaming_text ==> {
                &&& final(self)@ == (SplashStateView { last_streaming_text: delta@, ..old(self)@ })
                &&& opt_str(r.ai_text) == Some(delta@)
                &&& opt_str(r.log_text) == (match opt_str(log) {
                    Some(c) => if !contains_spec(delta@, rs_open()) {
                        Some(delta_log_spec(c, delta@))
                    } else {
                        None
                    },
                    None => None,
                })
            },
            delta@ == old(self)@.last_streaming_text ==> final(self)@ == old(self)@ && r.ai_text is None
                && r.log_text is None,
            r.run_splash_body is None,
    {
        if delta == self.last_streaming_text {
            return SplashUpdate { ai_text: None, log_text: None, run_splash_body: None };
        }
        self.last_streaming_text = delta.clone();
        let d = chars_of(delta.as_str());
        let open = rs_open_chars();
        let log_text = match log {
            Some(c) => if !contains(d.as_slice(), open.as_slice()) {
                Some(delta_log(c.as_str(), delta.as_str()))
            } else {
                None
            },
            None => None,
        };
        SplashUpdate { ai_text: Some(delta), log_text, run_splash_body: None }
    }

    /// The document's streaming text is read on a wake-up; `log` and
    /// `run_body` are the texts of the log widget and of the nested splash.
    pub fn on_streaming_text(
        &mut self,
        incoming: Option<String>,
        log: Option<String>,
        run_body: Option<String>,
    ) -> (r: SplashUpdate)
        ensures
            (incoming matches Some(t) && t@ != old(self)@.last_streaming_text) ==> {
                let t = incoming->0@;
                &&& final(self)@ == (SplashStateView { last_streaming_text: t, ..old(self)@ })
                &&& opt_str(r.ai_text) == Some(t)
                &&& opt_str(r.log_text) == streaming_log_update(
                    opt_str(log),
                    t,
                    old(self)@.last_streaming_text,
                )
                &&& opt_str(r.run_splash_body) == run_body_update(
                    streaming_code_spec(t),
                    opt_str(run_body),
                )
            },
            !(incoming matches Some(t) && t@ != old(self)@.last_streaming_text) ==> final(self)@
                == old(self)@ && r.ai_text is None && r.log_text is None && r.run_splash_body is None,
    {
        let text = match incoming {
            Some(t) => t,
            None => {
                return SplashUpdate { ai_text: None, log_text: None, run_splash_body: None };
            },
        };
        if text == self.last_streaming_text {
            return SplashUpdate { ai_text: None, log_text: None, run_splash_body: None };
        }
        let open = rs_open_chars();
        let previous = chars_of(self.last_streaming_text.as_str());
        let t = chars_of(text.as_str());
        self.last_streaming_text = text.clone();
        let first_block = contains(t.as_slice(), open.as_slice()) && !contains(
            previous.as_slice(),
            open.as_slice(),
        );
        let log_text = match log {
            Some(c) => if first_block {
                Some(generating_log(c.as_str()))
            } else {
                None
            },
            None => None,
        };
        let run_splash_body = new_code_for(streaming_code(text.as_str()), &run_body);
        SplashUpdate { ai_text: Some(text), log_text, run_splash_body }
    }

    /// The document's data from pi is read on a wake-up. New, non-empty data
    /// (given back in `ai_text`) is shown in the data and answer widgets, and
    /// is then to be cleared from the document.
    pub fn on_pi_data(
        &mut self,
        incoming: Option<String>,
        log: Option<String>,
        run_body: Option<String>,
    ) -> (r: SplashUpdate)
        ensures
            (incoming matches Some(d) && d@.len() > 0 && d@ != old(self)@.last_pi_data) ==> {
                let d = incoming->0@;
                &&& final(self)@ == (SplashStateView { last_pi_data: d, ..old(self)@ })
                &&& opt_str(r.ai_text) == Some(d)
                &&& opt_str(r.log_text) == (match opt_str(log) {
                    Some(c) => Some(final_log_spec(c, d)),
                    None => None,
                })
                &&& opt_str(r.run_splash_body) == run_body_update(final_code_spec(d), opt_str(run_body))
            },
            !(incoming matches Some(d) && d@.len() > 0 && d@ != old(self)@.last_pi_data)
                ==> final(self)@ == old(self)@ && r.ai_text is None && r.log_text is None && r.run_splash_body is None,
    {
        let data = match incoming {
            Some(d) => d,
            None => {
                return SplashUpdate { ai_text: None, log_text: None, run_splash_body: None };
            },
        };
        if data.as_str().unicode_len() == 0 || data == self.last_pi_data {
            return SplashUpdate { ai_text: None, log_text: None, run_splash_body: None };
        }
        self.last_pi_data = data.clone();
        let run_splash_body = new_code_for(final_code(data.as_str()), &run_body);
        let log_text = match log {
            Some(c) => Some(final_log(c.as_str(), data.as_str())),
            None => None,
        };
        SplashUpdate { ai_text: Some(data), log_text, run_splash_body }
    }

    /// A new body is set. Where it differs from the current one it replaces
    /// it, the response and data trackers are reset, and the previous body is
    /// returned: the new body is then evaluated and `finish_set_text` told
    /// the outcome.
    pub fn begin_set_text(&mut self, v: &str) -> (r: Option<String>)
        ensures
            v@ == old(self)@.body ==> r is None && final(self)@ == old(self)@,
            v@ != old(self)@.body ==> opt_str(r) == Some(old(self)@.body) && final(self)@ == old(
                self,
            )@.text_set(v@),
    {
        let v = v.to_string();
        if v == self.body {
            return None;
        }
        let prev = self.body.clone();
        self.body = v;
        self.last_response = String::new();
        self.last_pi_data = String::new();
        Some(prev)
    }

    /// The outcome of evaluating the body set by `begin_set_text`. A non-empty
    /// body that failed to evaluate is replaced by the previous body, which is
    /// then evaluated again (the result is `true`), and the splash counts as
    /// rendered.
    pub fn finish_set_text(&mut self, evaluated: bool, prev: String) -> (r: bool)
        ensures
            r == (old(self)@.body.len() > 0 && !evaluated),
            final(self)@ == old(self)@.evaluated(evaluated, prev@),
    {
        if self.body.as_str().unicode_len() > 0 && !evaluated {
            self.body = prev;
            self.render_ok = true;
            true
        } else {
            self.render_ok = evaluated;
            false
        }
    }
}

} // verus!
