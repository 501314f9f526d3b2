use a2app::splash::{delta_log, eval_source, final_code, final_log, generating_log, streaming_code, SplashState, EMPTY_SPLASH, SPLASH_PREFIX, SPLASH_SUFFIX};

fn s(x: &str) -> String {
    x.to_string()
}

#[test]
fn eval_source_wraps_the_body() {
    assert_eq!(eval_source(""), EMPTY_SPLASH);
    assert_eq!(eval_source(""), "use mod.prelude.widgets.*View{width:Fill height:Fit}");
    let src = eval_source("Label{text:\"hi\"}");
    assert_eq!(src, format!("{}{}{}", SPLASH_PREFIX, "Label{text:\"hi\"}", SPLASH_SUFFIX));
    assert!(src.starts_with("use mod.prelude.widgets.*View{width:Fill height:Fit flow:Down Label"));
    assert!(src.contains("__pi_response := Label{text:\"\" visible:false}"));
}

#[test]
fn streaming_code_takes_the_last_complete_block() {
    assert_eq!(streaming_code("no code here"), None);
    assert_eq!(streaming_code("```runsplash\n  Button{}\n```"), Some(s("Button{}")));
    assert_eq!(
        streaming_code("a ```runsplash A{} ``` b ```runsplash B{} ``` c"),
        Some(s("B{}"))
    );
    // An empty block does not replace the code found before it.
    assert_eq!(streaming_code("```runsplash A{}``` ```runsplash   ```"), Some(s("A{}")));
    // A plain fence is not a runsplash block.
    assert_eq!(streaming_code("```rust\nfn main(){}\n```"), None);
}

#[test]
fn streaming_code_takes_a_long_enough_open_block() {
    // 20 bytes after the fence: not yet.
    assert_eq!(streaming_code("```runsplash12345678901234567890"), None);
    // 21 bytes: the open block counts.
    assert_eq!(streaming_code("```runsplash123456789012345678901"), Some(s("123456789012345678901")));
    // A short open block keeps the last complete one.
    assert_eq!(streaming_code("```runsplash A{} ``` ```runsplash B"), Some(s("A{}")));
    // Bytes, not characters: five robots are 20 bytes, six are 24.
    assert_eq!(streaming_code("```runsplash\u{1F916}\u{1F916}\u{1F916}\u{1F916}\u{1F916}"), None);
    assert_eq!(
        streaming_code("```runsplash\u{1F916}\u{1F916}\u{1F916}\u{1F916}\u{1F916}\u{1F916}"),
        Some(s("\u{1F916}\u{1F916}\u{1F916}\u{1F916}\u{1F916}\u{1F916}"))
    );
}

#[test]
fn final_code_takes_the_first_closed_block() {
    assert_eq!(final_code("x ```runsplash A{} ``` ```runsplash B{} ```"), Some(s("A{}")));
    assert_eq!(final_code("```runsplash A{}"), None);
    assert_eq!(final_code("```runsplash   ``` ```runsplash B{} ```"), None);
    assert_eq!(final_code("plain"), None);
}

#[test]
fn generating_log_lines() {
    assert_eq!(generating_log(""), "\u{2699} Generating...");
    assert_eq!(generating_log(" "), "\u{2699} Generating...");
    assert_eq!(generating_log("you: hi\n\u{1F916} partial"), "you: hi\n\u{2699} Generating...");
    assert_eq!(generating_log("you: hi"), "you: hi\n\u{2699} Generating...");
}

#[test]
fn final_log_lines() {
    assert_eq!(final_log("you: hi\n\u{2699} Generating...", "x"), "you: hi\n\u{2705} Done");
    assert_eq!(final_log("\u{2699} Generating...", "x"), "\u{2705} Done");
    assert_eq!(final_log("a \u{2699}", "x"), "a \u{2699}\n\u{2705} Done");
    assert_eq!(final_log("you: hi\n\u{1F916} part", "answer"), "you: hi\n\u{1F916} answer\n");
    assert_eq!(final_log("\u{1F916} part", "answer"), "\u{1F916} answer\n");
    assert_eq!(final_log(" ", "answer"), "\u{1F916} answer\n");
    assert_eq!(final_log("you: hi", "answer"), "you: hi\n\u{1F916} answer\n");
}

#[test]
fn delta_log_lines() {
    assert_eq!(delta_log("you: hi\n\u{1F916} Hel", "Hello"), "you: hi\n\u{1F916} Hello");
    assert_eq!(delta_log("\u{1F916} Hel", "Hello"), "\u{1F916} Hello");
    assert_eq!(delta_log("", "Hello"), "\u{1F916} Hello");
    assert_eq!(delta_log("you: hi", "Hello"), "you: hi\n\u{1F916} Hello");
}

#[test]
fn progress_gives_way_to_done() {
    let log = generating_log("you: make a counter\n\u{1F916} Sure");
    assert_eq!(final_log(&log, "done"), "you: make a counter\n\u{2705} Done");
}

#[test]
fn response_label_is_sent_once() {
    let mut st = SplashState::new(true);
    assert_eq!(st.response_to_send(s("")), None);
    assert_eq!(st.response_to_send(s("ai:ask:hi")), Some(s("ai:ask:hi")));
    assert_eq!(st.response_to_send(s("ai:ask:hi")), None);
    assert_eq!(st.response_to_send(s("other")), Some(s("other")));
}

#[test]
fn deltas_update_answer_and_log() {
    let mut st = SplashState::new(true);
    let u = st.take_delta(s("Hel"), Some(s(" ")));
    assert_eq!(u.ai_text, Some(s("Hel")));
    assert_eq!(u.log_text, Some(s("\u{1F916} Hel")));
    let u = st.take_delta(s("Hel"), Some(s("\u{1F916} Hel")));
    assert_eq!(u.ai_text, None);
    assert_eq!(u.log_text, None);
    let u = st.take_delta(s("```runsplash B"), Some(s("x")));
    assert_eq!(u.ai_text, Some(s("```runsplash B")));
    assert_eq!(u.log_text, None);
    let u = st.take_delta(s("Hi"), None);
    assert_eq!(u.ai_text, Some(s("Hi")));
    assert_eq!(u.log_text, None);
}

#[test]
fn streaming_text_marks_generation_and_runs_code() {
    let mut st = SplashState::new(true);
    let u = st.on_streaming_text(Some(s("Sure")), Some(s("you: hi")), Some(s("")));
    assert_eq!(u.ai_text, Some(s("Sure")));
    assert_eq!(u.log_text, None);
    assert_eq!(u.run_splash_body, None);
    let text = s("Sure ```runsplash Button{} ```");
    let u = st.on_streaming_text(Some(text.clone()), Some(s("you: hi")), Some(s("")));
    assert_eq!(u.log_text, Some(s("you: hi\n\u{2699} Generating...")));
    assert_eq!(u.run_splash_body, Some(s("Button{}")));
    assert!(st.on_streaming_text(Some(text), Some(s("x")), Some(s(""))).ai_text.is_none());
    let u = st.on_streaming_text(Some(s("Sure ```runsplash Button{} ``` more")), Some(s("x")), Some(s("Button{}")));
    assert_eq!(u.log_text, None);
    assert_eq!(u.run_splash_body, None);
    assert!(st.on_streaming_text(None, None, None).ai_text.is_none());
}

#[test]
fn pi_data_is_shown_once() {
    let mut st = SplashState::new(true);
    assert!(st.on_pi_data(Some(s("")), None, None).ai_text.is_none());
    let u = st.on_pi_data(Some(s("Here ```runsplash V{} ```")), Some(s("\u{2699} Generating...")), Some(s("old")));
    assert_eq!(u.ai_text, Some(s("Here ```runsplash V{} ```")));
    assert_eq!(u.log_text, Some(s("\u{2705} Done")));
    assert_eq!(u.run_splash_body, Some(s("V{}")));
    assert!(st.on_pi_data(Some(s("Here ```runsplash V{} ```")), None, None).ai_text.is_none());
}

#[test]
fn failed_body_is_rolled_back() {
    let mut st = SplashState::new(false);
    let prev = st.begin_set_text("Good{}").unwrap();
    assert_eq!(prev, "");
    assert!(!st.finish_set_text(true, prev));
    assert!(st.render_ok);
    assert_eq!(st.begin_set_text("Good{}"), None);
    st.last_response = s("r");
    let prev = st.begin_set_text("Bad{").unwrap();
    assert_eq!(st.body, "Bad{");
    assert_eq!(st.last_response, "");
    assert!(st.finish_set_text(false, prev));
    assert_eq!(st.body, "Good{}");
    assert!(st.render_ok);
    let prev = st.begin_set_text("").unwrap();
    assert!(!st.finish_set_text(true, prev));
    assert_eq!(st.body, "");
}
