use agentbridge::config::DisplayConfig;
use agentbridge::events::{format_tool_label, render_progress, split_chars};
use agentbridge::message::{AgentEvent, PermissionOption};
use agentbridge::turn::{
    summarise_json, Action, EventLoopResult, Input, PermissionDecision, Phase, Turn,
};

#[test]
fn format_tool_label_truncates_on_char_boundary() {
    let label = format_tool_label("Bash", "你好世界你好世界", 3);
    assert_eq!(label, "Bash: 你好世…");
}

#[test]
fn format_tool_label_no_input_is_tool_name() {
    assert_eq!(format_tool_label("Read", "", 40), "Read");
    assert_eq!(format_tool_label("Read", "   ", 40), "Read");
}

#[test]
fn format_tool_label_collapses_newlines() {
    // A multiline command stays one progress line.
    let label = format_tool_label("Bash", "echo a\necho b", 40);
    assert_eq!(label, "Bash: echo a echo b");
}

#[test]
fn render_progress_marks_current_then_done() {
    let tools = vec!["Bash: ls".to_string(), "Edit: a.rs".to_string()];
    let live = render_progress(&tools, false);
    assert!(live.starts_with("⚡ 处理中… (2 步)"));
    assert!(live.contains("✓ 1. Bash: ls"), "earlier step is done: {live}");
    assert!(live.contains("▸ 2. Edit: a.rs"), "tail step is current: {live}");

    let done = render_progress(&tools, true);
    assert!(done.starts_with("✓ 完成 (2 步)"));
    assert!(done.contains("✓ 2. Edit: a.rs"), "all steps done when finished: {done}");
    assert!(!done.contains('▸'), "no current marker once done: {done}");
}

#[test]
fn render_progress_caps_long_list() {
    let tools: Vec<String> = (0..20).map(|i| format!("Tool{i}")).collect();
    let out = render_progress(&tools, false);
    assert!(out.contains("…(前 12 步省略)"), "elides all but the last 8: {out}");
    // The most recent step is shown and marked current.
    assert!(out.contains("▸ 20. Tool19"), "{out}");
    // An early step is not shown.
    assert!(!out.contains("Tool0\n") && !out.contains(" 1. Tool0"), "{out}");
}

#[test]
fn render_progress_empty() {
    assert_eq!(render_progress(&vec![], false), "⚡ 处理中…");
    assert_eq!(render_progress(&vec![], true), "✓ 完成");
}

#[test]
fn segments_of_a_text() {
    assert_eq!(split_chars("abcde", 2), vec!["ab", "cd", "e"]);
    assert_eq!(split_chars("字字字", 3), vec!["字字字"]);
}

#[test]
fn json_is_summarised() {
    let v: serde_json::Value = serde_json::from_str(r#"{ "a": "字字" }"#).unwrap();
    assert_eq!(summarise_json(&v, 100), r#"{"a":"字字"}"#);
    assert_eq!(summarise_json(&v, 4), r#"{"a"..."#);
}

// ---------------------------------------------------------------------------
// Turns, with the platform and the stream of text kept by the test
// ---------------------------------------------------------------------------

#[derive(Debug, Clone, PartialEq)]
enum Rec {
    Reply(String),
    PreviewCreate(String),
    PreviewUpdate(String),
    PreviewDelete,
    Buttons(String, Vec<(String, String)>),
    Respond(String, bool),
    StopTyping,
}

fn display() -> DisplayConfig {
    DisplayConfig {
        verbose: true,
        thinking_messages: true,
        thinking_max_len: 300,
        tool_messages: true,
        tool_max_len: 500,
        context_indicator: false,
        context_window: 0,
    }
}

fn tool_ev(name: &str, input: &str) -> AgentEvent {
    AgentEvent::ToolUse { id: String::new(), tool: name.to_string(), input: input.to_string() }
}

fn result_ev(content: &str) -> AgentEvent {
    AgentEvent::Result {
        content: content.to_string(),
        session_id: "s1".to_string(),
        input_tokens: 0,
        output_tokens: 0,
    }
}

fn reply_ev(content: &str, thinking: bool) -> AgentEvent {
    AgentEvent::ReplyChunk { content: content.to_string(), thinking }
}

struct Driver {
    turn: Option<Turn>,
    stream: String,
    active: bool,
    rec: Vec<Rec>,
    pending: bool,
}

impl Driver {
    fn new(inplace: bool, display: DisplayConfig, buttons: bool, typing: bool) -> Driver {
        Driver {
            turn: Some(Turn::new(display, inplace, false, true, buttons, false, typing)),
            stream: String::new(),
            active: false,
            rec: Vec::new(),
            pending: false,
        }
    }

    fn phase(&self) -> Phase {
        self.turn.as_ref().unwrap().phase()
    }

    /// Feeds an input and performs what the turn asks for, until it waits for
    /// an event or a decision again.
    fn feed(&mut self, input: Input) {
        let mut next = Some(input);
        while let Some(input) = next.take() {
            let (turn, steps) = self.turn.take().unwrap().step(input);
            self.turn = Some(turn);
            for step in steps {
                match step {
                    Action::StopTyping => self.rec.push(Rec::StopTyping),
                    Action::AppendStream(s) => {
                        self.stream.push_str(&s);
                        self.active = true;
                    }
                    Action::MarkSent | Action::FreezeStream => {}
                    Action::ResetStream => self.stream.clear(),
                    Action::FinishStream | Action::AskStream => {}
                    Action::SendPreview(_, s) => self.rec.push(Rec::PreviewCreate(s)),
                    Action::UpdatePreview(_, s) => self.rec.push(Rec::PreviewUpdate(s)),
                    Action::DeletePreview => self.rec.push(Rec::PreviewDelete),
                    Action::Reply(s) => self.rec.push(Rec::Reply(s)),
                    Action::SendButtons(s, b) => self.rec.push(Rec::Buttons(
                        s,
                        b.into_iter().map(|b| (b.text, b.callback_data)).collect(),
                    )),
                    Action::SetPending(b) => self.pending = b,
                    Action::AwaitDecision => {}
                    Action::Respond(s, b) => self.rec.push(Rec::Respond(s, b)),
                }
            }
            next = match self.phase() {
                Phase::Append => Some(Input::Appended { due: true, display: self.stream.clone() }),
                Phase::Sending(_) => Some(Input::Sent(true)),
                Phase::Frozen | Phase::Finished | Phase::Settled => {
                    Some(Input::Stream { active: self.active, text: self.stream.clone() })
                }
                Phase::Event | Phase::Decision | Phase::Done => None,
            };
        }
    }

    fn event(&mut self, event: AgentEvent) {
        let (active, idle) = (self.active, self.stream.is_empty());
        self.feed(Input::Event { event, active, idle });
    }

    fn result(self) -> EventLoopResult {
        self.turn.unwrap().into_result()
    }
}

fn drive_with_display(events: Vec<AgentEvent>, inplace: bool, display: DisplayConfig) -> Vec<Rec> {
    let mut driver = Driver::new(inplace, display, false, false);
    for e in events {
        if driver.phase() == Phase::Done {
            break;
        }
        driver.event(e);
    }
    assert_eq!(driver.phase(), Phase::Done);
    driver.rec
}

fn drive(events: Vec<AgentEvent>, inplace: bool) -> Vec<Rec> {
    drive_with_display(events, inplace, display())
}

#[test]
fn stop_flag_breaks_loop_promptly_and_stops_typing() {
    let mut driver = Driver::new(true, display(), false, true);
    driver.feed(Input::Stopped);
    assert_eq!(driver.phase(), Phase::Done);
    assert!(driver.rec.contains(&Rec::StopTyping));
    assert_eq!(driver.result().session_id, None);
}

#[test]
fn inplace_mode_coalesces_tools_into_one_progress_message() {
    let rec = drive(
        vec![
            tool_ev("Bash", "ls -la"),
            tool_ev("Edit", "/x/a.rs"),
            tool_ev("Read", "/x/b.rs"),
            result_ev("最终答案"),
        ],
        true,
    );

    // Exactly one preview created — not one per tool.
    let creates = rec.iter().filter(|r| matches!(r, Rec::PreviewCreate(_))).count();
    assert_eq!(creates, 1, "exactly one progress preview: {rec:?}");

    // Never deleted — the trace stays in the chat.
    assert!(
        !rec.iter().any(|r| matches!(r, Rec::PreviewDelete)),
        "progress must not be deleted: {rec:?}"
    );

    // The last preview write is the finalize (done form, all three tools).
    let last_preview = rec
        .iter()
        .rev()
        .find_map(|r| match r {
            Rec::PreviewUpdate(t) | Rec::PreviewCreate(t) => Some(t.clone()),
            _ => None,
        })
        .expect("a preview write");
    assert!(last_preview.starts_with("✓ 完成 (3 步)"), "final: {last_preview}");
    assert!(last_preview.contains("Bash: ls -la"), "final: {last_preview}");
    assert!(!last_preview.contains('▸'), "no current marker: {last_preview}");

    // Final answer replied; no per-tool "⚡" spam.
    assert!(
        rec.iter().any(|r| matches!(r, Rec::Reply(c) if c.contains("最终答案"))),
        "final answer replied: {rec:?}"
    );
    assert!(
        !rec.iter().any(|r| matches!(r, Rec::Reply(c) if c.starts_with("⚡ "))),
        "no per-tool chat spam: {rec:?}"
    );
}

#[test]
fn non_inplace_mode_keeps_per_tool_messages() {
    let rec = drive(
        vec![tool_ev("Bash", "ls"), tool_ev("Edit", "/x/a.rs"), result_ev("done")],
        false,
    );

    let tool_msgs = rec
        .iter()
        .filter(|r| matches!(r, Rec::Reply(c) if c.starts_with("⚡ ")))
        .count();
    assert_eq!(tool_msgs, 2, "one chat message per tool: {rec:?}");
    assert!(
        !rec.iter().any(|r| matches!(r, Rec::PreviewCreate(t) if t.contains("处理中"))),
        "no progress preview in non-inplace mode: {rec:?}"
    );
}

#[test]
fn reply_chunks_accumulate_into_one_message() {
    let rec = drive(
        vec![
            reply_ev("先看前端结构", true),     // thinking
            reply_ev("我打算改 App.tsx", false), // text
            reply_ev("改完跑测试", false),       // text
            result_ev("最终答案"),
        ],
        true,
    );

    let creates = rec.iter().filter(|r| matches!(r, Rec::PreviewCreate(_))).count();
    assert_eq!(creates, 1, "all chunks share one message: {rec:?}");

    // The last edit holds all three pieces, thinking marked with 💭.
    let last = rec
        .iter()
        .rev()
        .find_map(|r| match r {
            Rec::PreviewUpdate(t) | Rec::PreviewCreate(t) => Some(t.clone()),
            _ => None,
        })
        .expect("a preview write");
    assert!(last.contains("💭 先看前端结构"), "thinking marked: {last}");
    assert!(last.contains("我打算改 App.tsx"), "{last}");
    assert!(last.contains("改完跑测试"), "{last}");
    // Final answer still delivered as its own reply (not part of the chunk msg).
    assert!(
        rec.iter().any(|r| matches!(r, Rec::Reply(c) if c.contains("最终答案"))),
        "final answer replied: {rec:?}"
    );
}

#[test]
fn reply_chunks_saturate_then_open_new_message() {
    let big = "字".repeat(1000);
    let rec = drive(
        vec![reply_ev(&big, false), reply_ev(&big, false), result_ev("done")],
        true,
    );

    let creates = rec.iter().filter(|r| matches!(r, Rec::PreviewCreate(_))).count();
    assert_eq!(creates, 2, "second chunk opens a new message: {rec:?}");
}

#[test]
fn single_oversized_reply_chunk_is_split() {
    let huge = "字".repeat(5000);
    let rec = drive(vec![reply_ev(&huge, false), result_ev("done")], true);

    let creates: Vec<&Rec> = rec.iter().filter(|r| matches!(r, Rec::PreviewCreate(_))).collect();
    assert!(creates.len() >= 3, "5000 chars split into ≥3 messages: {}", creates.len());
    // Every emitted body is within the cap.
    for r in &rec {
        if let Rec::PreviewCreate(t) | Rec::PreviewUpdate(t) = r {
            assert!(
                t.chars().count() <= 1900,
                "every message within cap, got {} chars",
                t.chars().count()
            );
        }
    }
}

#[test]
fn reply_chunks_do_not_create_progress_message() {
    // A reply-only turn (no tools) must not produce a tool-progress message.
    let rec = drive(vec![reply_ev("just thinking", true), result_ev("done")], true);
    assert!(
        !rec.iter().any(|r| matches!(r, Rec::PreviewCreate(t) if t.contains("处理中") || t.contains("完成"))),
        "no progress message from reply chunks: {rec:?}"
    );
}

#[test]
fn verbose_off_suppresses_progress_and_reply_chunks_but_keeps_final() {
    let quiet = DisplayConfig { verbose: false, ..display() };
    let rec = drive_with_display(
        vec![
            reply_ev("内部思考", true),
            tool_ev("Bash", "ls"),
            tool_ev("Edit", "/x/a.rs"),
            reply_ev("中间说明", false),
            result_ev("最终答案"),
        ],
        true,
        quiet,
    );

    // No progress preview, no reply-chunk preview during the turn.
    assert!(
        !rec.iter().any(|r| matches!(r, Rec::PreviewCreate(_) | Rec::PreviewUpdate(_))),
        "verbose off must emit no in-progress messages: {rec:?}"
    );
    assert!(
        !rec.iter().any(|r| matches!(r, Rec::Reply(c) if c.starts_with("⚡") || c.starts_with("💭"))),
        "verbose off must not relay tool/thinking chatter: {rec:?}"
    );
    // The final answer is still delivered.
    assert!(
        rec.iter().any(|r| matches!(r, Rec::Reply(c) if c.contains("最终答案"))),
        "final reply must still ship when quiet: {rec:?}"
    );
}

#[test]
fn streamed_text_becomes_the_reply() {
    let mut driver = Driver::new(false, display(), false, true);
    driver.event(AgentEvent::Text { content: "Hel".to_string() });
    driver.event(AgentEvent::Text { content: "lo".to_string() });
    driver.event(AgentEvent::Keepalive);
    driver.event(result_ev(""));
    assert_eq!(driver.phase(), Phase::Done);
    assert_eq!(driver.rec[0], Rec::StopTyping);
    assert!(driver.rec.contains(&Rec::PreviewCreate("Hel".to_string())));
    assert!(driver.rec.contains(&Rec::PreviewUpdate("Hello".to_string())));
    let result = driver.result();
    assert_eq!(result.final_text, "Hello");
    assert_eq!(result.session_id.as_deref(), Some("s1"));
}

fn ask(options: Vec<PermissionOption>) -> AgentEvent {
    AgentEvent::PermissionRequest {
        request_id: "r1".to_string(),
        tool: "Bash".to_string(),
        input: serde_json::from_str(r#"{"command":"ls"}"#).unwrap(),
        options,
    }
}

#[test]
fn permission_requests_are_answered_once() {
    for (decision, allow) in [
        (PermissionDecision::Allow, true),
        (PermissionDecision::Deny, false),
        (PermissionDecision::AllowAll, true),
    ] {
        let mut driver = Driver::new(false, display(), true, false);
        driver.event(ask(vec![]));
        assert_eq!(driver.phase(), Phase::Decision);
        assert!(driver.pending);
        driver.feed(Input::Decided(decision));
        assert!(!driver.pending);
        let answers: Vec<&Rec> =
            driver.rec.iter().filter(|r| matches!(r, Rec::Respond(_, _))).collect();
        assert_eq!(answers, vec![&Rec::Respond("r1".to_string(), allow)]);
        // With everything allowed the next request is not asked.
        driver.event(ask(vec![]));
        if decision == PermissionDecision::AllowAll {
            assert!(driver.turn.as_ref().unwrap().approve_all());
            assert_eq!(driver.phase(), Phase::Event);
        } else {
            assert_eq!(driver.phase(), Phase::Decision);
        }
    }
}

#[test]
fn permission_options_become_buttons() {
    let mut driver = Driver::new(false, display(), true, false);
    driver.event(ask(vec![PermissionOption {
        option_id: "o1".to_string(),
        label: "Go".to_string(),
    }]));
    let buttons: Vec<(String, String)> = driver
        .rec
        .iter()
        .find_map(|r| match r {
            Rec::Buttons(_, b) => Some(b.clone()),
            _ => None,
        })
        .unwrap();
    assert_eq!(buttons, vec![("Go".to_string(), "perm_opt:r1:o1".to_string())]);
    driver.feed(Input::DecisionTimeout);
    assert!(driver.rec.contains(&Rec::Respond("r1".to_string(), false)));
}

#[test]
fn errors_and_silence_end_a_turn() {
    let mut driver = Driver::new(false, display(), false, true);
    driver.feed(Input::IdleTimeout);
    assert_eq!(driver.phase(), Phase::Done);
    assert!(driver.rec.contains(&Rec::Reply("💤 等太久了，Agent 没响应".to_string())));
    let mut driver = Driver::new(false, display(), false, true);
    driver.event(AgentEvent::Error { message: "boom".to_string() });
    assert_eq!(driver.phase(), Phase::Done);
    assert!(driver.rec.iter().any(|r| matches!(r, Rec::Reply(c) if c.contains("boom"))));
    let mut driver = Driver::new(false, display(), false, false);
    driver.feed(Input::Closed);
    assert_eq!(driver.phase(), Phase::Done);
    assert_eq!(driver.result().final_text, "");
}

#[test]
fn tables_are_rewritten_unless_the_platform_renders_them() {
    let table = "| a | b |\n|---|---|\n| 1 | 2 |";
    let rec = drive(vec![result_ev(table)], false);
    assert!(rec.iter().any(|r| matches!(r, Rec::Reply(c) if c.starts_with("```\n"))), "{rec:?}");
    let (turn, _) = Turn::new(display(), false, true, true, false, false, false)
        .step(Input::Event { event: result_ev(table), active: false, idle: true });
    let (turn, steps) = turn.step(Input::Stream { active: false, text: String::new() });
    assert!(steps.iter().any(|s| matches!(s, Action::Reply(c) if c == table)));
    assert_eq!(turn.into_result().final_text, table);
}

#[test]
fn context_use_is_shown() {
    let shown = DisplayConfig { context_indicator: true, context_window: 1000, ..display() };
    let mut driver = Driver::new(false, shown, false, false);
    driver.event(AgentEvent::Result {
        content: "answer".to_string(),
        session_id: "s".to_string(),
        input_tokens: 250,
        output_tokens: 3,
    });
    let result = driver.result();
    assert!(result.final_text.starts_with("answer"));
    assert!(result.final_text.contains("25%"), "{}", result.final_text);
    assert_eq!(result.input_tokens, 250);
    assert_eq!(result.output_tokens, 3);
}

#[test]
fn thinking_keeps_its_mark_without_an_updater() {
    let turn = Turn::new(display(), true, false, false, false, false, false);
    let event = reply_ev(" 先看前端结构 ", true);
    let (turn, steps) = turn.step(Input::Event { event, active: false, idle: true });
    assert_eq!(steps.len(), 1);
    assert!(matches!(&steps[0], Action::Reply(s) if s == "💭 先看前端结构"));
    let event = reply_ev(" text ", false);
    let (_, steps) = turn.step(Input::Event { event, active: false, idle: true });
    assert_eq!(steps.len(), 1);
    assert!(matches!(&steps[0], Action::Reply(s) if s == " text "));
}

#[test]
fn typing_stops_once_in_a_turn() {
    let mut driver = Driver::new(false, display(), false, true);
    driver.event(AgentEvent::Text { content: "hi".to_string() });
    driver.event(tool_ev("Bash", "ls"));
    driver.event(AgentEvent::Text { content: "more".to_string() });
    driver.event(result_ev("done"));
    assert_eq!(driver.phase(), Phase::Done);
    let stops = driver.rec.iter().filter(|r| matches!(r, Rec::StopTyping)).count();
    assert_eq!(stops, 1);
}

#[test]
fn live_and_finished_progress_share_their_lines() {
    let tools: Vec<String> = (1..=10).map(|i| format!("T{i}")).collect();
    let live = render_progress(&tools, false);
    let done = render_progress(&tools, true);
    let live: Vec<&str> = live.lines().collect();
    let done: Vec<&str> = done.lines().collect();
    assert_eq!(live.len(), 10);
    assert_eq!(done.len(), 10);
    assert_eq!(live[0], "⚡ 处理中… (10 步)");
    assert_eq!(done[0], "✓ 完成 (10 步)");
    assert_eq!(live[1..9], done[1..9]);
    assert_eq!(live[9], "▸ 10. T10");
    assert_eq!(done[9], "✓ 10. T10");
}
