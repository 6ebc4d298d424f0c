//! The decisions of one agent turn.
//!
//! A [`Turn`] is fed with [`Input`]s and answers each with the [`Action`]s to
//! perform. Streamed text is kept by a stream preview outside (it throttles by
//! time); the turn tells it what to do and asks it for its text. Up to three
//! messages of the chat are edited in place, one for each [`Slot`].

use crate::config::DisplayConfig;
use crate::events::{
    format_tool_label, law_segments_are_the_text, progress, render_progress, segments, split_chars,
    tool_label,
};
use crate::json::{json, render, rendered};
use crate::message::{options_view, AgentEvent, PermissionOption};
use crate::platform::{button, buttons_view, Button};
use crate::text::{
    clip, clipped, decimal, decimal_of, lemma_occurs_in, lemma_texts_push, occurs, occurs_at, same,
    split, text_opt, texts, trim, trimmed,
};
use crate::text_format::{
    aligned, law_text_without_tables_is_untouched, tables_to_aligned, without_tables,
};
use serde_json::Value;
use vstd::prelude::*;
use vstd::string::*;

verus! {

/// The user's decision on a permission request.
#[derive(PartialEq, Eq, Structural, Clone, Copy, Debug)]
pub enum PermissionDecision {
    Allow,
    Deny,
    AllowAll,
}

/// Outcome of a turn.
#[derive(Debug)]
pub struct EventLoopResult {
    /// The complete response text.
    pub final_text: String,
    /// The agent's session id, where the turn ended in a result.
    pub session_id: Option<String>,
    pub input_tokens: u32,
    pub output_tokens: u32,
}

/// What an [`EventLoopResult`] holds.
pub struct Outcome {
    pub final_text: Seq<char>,
    pub session_id: Option<Seq<char>>,
    pub input_tokens: u32,
    pub output_tokens: u32,
}

impl View for EventLoopResult {
    type V = Outcome;

    open spec fn view(&self) -> Outcome {
        Outcome {
            final_text: self.final_text@,
            session_id: text_opt(self.session_id),
            input_tokens: self.input_tokens,
            output_tokens: self.output_tokens,
        }
    }
}

/// A message of the chat that is edited in place.
#[derive(PartialEq, Eq, Structural, Clone, Copy, Debug)]
pub enum Slot {
    /// The streamed text of the answer.
    Preview,
    /// The list of tools.
    Progress,
    /// The text between tool calls.
    Reply,
}

/// Something to do on behalf of the turn. `S` is a text, `B` a row of buttons.
pub enum Action<S, B> {
    /// Stop the typing indicator.
    StopTyping,
    /// Append text to the stream; its answer is [`Input::Appended`].
    AppendStream(S),
    /// Tell the stream that its text was shown.
    MarkSent,
    /// Freeze the stream and ask for its text ([`Input::Stream`]).
    FreezeStream,
    ResetStream,
    /// Finish the stream and ask for its text ([`Input::Stream`]).
    FinishStream,
    /// Ask the stream for its text ([`Input::Stream`]).
    AskStream,
    /// Send a message to be edited; its answer is [`Input::Sent`].
    SendPreview(Slot, S),
    UpdatePreview(Slot, S),
    /// Delete the preview of the streamed text.
    DeletePreview,
    Reply(S),
    SendButtons(S, B),
    /// Say whether a permission request waits for the user.
    SetPending(bool),
    /// Wait for the user's decision.
    AwaitDecision,
    /// Answer the agent's permission request.
    Respond(S, bool),
}

/// An action to perform.
pub type Step = Action<String, Vec<Button>>;

/// An action by its contents.
pub type Shown = Action<Seq<char>, Seq<(Seq<char>, Seq<char>)>>;

/// The contents of an action.
pub open spec fn shown(a: Step) -> Shown {
    match a {
        Action::StopTyping => Action::StopTyping,
        Action::AppendStream(s) => Action::AppendStream(s@),
        Action::MarkSent => Action::MarkSent,
        Action::FreezeStream => Action::FreezeStream,
        Action::ResetStream => Action::ResetStream,
        Action::FinishStream => Action::FinishStream,
        Action::AskStream => Action::AskStream,
        Action::SendPreview(slot, s) => Action::SendPreview(slot, s@),
        Action::UpdatePreview(slot, s) => Action::UpdatePreview(slot, s@),
        Action::DeletePreview => Action::DeletePreview,
        Action::Reply(s) => Action::Reply(s@),
        Action::SendButtons(s, b) => Action::SendButtons(s@, buttons_view(b@)),
        Action::SetPending(b) => Action::SetPending(b),
        Action::AwaitDecision => Action::AwaitDecision,
        Action::Respond(s, b) => Action::Respond(s@, b),
    }
}

/// The contents of each action in a list.
#[verifier::opaque]
pub open spec fn all_shown(v: Seq<Step>) -> Seq<Shown> {
    v.map_values(|a: Step| shown(a))
}

/// Something that happened.
pub enum Input {
    /// The user stopped the turn.
    Stopped,
    /// The agent's event channel was closed.
    Closed,
    /// No event came for the whole idle time.
    IdleTimeout,
    /// An event of the agent, and whether the stream was ever active and is
    /// idle.
    Event { event: AgentEvent, active: bool, idle: bool },
    /// The stream took the text: whether the preview is due for an update, and
    /// what it shows then.
    Appended { due: bool, display: String },
    /// Whether the message was sent.
    Sent(bool),
    /// Whether the stream was ever active, and its text.
    Stream { active: bool, text: String },
    Decided(PermissionDecision),
    /// Nobody can decide any more.
    DecisionClosed,
    DecisionTimeout,
}

/// What a turn waits for.
#[derive(PartialEq, Eq, Structural, Clone, Copy, Debug)]
pub enum Phase {
    Event,
    Append,
    Sending(Slot),
    Frozen,
    Decision,
    Finished,
    Settled,
    Done,
}

/// Whether `input` is what a turn in `phase` waits for.
pub open spec fn fits(phase: Phase, input: Input) -> bool {
    match phase {
        Phase::Event => input is Stopped || input is Closed || input is IdleTimeout
            || input is Event,
        Phase::Append => input is Appended,
        Phase::Sending(_) => input is Sent,
        Phase::Frozen | Phase::Finished | Phase::Settled => input is Stream,
        Phase::Decision => input is Decided || input is DecisionClosed || input is DecisionTimeout,
        Phase::Done => false,
    }
}

/// Soft cap, in characters, of the accumulating reply message: below the
/// hardest platform limit, with headroom.
pub const REPLY_MSG_CAP: usize = 1900;

/// The state of a turn.
pub struct TurnModel {
    pub display: DisplayConfig,
    /// Whether tools are shown in one progress message.
    pub inplace: bool,
    /// Whether the platform renders Markdown itself.
    pub markdown: bool,
    /// Whether the platform can edit messages.
    pub updater: bool,
    /// Whether the platform has inline buttons.
    pub buttons: bool,
    pub approve_all: bool,
    /// Whether the typing indicator runs.
    pub typing: bool,
    pub tools_used: bool,
    /// Whether each of the three messages stands in the chat.
    pub preview: bool,
    pub progress: bool,
    pub reply: bool,
    pub tools: Seq<Seq<char>>,
    pub reply_buf: Seq<char>,
    /// The segments of a reply piece that are still to be placed.
    pub unplaced: Seq<Seq<char>>,
    /// What follows once the stream is frozen.
    pub queued: Seq<Shown>,
    /// The permission request that waits for a decision.
    pub request: Option<Seq<char>>,
    pub outcome: Outcome,
    pub phase: Phase,
}

// ---------------------------------------------------------------------------
// Texts
// ---------------------------------------------------------------------------

pub open spec fn thinking_text(content: Seq<char>, max: nat) -> Seq<char> {
    "🧠 "@ + clipped(content, max, "..."@)
}

/// One tool call as a message of its own.
pub open spec fn tool_text(tool: Seq<char>, input: Seq<char>, max: nat) -> Seq<char> {
    "⚡ "@ + tool + " › "@ + (if tool == "Bash"@ {
        "```bash\n"@ + clipped(input, max, "..."@) + "\n```"@
    } else {
        "`"@ + clipped(input, max, "..."@) + "`"@
    })
}

pub open spec fn tool_result_text(output: Seq<char>, is_error: bool, max: nat) -> Seq<char> {
    (if is_error {
        "💥"@
    } else {
        "✓"@
    }) + " "@ + clipped(output, max, "..."@)
}

pub open spec fn permission_text(tool: Seq<char>, summary: Seq<char>) -> Seq<char> {
    "🔐 需要你的确认\n⚡ 工具: "@ + tool + "\n📋 参数: "@ + summary
}

pub open spec fn permission_hint(text: Seq<char>) -> Seq<char> {
    text + "\n\n回复 `allow` 允许 / `deny` 拒绝 / `allow all` 全部允许"@
}

/// The buttons of a permission request: those that the agent offers, or the
/// three default ones.
pub open spec fn permission_buttons(
    request_id: Seq<char>,
    options: Seq<(Seq<char>, Seq<char>)>,
) -> Seq<(Seq<char>, Seq<char>)> {
    if options.len() == 0 {
        seq![
            ("👍 放行"@, "perm_approve:"@ + request_id),
            ("🚫 拦截"@, "perm_deny:"@ + request_id),
            ("⚡ 全部放行"@, "perm_allow_all:"@ + request_id),
        ]
    } else {
        options.map_values(
            |o: (Seq<char>, Seq<char>)| (o.1, "perm_opt:"@ + request_id + ":"@ + o.0),
        )
    }
}

/// A reply piece as it is shown.
pub open spec fn reply_piece(content: Seq<char>, thinking: bool) -> Seq<char> {
    if thinking {
        "💭 "@ + trimmed(content)
    } else {
        trimmed(content)
    }
}

/// How full the context window is, in percent.
pub open spec fn context_percent(input_tokens: int, window: int) -> nat {
    if input_tokens * 100 / window > 100 {
        100
    } else {
        (input_tokens * 100 / window) as nat
    }
}

/// The final reply: Markdown tables are rewritten where the platform does not
/// render them, and the use of the context window may be appended.
#[verifier::opaque]
pub open spec fn final_reply(m: TurnModel, raw: Seq<char>, input_tokens: u32) -> Seq<char> {
    let body = if m.markdown {
        raw
    } else {
        aligned(raw)
    };
    if m.display.context_indicator && input_tokens > 0 && m.display.context_window > 0 {
        body + "\n\n[ctx: ~"@ + decimal(
            context_percent(input_tokens as int, m.display.context_window as int),
        ) + "%]"@
    } else {
        body
    }
}

// ---------------------------------------------------------------------------
// Transitions
// ---------------------------------------------------------------------------

/// No actions.
pub open spec fn none() -> Seq<Shown> {
    Seq::empty()
}

/// The actions `acts`, and the typing indicator stops where it runs.
pub open spec fn stop_typing(m: TurnModel, acts: Seq<Shown>) -> Seq<Shown> {
    if m.typing {
        acts.push(Action::StopTyping)
    } else {
        acts
    }
}

/// The actions `acts`, and the preview of the streamed text is deleted where
/// it stands in the chat.
pub open spec fn discard(m: TurnModel, acts: Seq<Shown>) -> Seq<Shown> {
    if m.preview && m.updater {
        acts.push(Action::DeletePreview)
    } else {
        acts
    }
}

/// The turn is over after the actions `acts`: the typing indicator stops, and
/// where there is no final text yet the streamed text may still be one.
pub open spec fn leave(m: TurnModel, acts: Seq<Shown>) -> (TurnModel, Seq<Shown>) {
    if m.outcome.final_text.len() == 0 {
        (
            TurnModel { typing: false, phase: Phase::Settled, ..m },
            stop_typing(m, acts).push(Action::AskStream),
        )
    } else {
        (TurnModel { typing: false, phase: Phase::Done, ..m }, stop_typing(m, acts))
    }
}

/// What is waited for once the queued actions are out.
pub open spec fn next_phase(m: TurnModel) -> Phase {
    if m.request is Some {
        Phase::Decision
    } else {
        Phase::Event
    }
}

/// The actions `acts`, once an active stream has been frozen and its preview
/// has been left behind with the whole text.
pub open spec fn freeze_then(
    m: TurnModel,
    active: bool,
    idle: bool,
    acts: Seq<Shown>,
) -> (TurnModel, Seq<Shown>) {
    if !active || idle {
        (TurnModel { phase: next_phase(m), ..m }, acts)
    } else {
        (TurnModel { queued: acts, phase: Phase::Frozen, ..m }, none().push(Action::FreezeStream))
    }
}

/// Whether a segment needs a new reply message: there is none yet, or the
/// segment does not fit on a line of its own.
pub open spec fn needs_new_reply(m: TurnModel, segment: Seq<char>) -> bool {
    !m.reply || m.reply_buf.len() + 1 + segment.len() > REPLY_MSG_CAP
}

/// The text of the reply message with a segment added.
pub open spec fn appended_reply(buf: Seq<char>, segment: Seq<char>) -> Seq<char> {
    if buf.len() == 0 {
        segment
    } else {
        buf + "\n"@ + segment
    }
}

/// Places the segments that are left, after the actions `acts`: each goes into
/// the reply message where it fits, and into a new one otherwise.
#[verifier::opaque]
pub open spec fn place(m: TurnModel, acts: Seq<Shown>) -> (TurnModel, Seq<Shown>)
    decreases m.unplaced.len(),
{
    if m.unplaced.len() == 0 {
        (TurnModel { phase: Phase::Event, ..m }, acts)
    } else {
        let segment = m.unplaced[0];
        let m1 = TurnModel { unplaced: m.unplaced.skip(1), ..m };
        if needs_new_reply(m1, segment) {
            (
                TurnModel { reply_buf: segment, phase: Phase::Sending(Slot::Reply), ..m1 },
                acts.push(Action::SendPreview(Slot::Reply, segment)),
            )
        } else {
            let buf = appended_reply(m.reply_buf, segment);
            place(
                TurnModel { reply_buf: buf, ..m1 },
                acts.push(Action::UpdatePreview(Slot::Reply, buf)),
            )
        }
    }
}

pub open spec fn on_text(m: TurnModel, content: Seq<char>) -> (TurnModel, Seq<Shown>) {
    if content.len() == 0 {
        (m, none())
    } else {
        (
            TurnModel { typing: false, phase: Phase::Append, ..m },
            stop_typing(m, none()).push(Action::AppendStream(content)),
        )
    }
}

pub open spec fn on_thinking(
    m: TurnModel,
    content: Seq<char>,
    active: bool,
    idle: bool,
) -> (TurnModel, Seq<Shown>) {
    if m.display.verbose && m.display.thinking_messages && content.len() > 0 {
        freeze_then(
            m,
            active,
            idle,
            none().push(Action::Reply(thinking_text(content, m.display.thinking_max_len as nat))),
        )
    } else {
        (m, none())
    }
}

pub open spec fn on_reply_chunk(m: TurnModel, content: Seq<char>, thinking: bool) -> (
    TurnModel,
    Seq<Shown>,
) {
    if !m.display.verbose || trimmed(content).len() == 0 {
        (m, none())
    } else if !m.updater {
        (
            m,
            none().push(
                Action::Reply(
                    if thinking {
                        reply_piece(content, thinking)
                    } else {
                        content
                    },
                ),
            ),
        )
    } else {
        place(
            TurnModel {
                unplaced: segments(reply_piece(content, thinking), REPLY_MSG_CAP as nat),
                ..m
            },
            none(),
        )
    }
}

pub open spec fn on_tool_use(
    m: TurnModel,
    tool: Seq<char>,
    input: Seq<char>,
    active: bool,
    idle: bool,
) -> (TurnModel, Seq<Shown>) {
    let m1 = TurnModel { tools_used: true, ..m };
    if !m.display.verbose || !m.display.tool_messages {
        (m1, none())
    } else if m.inplace {
        let tools = m.tools.push(tool_label(tool, input, m.display.tool_max_len as nat));
        let m2 = TurnModel { tools, ..m1 };
        if !m.updater {
            (m2, none())
        } else if m.progress {
            (m2, none().push(Action::UpdatePreview(Slot::Progress, progress(tools, false))))
        } else {
            (
                TurnModel { phase: Phase::Sending(Slot::Progress), ..m2 },
                none().push(Action::SendPreview(Slot::Progress, progress(tools, false))),
            )
        }
    } else {
        freeze_then(
            m1,
            active,
            idle,
            none().push(Action::Reply(tool_text(tool, input, m.display.tool_max_len as nat))),
        )
    }
}

pub open spec fn on_tool_result(m: TurnModel, output: Seq<char>, is_error: bool) -> (
    TurnModel,
    Seq<Shown>,
) {
    if m.display.verbose && m.display.tool_messages && output.len() > 0 {
        (
            m,
            none().push(Action::Reply(tool_result_text(output, is_error, m.display.tool_max_len as nat))),
        )
    } else {
        (m, none())
    }
}

/// The prompt of a permission request, with buttons where the platform has
/// them.
pub open spec fn prompt(
    m: TurnModel,
    request_id: Seq<char>,
    tool: Seq<char>,
    summary: Seq<char>,
    options: Seq<(Seq<char>, Seq<char>)>,
) -> Shown {
    let text = permission_text(tool, summary);
    if m.buttons {
        Action::SendButtons(text, permission_buttons(request_id, options))
    } else {
        Action::Reply(permission_hint(text))
    }
}

pub open spec fn on_permission(
    m: TurnModel,
    request_id: Seq<char>,
    tool: Seq<char>,
    summary: Seq<char>,
    options: Seq<(Seq<char>, Seq<char>)>,
    active: bool,
    idle: bool,
) -> (TurnModel, Seq<Shown>) {
    if m.approve_all {
        (
            m,
            none().push(Action::Respond(request_id, true)).push(
                Action::Reply("⚡ "@ + tool + " › auto"@),
            ),
        )
    } else {
        freeze_then(
            TurnModel { request: Some(request_id), ..m },
            active,
            idle,
            none().push(Action::SetPending(true)).push(
                prompt(m, request_id, tool, summary, options),
            ).push(Action::AwaitDecision),
        )
    }
}

/// The actions `acts`, and the progress message, where there is one, shows all
/// tools as done.
pub open spec fn settle_progress(m: TurnModel, acts: Seq<Shown>) -> Seq<Shown> {
    if m.progress && m.tools.len() > 0 && m.updater {
        acts.push(Action::UpdatePreview(Slot::Progress, progress(m.tools, true)))
    } else {
        acts
    }
}

/// The end of a turn; an empty result of a resumed session is passed over.
pub open spec fn on_result(
    m: TurnModel,
    content: Seq<char>,
    session_id: Seq<char>,
    input_tokens: u32,
    output_tokens: u32,
    active: bool,
) -> (TurnModel, Seq<Shown>) {
    if !m.inplace && input_tokens == 0 && output_tokens == 0 && content.len() == 0 && !active {
        (m, none())
    } else {
        (
            TurnModel {
                typing: false,
                progress: false,
                tools: Seq::empty(),
                outcome: Outcome {
                    final_text: content,
                    session_id: Some(session_id),
                    input_tokens,
                    output_tokens,
                },
                phase: Phase::Finished,
                ..m
            },
            settle_progress(m, stop_typing(m, none())).push(Action::FinishStream),
        )
    }
}

/// The final reply is sent: in place of the preview, or as a new message where
/// tools were used or there is no preview.
pub open spec fn on_finished(m: TurnModel, active: bool, text: Seq<char>) -> (
    TurnModel,
    Seq<Shown>,
) {
    let content = m.outcome.final_text;
    let raw = if content.len() > 0 {
        content
    } else if active {
        text
    } else {
        "(no response)"@
    };
    let reply = final_reply(m, raw, m.outcome.input_tokens);
    let m1 = TurnModel { outcome: Outcome { final_text: reply, ..m.outcome }, ..m };
    if m.tools_used {
        leave(
            TurnModel { preview: false, ..m1 },
            discard(m, none()).push(Action::Reply(reply)),
        )
    } else if m.preview {
        leave(
            m1,
            if m.updater {
                none().push(Action::UpdatePreview(Slot::Preview, reply))
            } else {
                none()
            },
        )
    } else {
        leave(m1, none().push(Action::Reply(reply)))
    }
}

pub open spec fn on_error(m: TurnModel, message: Seq<char>) -> (TurnModel, Seq<Shown>) {
    let text = "💥 "@ + message;
    leave(
        TurnModel {
            typing: false,
            preview: false,
            outcome: Outcome { final_text: text, ..m.outcome },
            ..m
        },
        discard(m, stop_typing(m, none())).push(Action::Reply(text)),
    )
}

pub open spec fn on_appended(m: TurnModel, due: bool, display: Seq<char>) -> (
    TurnModel,
    Seq<Shown>,
) {
    if !due || !m.updater {
        (TurnModel { phase: Phase::Event, ..m }, none())
    } else if m.preview {
        (
            TurnModel { phase: Phase::Event, ..m },
            none().push(Action::UpdatePreview(Slot::Preview, display)).push(Action::MarkSent),
        )
    } else {
        (
            TurnModel { phase: Phase::Sending(Slot::Preview), ..m },
            none().push(Action::SendPreview(Slot::Preview, display)),
        )
    }
}

/// A message that is edited in place was sent, or could not be.
pub open spec fn on_sent(m: TurnModel, slot: Slot, ok: bool) -> (TurnModel, Seq<Shown>) {
    if slot == Slot::Reply {
        place(TurnModel { reply: ok, ..m }, none())
    } else if slot == Slot::Progress {
        (TurnModel { progress: ok, phase: Phase::Event, ..m }, none())
    } else if ok {
        (TurnModel { preview: true, phase: Phase::Event, ..m }, none().push(Action::MarkSent))
    } else {
        (TurnModel { preview: false, phase: Phase::Event, ..m }, none())
    }
}

pub open spec fn on_frozen(m: TurnModel, text: Seq<char>) -> (TurnModel, Seq<Shown>) {
    (
        TurnModel { preview: false, queued: Seq::empty(), phase: next_phase(m), ..m },
        (if m.preview && m.updater && text.len() > 0 {
            none().push(Action::UpdatePreview(Slot::Preview, text))
        } else {
            none()
        }).push(Action::ResetStream) + m.queued,
    )
}

/// The user's decision; `None` where the time ran out.
pub open spec fn on_decided(m: TurnModel, decision: Option<PermissionDecision>) -> (
    TurnModel,
    Seq<Shown>,
) {
    let id = m.request->0;
    let allow = decision == Some(PermissionDecision::Allow) || decision == Some(
        PermissionDecision::AllowAll,
    );
    (
        TurnModel {
            approve_all: m.approve_all || decision == Some(PermissionDecision::AllowAll),
            request: None,
            phase: Phase::Event,
            ..m
        },
        none().push(Action::SetPending(false)).push(Action::Respond(id, allow)).push(
            Action::Reply(
                match decision {
                    Some(PermissionDecision::Allow) => "👍 已放行"@,
                    Some(PermissionDecision::Deny) => "🚫 已拦截"@,
                    Some(PermissionDecision::AllowAll) => "👍 已放行（后续自动通过）"@,
                    None => "💤 权限确认超时，已自动拦截"@,
                },
            ),
        ),
    )
}

pub open spec fn on_settled(m: TurnModel, active: bool, text: Seq<char>) -> (
    TurnModel,
    Seq<Shown>,
) {
    if active {
        (
            TurnModel {
                preview: false,
                outcome: Outcome { final_text: text, ..m.outcome },
                phase: Phase::Done,
                ..m
            },
            discard(m, none()).push(Action::Reply(text)),
        )
    } else {
        (TurnModel { phase: Phase::Done, ..m }, none())
    }
}

pub open spec fn on_event(m: TurnModel, event: AgentEvent, active: bool, idle: bool) -> (
    TurnModel,
    Seq<Shown>,
) {
    match event {
        AgentEvent::Text { content } => on_text(m, content@),
        AgentEvent::Thinking { content } => on_thinking(m, content@, active, idle),
        AgentEvent::ReplyChunk { content, thinking } => on_reply_chunk(m, content@, thinking),
        AgentEvent::ToolUse { id, tool, input } => on_tool_use(m, tool@, input@, active, idle),
        AgentEvent::ToolResult { output, is_error } => on_tool_result(m, output@, is_error),
        AgentEvent::PermissionRequest { request_id, tool, input, options } => on_permission(
            m,
            request_id@,
            tool@,
            clipped(rendered(json(input)), 200, "..."@),
            options_view(options@),
            active,
            idle,
        ),
        AgentEvent::System { session_id, tools, skills } => (m, none()),
        AgentEvent::Keepalive => (m, none()),
        AgentEvent::Result { content, session_id, input_tokens, output_tokens } => on_result(
            m,
            content@,
            session_id@,
            input_tokens,
            output_tokens,
            active,
        ),
        AgentEvent::Error { message } => on_error(m, message@),
    }
}

/// The next state of a turn, and what is to be done, for an input that it
/// waits for.
pub open spec fn next(m: TurnModel, input: Input) -> (TurnModel, Seq<Shown>) {
    match input {
        Input::Stopped | Input::Closed => leave(
            TurnModel { preview: false, ..m },
            discard(m, none()),
        ),
        Input::IdleTimeout => leave(
            TurnModel { preview: false, ..m },
            discard(m, none()).push(Action::Reply("💤 等太久了，Agent 没响应"@)),
        ),
        Input::Event { event, active, idle } => on_event(m, event, active, idle),
        Input::Appended { due, display } => on_appended(m, due, display@),
        Input::Sent(ok) => on_sent(m, m.phase->Sending_0, ok),
        Input::Stream { active, text } => if m.phase == Phase::Frozen {
            on_frozen(m, text@)
        } else if m.phase == Phase::Finished {
            on_finished(m, active, text@)
        } else {
            on_settled(m, active, text@)
        },
        Input::Decided(d) => on_decided(m, Some(d)),
        Input::DecisionTimeout => on_decided(m, None),
        Input::DecisionClosed => leave(
            TurnModel { request: None, ..m },
            none().push(Action::SetPending(false)).push(Action::Respond(m.request->0, false)),
        ),
    }
}


// ---------------------------------------------------------------------------
// The turn
// ---------------------------------------------------------------------------

/// One turn of an agent.
pub struct Turn {
    display: DisplayConfig,
    inplace: bool,
    markdown: bool,
    updater: bool,
    buttons: bool,
    approve_all: bool,
    typing: bool,
    tools_used: bool,
    preview: bool,
    progress: bool,
    reply: bool,
    tools: Vec<String>,
    reply_buf: String,
    unplaced: Vec<String>,
    queued: Vec<Step>,
    request: Option<String>,
    outcome: EventLoopResult,
    phase: Phase,
}

impl View for Turn {
    type V = TurnModel;

    closed spec fn view(&self) -> TurnModel {
        TurnModel {
            display: self.display,
            inplace: self.inplace,
            markdown: self.markdown,
            updater: self.updater,
            buttons: self.buttons,
            approve_all: self.approve_all,
            typing: self.typing,
            tools_used: self.tools_used,
            preview: self.preview,
            progress: self.progress,
            reply: self.reply,
            tools: texts(self.tools@),
            reply_buf: self.reply_buf@,
            unplaced: texts(self.unplaced@),
            queued: all_shown(self.queued@),
            request: text_opt(self.request),
            outcome: self.outcome@,
            phase: self.phase,
        }
    }
}

/// What holds of a turn whenever it waits: a decision is waited for exactly
/// while a request is open (but for the time the stream takes to freeze),
/// messages are edited only where the platform can, the reply message and what
/// is still to go into one stay within the cap, no indicator runs once the turn
/// is over, and actions are queued only while the stream freezes, none of which
/// stops the indicator or answers a request.
pub open spec fn well_formed(m: TurnModel) -> bool {
    &&& m.phase == Phase::Decision ==> m.request is Some
    &&& m.request is Some ==> m.phase == Phase::Decision || m.phase == Phase::Frozen
    &&& m.preview || m.progress || m.reply || m.phase is Sending ==> m.updater
    &&& m.reply_buf.len() <= REPLY_MSG_CAP
    &&& within_cap(m.unplaced)
    &&& m.phase == Phase::Settled || m.phase == Phase::Done ==> !m.typing
    &&& m.phase != Phase::Frozen ==> m.queued.len() == 0
    &&& forall|i: int|
        0 <= i < m.queued.len() ==> !(#[trigger] m.queued[i] is StopTyping)
            && !(m.queued[i] is Respond)
}

/// Whether each segment fits into one message.
pub open spec fn within_cap(segments: Seq<Seq<char>>) -> bool {
    forall|i: int| 0 <= i < segments.len() ==> (#[trigger] segments[i]).len() <= REPLY_MSG_CAP
}

/// A turn before its first event.
pub open spec fn fresh(
    display: DisplayConfig,
    inplace: bool,
    markdown: bool,
    updater: bool,
    buttons: bool,
    approve_all: bool,
    typing: bool,
) -> TurnModel {
    TurnModel {
        display,
        inplace,
        markdown,
        updater,
        buttons,
        approve_all,
        typing,
        tools_used: false,
        preview: false,
        progress: false,
        reply: false,
        tools: Seq::empty(),
        reply_buf: Seq::empty(),
        unplaced: Seq::empty(),
        queued: Seq::empty(),
        request: None,
        outcome: Outcome {
            final_text: Seq::empty(),
            session_id: None,
            input_tokens: 0,
            output_tokens: 0,
        },
        phase: Phase::Event,
    }
}

/// Whether a turn and its actions are those of the model.
pub open spec fn agrees(r: (Turn, Vec<Step>), want: (TurnModel, Seq<Shown>)) -> bool {
    r.0@ == want.0 && all_shown(r.1@) == want.1
}

fn no_steps() -> (r: Vec<Step>)
    ensures
        all_shown(r@) == none(),
{
    let r: Vec<Step> = Vec::new();
    proof {
        reveal(all_shown);
        assert(all_shown(r@) =~= none());
    }
    r
}

fn also(out: Vec<Step>, a: Step) -> (r: Vec<Step>)
    ensures
        all_shown(r@) == all_shown(out@).push(shown(a)),
{
    let mut r: Vec<Step> = out;
    proof {
        reveal(all_shown);
        assert(all_shown(r@.push(a)) =~= all_shown(r@).push(shown(a)));
    }
    r.push(a);
    r
}

fn also_all(out: Vec<Step>, more: Vec<Step>) -> (r: Vec<Step>)
    ensures
        all_shown(r@) == all_shown(out@) + all_shown(more@),
{
    let mut r: Vec<Step> = out;
    let mut rest: Vec<Step> = more;
    proof {
        reveal(all_shown);
        assert(all_shown(r@ + rest@) =~= all_shown(r@) + all_shown(rest@));
    }
    r.append(&mut rest);
    r
}

/// `SendButtons` with the buttons of a permission request.
fn make_buttons(request_id: &str, options: &Vec<PermissionOption>) -> (r: Vec<Button>)
    ensures
        buttons_view(r@) == permission_buttons(request_id@, options_view(options@)),
{
    let mut r: Vec<Button> = Vec::new();
    if options.len() == 0 {
        let mut approve: String = "perm_approve:".to_owned();
        approve.append(request_id);
        let mut deny: String = "perm_deny:".to_owned();
        deny.append(request_id);
        let mut all: String = "perm_allow_all:".to_owned();
        all.append(request_id);
        r.push(button("👍 放行", approve));
        r.push(button("🚫 拦截", deny));
        r.push(button("⚡ 全部放行", all));
        assert(buttons_view(r@) =~= permission_buttons(request_id@, options_view(options@)));
        return r;
    }
    let ghost want = permission_buttons(request_id@, options_view(options@));
    let mut i: usize = 0;
    while i < options.len()
        invariant
            i <= options.len(),
            options.len() > 0,
            want == permission_buttons(request_id@, options_view(options@)),
            buttons_view(r@) == want.take(i as int),
        decreases options.len() - i,
    {
        let mut data: String = "perm_opt:".to_owned();
        data.append(request_id);
        data.append(":");
        data.append(options[i].option_id.as_str());
        let b: Button = button(options[i].label.as_str(), data);
        proof {
            assert(options_view(options@)[i as int] == options[i as int]@);
            assert(want[i as int] == b@);
            assert(buttons_view(r@.push(b)) =~= buttons_view(r@).push(b@));
            assert(want.take(i as int).push(b@) =~= want.take(i + 1));
        }
        r.push(b);
        i += 1;
    }
    assert(want.take(options.len() as int) =~= want);
    r
}

impl Turn {
    /// A turn before its first event. `inplace` gathers tools in one progress
    /// message; `markdown`, `updater` and `buttons` say what the platform can
    /// do; `typing` whether a typing indicator runs.
    pub fn new(
        display: DisplayConfig,
        inplace: bool,
        markdown: bool,
        updater: bool,
        buttons: bool,
        approve_all: bool,
        typing: bool,
    ) -> (r: Turn)
        ensures
            r@ == fresh(display, inplace, markdown, updater, buttons, approve_all, typing),
            well_formed(r@),
    {
        let r: Turn = Turn {
            display,
            inplace,
            markdown,
            updater,
            buttons,
            approve_all,
            typing,
            tools_used: false,
            preview: false,
            progress: false,
            reply: false,
            tools: Vec::new(),
            reply_buf: String::new(),
            unplaced: Vec::new(),
            queued: no_steps(),
            request: None,
            outcome: EventLoopResult {
                final_text: String::new(),
                session_id: None,
                input_tokens: 0,
                output_tokens: 0,
            },
            phase: Phase::Event,
        };
        assert(texts(r.tools@) =~= Seq::empty());
        assert(texts(r.unplaced@) =~= Seq::empty());
        r
    }

    /// What the turn waits for.
    pub fn phase(&self) -> (r: Phase)
        ensures
            r == self@.phase,
    {
        self.phase
    }

    /// Whether later permission requests are approved without asking.
    pub fn approve_all(&self) -> (r: bool)
        ensures
            r == self@.approve_all,
    {
        self.approve_all
    }

    /// The outcome of the turn.
    pub fn into_result(self) -> (r: EventLoopResult)
        ensures
            r@ == self@.outcome,
    {
        self.outcome
    }

    fn quiet(self, out: Vec<Step>) -> (r: (Turn, Vec<Step>))
        ensures
            agrees(
                r,
                (TurnModel { typing: false, ..self@ }, stop_typing(self@, all_shown(out@))),
            ),
    {
        if self.typing {
            let mut t: Turn = self;
            t.typing = false;
            (t, also(out, Action::StopTyping))
        } else {
            (self, out)
        }
    }

    fn drop_preview(self, out: Vec<Step>) -> (r: (Turn, Vec<Step>))
        ensures
            agrees(
                r,
                (TurnModel { preview: false, ..self@ }, discard(self@, all_shown(out@))),
            ),
    {
        let mut t: Turn = self;
        let gone: bool = t.preview && t.updater;
        t.preview = false;
        if gone {
            (t, also(out, Action::DeletePreview))
        } else {
            (t, out)
        }
    }

    fn end(self, out: Vec<Step>) -> (r: (Turn, Vec<Step>))
        ensures
            agrees(r, leave(self@, all_shown(out@))),
    {
        let unsettled: bool = self.outcome.final_text.as_str().is_empty();
        let (t, out): (Turn, Vec<Step>) = self.quiet(out);
        let mut t: Turn = t;
        if unsettled {
            t.phase = Phase::Settled;
            (t, also(out, Action::AskStream))
        } else {
            t.phase = Phase::Done;
            (t, out)
        }
    }

    fn after_freeze(self, active: bool, idle: bool, acts: Vec<Step>) -> (r: (Turn, Vec<Step>))
        ensures
            agrees(r, freeze_then(self@, active, idle, all_shown(acts@))),
    {
        let mut t: Turn = self;
        if !active || idle {
            t.phase = if t.request.is_some() {
                Phase::Decision
            } else {
                Phase::Event
            };
            (t, acts)
        } else {
            t.queued = acts;
            t.phase = Phase::Frozen;
            (t, also(no_steps(), Action::FreezeStream))
        }
    }

    /// Takes the next segment.
    fn next_segment(self) -> (r: (Turn, String))
        requires
            self@.unplaced.len() > 0,
        ensures
            r.1@ == self@.unplaced[0],
            r.0@ == (TurnModel { unplaced: self@.unplaced.skip(1), ..self@ }),
    {
        let mut t: Turn = self;
        let segment: String = t.unplaced.remove(0);
        assert(texts(t.unplaced@) =~= self@.unplaced.skip(1));
        (t, segment)
    }

    /// Adds a segment to the reply message, on a line of its own.
    fn extend_reply(self, segment: String) -> (r: (Turn, Step))
        ensures
            r.0@ == (TurnModel {
                reply_buf: appended_reply(self@.reply_buf, segment@),
                ..self@
            }),
            shown(r.1) == Shown::UpdatePreview(
                Slot::Reply,
                appended_reply(self@.reply_buf, segment@),
            ),
    {
        let mut t: Turn = self;
        if t.reply_buf.as_str().is_empty() {
            t.reply_buf = segment.clone();
            (t, Action::UpdatePreview(Slot::Reply, segment))
        } else {
            let mut buf: String = t.reply_buf.clone();
            buf.append("\n");
            buf.append(segment.as_str());
            t.reply_buf = buf.clone();
            (t, Action::UpdatePreview(Slot::Reply, buf))
        }
    }

    /// Whether a segment needs a new reply message.
    fn overflows(&self, segment: &str) -> (r: bool)
        ensures
            r == needs_new_reply(self@, segment@),
    {
        let filled: usize = self.reply_buf.as_str().unicode_len();
        let more: usize = segment.unicode_len();
        !self.reply || filled >= REPLY_MSG_CAP || more >= REPLY_MSG_CAP - filled
    }

    /// Places the segments that are left, behind the actions in `out`.
    fn place_segments(self, out: Vec<Step>) -> (r: (Turn, Vec<Step>))
        ensures
            agrees(r, place(self@, all_shown(out@))),
        decreases self@.unplaced.len(),
    {
        proof {
            reveal(place);
        }
        if self.unplaced.len() == 0 {
            let mut t: Turn = self;
            t.phase = Phase::Event;
            return (t, out);
        }
        let (t, segment): (Turn, String) = self.next_segment();
        if t.overflows(segment.as_str()) {
            let mut t: Turn = t;
            t.reply_buf = segment.clone();
            t.phase = Phase::Sending(Slot::Reply);
            (t, also(out, Action::SendPreview(Slot::Reply, segment)))
        } else {
            let (t, a): (Turn, Step) = t.extend_reply(segment);
            t.place_segments(also(out, a))
        }
    }

    fn text(self, content: String) -> (r: (Turn, Vec<Step>))
        ensures
            agrees(r, on_text(self@, content@)),
    {
        if content.as_str().is_empty() {
            return (self, no_steps());
        }
        let (t, out): (Turn, Vec<Step>) = self.quiet(no_steps());
        let mut t: Turn = t;
        t.phase = Phase::Append;
        (t, also(out, Action::AppendStream(content)))
    }

    fn thinking(self, content: String, active: bool, idle: bool) -> (r: (Turn, Vec<Step>))
        ensures
            agrees(r, on_thinking(self@, content@, active, idle)),
    {
        if self.display.verbose && self.display.thinking_messages
            && !content.as_str().is_empty() {
            let cut: String = clip(content.as_str(), self.display.thinking_max_len, "...");
            let mut text: String = "🧠 ".to_owned();
            text.append(cut.as_str());
            self.after_freeze(active, idle, also(no_steps(), Action::Reply(text)))
        } else {
            (self, no_steps())
        }
    }

    fn reply_chunk(self, content: String, thinking: bool) -> (r: (Turn, Vec<Step>))
        ensures
            agrees(r, on_reply_chunk(self@, content@, thinking)),
    {
        let body: &str = trim(content.as_str());
        if !self.display.verbose || body.is_empty() {
            return (self, no_steps());
        }
        let piece: String = if thinking {
            let mut p: String = "💭 ".to_owned();
            p.append(body);
            p
        } else {
            body.to_owned()
        };
        if !self.updater {
            let text: String = if thinking {
                piece
            } else {
                content
            };
            return (self, also(no_steps(), Action::Reply(text)));
        }
        let mut t: Turn = self;
        t.unplaced = split_chars(piece.as_str(), REPLY_MSG_CAP);
        t.place_segments(no_steps())
    }

    fn tool_use(self, tool: String, input: String, active: bool, idle: bool) -> (r: (
        Turn,
        Vec<Step>,
    ))
        ensures
            agrees(r, on_tool_use(self@, tool@, input@, active, idle)),
    {
        let mut t: Turn = self;
        let max: usize = t.display.tool_max_len;
        t.tools_used = true;
        if !t.display.verbose || !t.display.tool_messages {
            return (t, no_steps());
        }
        if t.inplace {
            let label: String = format_tool_label(tool.as_str(), input.as_str(), max);
            proof {
                lemma_texts_push(t.tools@, label);
            }
            t.tools.push(label);
            let body: String = render_progress(&t.tools, false);
            if !t.updater {
                (t, no_steps())
            } else if t.progress {
                (t, also(no_steps(), Action::UpdatePreview(Slot::Progress, body)))
            } else {
                t.phase = Phase::Sending(Slot::Progress);
                (t, also(no_steps(), Action::SendPreview(Slot::Progress, body)))
            }
        } else {
            let text: String = tool_message(tool.as_str(), input.as_str(), max);
            t.after_freeze(active, idle, also(no_steps(), Action::Reply(text)))
        }
    }

    fn tool_result(self, output: String, is_error: bool) -> (r: (Turn, Vec<Step>))
        ensures
            agrees(r, on_tool_result(self@, output@, is_error)),
    {
        if self.display.verbose && self.display.tool_messages && !output.as_str().is_empty() {
            let cut: String = clip(output.as_str(), self.display.tool_max_len, "...");
            let mut text: String = if is_error {
                "💥".to_owned()
            } else {
                "✓".to_owned()
            };
            text.append(" ");
            text.append(cut.as_str());
            (self, also(no_steps(), Action::Reply(text)))
        } else {
            (self, no_steps())
        }
    }

    /// The prompt of a permission request.
    fn make_prompt(
        &self,
        request_id: &str,
        tool: &str,
        summary: &str,
        options: &Vec<PermissionOption>,
    ) -> (r: Step)
        ensures
            shown(r) == prompt(self@, request_id@, tool@, summary@, options_view(options@)),
    {
        let mut text: String = "🔐 需要你的确认\n⚡ 工具: ".to_owned();
        text.append(tool);
        text.append("\n📋 参数: ");
        text.append(summary);
        if self.buttons {
            Action::SendButtons(text, make_buttons(request_id, options))
        } else {
            text.append("\n\n回复 `allow` 允许 / `deny` 拒绝 / `allow all` 全部允许");
            Action::Reply(text)
        }
    }

    fn permission(
        self,
        request_id: String,
        tool: String,
        summary: String,
        options: Vec<PermissionOption>,
        active: bool,
        idle: bool,
    ) -> (r: (Turn, Vec<Step>))
        ensures
            agrees(
                r,
                on_permission(
                    self@,
                    request_id@,
                    tool@,
                    summary@,
                    options_view(options@),
                    active,
                    idle,
                ),
            ),
    {
        if self.approve_all {
            let mut text: String = "⚡ ".to_owned();
            text.append(tool.as_str());
            text.append(" › auto");
            let out: Vec<Step> = also(no_steps(), Action::Respond(request_id, true));
            return (self, also(out, Action::Reply(text)));
        }
        let ask: Step = self.make_prompt(
            request_id.as_str(),
            tool.as_str(),
            summary.as_str(),
            &options,
        );
        let out: Vec<Step> = also(
            also(also(no_steps(), Action::SetPending(true)), ask),
            Action::AwaitDecision,
        );
        let mut t: Turn = self;
        t.request = Some(request_id);
        t.after_freeze(active, idle, out)
    }

    fn finish_progress(&self, out: Vec<Step>) -> (r: Vec<Step>)
        ensures
            all_shown(r@) == settle_progress(self@, all_shown(out@)),
    {
        if self.progress && self.tools.len() > 0 && self.updater {
            let body: String = render_progress(&self.tools, true);
            also(out, Action::UpdatePreview(Slot::Progress, body))
        } else {
            out
        }
    }

    fn result(
        self,
        content: String,
        session_id: String,
        input_tokens: u32,
        output_tokens: u32,
        active: bool,
    ) -> (r: (Turn, Vec<Step>))
        ensures
            agrees(
                r,
                on_result(self@, content@, session_id@, input_tokens, output_tokens, active),
            ),
    {
        if !self.inplace && input_tokens == 0 && output_tokens == 0 && content.as_str().is_empty()
            && !active {
            return (self, no_steps());
        }
        let (t, out): (Turn, Vec<Step>) = self.quiet(no_steps());
        let out: Vec<Step> = also(t.finish_progress(out), Action::FinishStream);
        let mut t: Turn = t;
        t.progress = false;
        t.tools = Vec::new();
        t.outcome = EventLoopResult {
            final_text: content,
            session_id: Some(session_id),
            input_tokens,
            output_tokens,
        };
        t.phase = Phase::Finished;
        assert(texts(t.tools@) =~= Seq::empty());
        (t, out)
    }

    /// The final reply for the raw answer.
    fn compose(&self, raw: &str, input_tokens: u32) -> (r: String)
        ensures
            r@ == final_reply(self@, raw@, input_tokens),
    {
        proof {
            reveal(final_reply);
        }
        let mut body: String = if self.markdown {
            raw.to_owned()
        } else {
            tables_to_aligned(raw)
        };
        if self.display.context_indicator && input_tokens > 0 && self.display.context_window > 0 {
            let window: u64 = self.display.context_window as u64;
            let pct: u64 = (input_tokens as u64 * 100) / window;
            let shown_pct: u64 = if pct > 100 {
                100
            } else {
                pct
            };
            let digits: String = decimal_of(shown_pct);
            body.append("\n\n[ctx: ~");
            body.append(digits.as_str());
            body.append("%]");
        }
        body
    }

    fn finished(self, active: bool, text: String) -> (r: (Turn, Vec<Step>))
        ensures
            agrees(r, on_finished(self@, active, text@)),
    {
        let raw: String = if !self.outcome.final_text.as_str().is_empty() {
            self.outcome.final_text.clone()
        } else if active {
            text
        } else {
            "(no response)".to_owned()
        };
        let reply: String = self.compose(raw.as_str(), self.outcome.input_tokens);
        let mut t: Turn = self;
        t.outcome.final_text = reply.clone();
        if t.tools_used {
            let (t, out): (Turn, Vec<Step>) = t.drop_preview(no_steps());
            t.end(also(out, Action::Reply(reply)))
        } else if !t.preview {
            t.end(also(no_steps(), Action::Reply(reply)))
        } else if t.updater {
            t.end(also(no_steps(), Action::UpdatePreview(Slot::Preview, reply)))
        } else {
            t.end(no_steps())
        }
    }

    fn error(self, message: String) -> (r: (Turn, Vec<Step>))
        ensures
            agrees(r, on_error(self@, message@)),
    {
        let mut text: String = "💥 ".to_owned();
        text.append(message.as_str());
        let (t, out): (Turn, Vec<Step>) = self.quiet(no_steps());
        let (t, out): (Turn, Vec<Step>) = t.drop_preview(out);
        let mut t: Turn = t;
        t.outcome.final_text = text.clone();
        t.end(also(out, Action::Reply(text)))
    }

    fn appended(self, due: bool, display: String) -> (r: (Turn, Vec<Step>))
        ensures
            agrees(r, on_appended(self@, due, display@)),
    {
        let mut t: Turn = self;
        t.phase = Phase::Event;
        if !due || !t.updater {
            (t, no_steps())
        } else if t.preview {
            let out: Vec<Step> = also(no_steps(), Action::UpdatePreview(Slot::Preview, display));
            (t, also(out, Action::MarkSent))
        } else {
            t.phase = Phase::Sending(Slot::Preview);
            (t, also(no_steps(), Action::SendPreview(Slot::Preview, display)))
        }
    }

    fn reply_sent(self, ok: bool) -> (r: (Turn, Vec<Step>))
        ensures
            agrees(r, place(TurnModel { reply: ok, ..self@ }, none())),
    {
        let mut t: Turn = self;
        t.reply = ok;
        t.place_segments(no_steps())
    }

    fn progress_sent(self, ok: bool) -> (r: (Turn, Vec<Step>))
        ensures
            agrees(r, (TurnModel { progress: ok, phase: Phase::Event, ..self@ }, none())),
    {
        let mut t: Turn = self;
        t.progress = ok;
        t.phase = Phase::Event;
        (t, no_steps())
    }

    fn preview_sent(self, ok: bool) -> (r: (Turn, Vec<Step>))
        ensures
            agrees(r, on_sent(self@, Slot::Preview, ok)),
    {
        let mut t: Turn = self;
        t.preview = ok;
        t.phase = Phase::Event;
        if ok {
            (t, also(no_steps(), Action::MarkSent))
        } else {
            (t, no_steps())
        }
    }

    fn sent(self, slot: Slot, ok: bool) -> (r: (Turn, Vec<Step>))
        ensures
            agrees(r, on_sent(self@, slot, ok)),
    {
        match slot {
            Slot::Reply => self.reply_sent(ok),
            Slot::Progress => self.progress_sent(ok),
            Slot::Preview => self.preview_sent(ok),
        }
    }

    fn frozen(self, text: String) -> (r: (Turn, Vec<Step>))
        ensures
            agrees(r, on_frozen(self@, text@)),
    {
        let out: Vec<Step> = if self.preview && self.updater && !text.as_str().is_empty() {
            also(no_steps(), Action::UpdatePreview(Slot::Preview, text))
        } else {
            no_steps()
        };
        let mut t: Turn = self;
        let mut queued: Vec<Step> = no_steps();
        std::mem::swap(&mut queued, &mut t.queued);
        t.preview = false;
        t.phase = if t.request.is_some() {
            Phase::Decision
        } else {
            Phase::Event
        };
        (t, also_all(also(out, Action::ResetStream), queued))
    }

    fn decided(self, decision: Option<PermissionDecision>) -> (r: (Turn, Vec<Step>))
        requires
            self@.request is Some,
        ensures
            agrees(r, on_decided(self@, decision)),
    {
        let (allow, all, text): (bool, bool, &str) = match decision {
            Some(PermissionDecision::Allow) => (true, false, "👍 已放行"),
            Some(PermissionDecision::Deny) => (false, false, "🚫 已拦截"),
            Some(PermissionDecision::AllowAll) => (true, true, "👍 已放行（后续自动通过）"),
            None => (false, false, "💤 权限确认超时，已自动拦截"),
        };
        let mut t: Turn = self;
        let id: String = t.request.take().unwrap();
        t.approve_all = t.approve_all || all;
        t.phase = Phase::Event;
        let out: Vec<Step> = also(no_steps(), Action::SetPending(false));
        let out: Vec<Step> = also(out, Action::Respond(id, allow));
        (t, also(out, Action::Reply(text.to_owned())))
    }

    fn settled(self, active: bool, text: String) -> (r: (Turn, Vec<Step>))
        ensures
            agrees(r, on_settled(self@, active, text@)),
    {
        let mut t: Turn = self;
        t.phase = Phase::Done;
        if active {
            let (t, out): (Turn, Vec<Step>) = t.drop_preview(no_steps());
            let mut t: Turn = t;
            t.outcome.final_text = text.clone();
            (t, also(out, Action::Reply(text)))
        } else {
            (t, no_steps())
        }
    }

    fn closed(self) -> (r: (Turn, Vec<Step>))
        requires
            self@.request is Some,
        ensures
            agrees(
                r,
                leave(
                    TurnModel { request: None, ..self@ },
                    none().push(Action::SetPending(false)).push(
                        Action::Respond(self@.request->0, false),
                    ),
                ),
            ),
    {
        let mut t: Turn = self;
        let id: String = t.request.take().unwrap();
        let out: Vec<Step> = also(no_steps(), Action::SetPending(false));
        t.end(also(out, Action::Respond(id, false)))
    }

    fn event(self, event: AgentEvent, active: bool, idle: bool) -> (r: (Turn, Vec<Step>))
        ensures
            agrees(r, on_event(self@, event, active, idle)),
    {
        match event {
            AgentEvent::Text { content } => self.text(content),
            AgentEvent::Thinking { content } => self.thinking(content, active, idle),
            AgentEvent::ReplyChunk { content, thinking } => self.reply_chunk(content, thinking),
            AgentEvent::ToolUse { id, tool, input } => self.tool_use(tool, input, active, idle),
            AgentEvent::ToolResult { output, is_error } => self.tool_result(output, is_error),
            AgentEvent::PermissionRequest { request_id, tool, input, options } => {
                let summary: String = summarise_json(&input, 200);
                self.permission(request_id, tool, summary, options, active, idle)
            },
            AgentEvent::System { session_id, tools, skills } => (self, no_steps()),
            AgentEvent::Keepalive => (self, no_steps()),
            AgentEvent::Result { content, session_id, input_tokens, output_tokens } => self.result(
                content,
                session_id,
                input_tokens,
                output_tokens,
                active,
            ),
            AgentEvent::Error { message } => self.error(message),
        }
    }

    /// Takes an input that the turn waits for; gives the turn afterwards and
    /// what is to be done.
    pub fn step(self, input: Input) -> (r: (Turn, Vec<Step>))
        requires
            well_formed(self@),
            fits(self@.phase, input),
        ensures
            r.0@ == next(self@, input).0,
            all_shown(r.1@) == next(self@, input).1,
            well_formed(r.0@),
    {
        proof {
            law_step_keeps_turn_well_formed(self@, input);
        }
        match input {
            Input::Stopped | Input::Closed => {
                let (t, out): (Turn, Vec<Step>) = self.drop_preview(no_steps());
                t.end(out)
            },
            Input::IdleTimeout => {
                let (t, out): (Turn, Vec<Step>) = self.drop_preview(no_steps());
                t.end(also(out, Action::Reply("💤 等太久了，Agent 没响应".to_owned())))
            },
            Input::Event { event, active, idle } => self.event(event, active, idle),
            Input::Appended { due, display } => self.appended(due, display),
            Input::Sent(ok) => {
                let slot: Slot = match self.phase {
                    Phase::Sending(slot) => slot,
                    _ => Slot::Preview,
                };
                self.sent(slot, ok)
            },
            Input::Stream { active, text } => {
                if self.phase == Phase::Frozen {
                    self.frozen(text)
                } else if self.phase == Phase::Finished {
                    self.finished(active, text)
                } else {
                    self.settled(active, text)
                }
            },
            Input::Decided(d) => self.decided(Some(d)),
            Input::DecisionTimeout => self.decided(None),
            Input::DecisionClosed => self.closed(),
        }
    }
}

/// One tool call as a message of its own.
fn tool_message(tool: &str, input: &str, max: usize) -> (r: String)
    ensures
        r@ == tool_text(tool@, input@, max as nat),
{
    let cut: String = clip(input, max, "...");
    let bash: bool = same(tool, "Bash");
    let mut block: String = if bash {
        "```bash\n".to_owned()
    } else {
        "`".to_owned()
    };
    block.append(cut.as_str());
    if bash {
        block.append("\n```");
    } else {
        block.append("`");
    }
    let mut text: String = "⚡ ".to_owned();
    text.append(tool);
    text.append(" › ");
    text.append(block.as_str());
    text
}

/// A JSON value as text, cut to `max_len` characters.
pub fn summarise_json(value: &Value, max_len: usize) -> (r: String)
    ensures
        r@ == clipped(rendered(json(*value)), max_len as nat, "..."@),
{
    let s: String = render(value);
    clip(s.as_str(), max_len, "...")
}


// ---------------------------------------------------------------------------
// Laws
// ---------------------------------------------------------------------------

proof fn lemma_place_keeps(m: TurnModel, acts: Seq<Shown>)
    requires
        m.request is None,
        m.queued.len() == 0,
        m.preview || m.progress || m.reply ==> m.updater,
        m.updater,
        m.reply_buf.len() <= REPLY_MSG_CAP,
        within_cap(m.unplaced),
    ensures
        well_formed(place(m, acts).0),
        place(m, acts).0.phase == Phase::Event || place(m, acts).0.phase == Phase::Sending(
            Slot::Reply,
        ),
    decreases m.unplaced.len(),
{
    reveal(place);
    if m.unplaced.len() > 0 {
        let segment = m.unplaced[0];
        let rest = m.unplaced.skip(1);
        assert(within_cap(rest)) by {
            assert forall|i: int| 0 <= i < rest.len() implies (#[trigger] rest[i]).len()
                <= REPLY_MSG_CAP by {
                assert(rest[i] == m.unplaced[i + 1]);
            }
        }
        let m1 = TurnModel { unplaced: rest, ..m };
        if !needs_new_reply(m1, segment) {
            let buf = appended_reply(m.reply_buf, segment);
            reveal_strlit("\n");
            lemma_place_keeps(
                TurnModel { reply_buf: buf, ..m1 },
                acts.push(Action::UpdatePreview(Slot::Reply, buf)),
            );
        }
    }
}

proof fn lemma_event_keeps(m: TurnModel, event: AgentEvent, active: bool, idle: bool)
    requires
        well_formed(m),
        m.phase == Phase::Event,
    ensures
        well_formed(on_event(m, event, active, idle).0),
{
    match event {
        AgentEvent::ReplyChunk { content, thinking } => {
            let piece = reply_piece(content@, thinking);
            law_segments_are_the_text(piece, REPLY_MSG_CAP as nat);
            let m1 = TurnModel { unplaced: segments(piece, REPLY_MSG_CAP as nat), ..m };
            if m.updater {
                lemma_place_keeps(m1, none());
            }
        },
        AgentEvent::Text { content } => {},
        AgentEvent::Thinking { content } => {},
        AgentEvent::ToolUse { id, tool, input } => {},
        AgentEvent::ToolResult { output, is_error } => {},
        AgentEvent::PermissionRequest { request_id, tool, input, options } => {},
        AgentEvent::System { session_id, tools, skills } => {},
        AgentEvent::Keepalive => {},
        AgentEvent::Result { content, session_id, input_tokens, output_tokens } => {},
        AgentEvent::Error { message } => {},
    }
}

proof fn lemma_sent_keeps(m: TurnModel, slot: Slot, ok: bool)
    requires
        well_formed(m),
        m.phase == Phase::Sending(slot),
    ensures
        well_formed(on_sent(m, slot, ok).0),
{
    if slot == Slot::Reply {
        lemma_place_keeps(TurnModel { reply: ok, ..m }, none());
    }
}

proof fn lemma_stream_keeps(m: TurnModel, active: bool, text: Seq<char>)
    requires
        well_formed(m),
    ensures
        m.phase == Phase::Frozen ==> well_formed(on_frozen(m, text).0),
        m.phase == Phase::Finished ==> well_formed(on_finished(m, active, text).0),
        m.phase == Phase::Settled ==> well_formed(on_settled(m, active, text).0),
{
}

proof fn lemma_decision_keeps(m: TurnModel, decision: Option<PermissionDecision>)
    requires
        well_formed(m),
        m.phase == Phase::Decision,
    ensures
        well_formed(on_decided(m, decision).0),
{
}

/// Whatever happens, a turn stays well-formed.
pub proof fn law_step_keeps_turn_well_formed(m: TurnModel, input: Input)
    requires
        well_formed(m),
        fits(m.phase, input),
    ensures
        well_formed(next(m, input).0),
{
    match input {
        Input::Event { event, active, idle } => {
            lemma_event_keeps(m, event, active, idle);
            assert(next(m, input) == on_event(m, event, active, idle));
        },
        Input::Sent(ok) => {
            lemma_sent_keeps(m, m.phase->Sending_0, ok);
        },
        Input::Stream { active, text } => {
            lemma_stream_keeps(m, active, text@);
        },
        Input::Decided(d) => {
            lemma_decision_keeps(m, Some(d));
        },
        Input::DecisionTimeout => {
            lemma_decision_keeps(m, None);
        },
        Input::Stopped => {},
        Input::Closed => {},
        Input::IdleTimeout => {},
        Input::Appended { due, display } => {},
        Input::DecisionClosed => {},
    }
}


/// A sign of life shows nothing and changes nothing; that it came is what keeps
/// the turn from being given up.
pub proof fn law_keepalive_is_silent(m: TurnModel, active: bool, idle: bool)
    ensures
        on_event(m, AgentEvent::Keepalive, active, idle) == (m, none()),
{
}

/// With the verbose switch off, the work is silent: thinking, pieces of the
/// reply, tools and their results show nothing.
pub proof fn law_verbose_off_is_silent(m: TurnModel, event: AgentEvent, active: bool, idle: bool)
    requires
        !m.display.verbose,
        event is Thinking || event is ReplyChunk || event is ToolUse || event is ToolResult,
    ensures
        on_event(m, event, active, idle).1 == none(),
{
}

/// The final reply ships, quiet or not: once the stream is finished it is sent
/// as a message or takes the place of the preview, and it is the outcome.
pub proof fn law_final_reply_ships(m: TurnModel, active: bool, text: Seq<char>)
    requires
        well_formed(m),
        m.phase == Phase::Finished,
    ensures
        ({
            let after = on_finished(m, active, text);
            let reply = after.0.outcome.final_text;
            &&& after.1.contains(Action::Reply(reply)) || after.1.contains(
                Action::UpdatePreview(Slot::Preview, reply),
            )
            &&& m.outcome.final_text.len() > 0 ==> reply == final_reply(
                m,
                m.outcome.final_text,
                m.outcome.input_tokens,
            )
        }),
{
    let after = on_finished(m, active, text);
    let reply = after.0.outcome.final_text;
    if m.tools_used {
        let acts = discard(m, none()).push(Action::Reply(reply));
        assert(after.1[acts.len() - 1] == Shown::Reply(reply));
    } else if m.preview {
        assert(after.1[0] == Shown::UpdatePreview(Slot::Preview, reply));
    } else {
        assert(after.1[0] == Shown::Reply(reply));
    }
}

/// Whether an action keeps the reply message within the cap.
pub open spec fn fits_reply(a: Shown) -> bool {
    match a {
        Action::SendPreview(Slot::Reply, t) => t.len() <= REPLY_MSG_CAP,
        Action::UpdatePreview(Slot::Reply, t) => t.len() <= REPLY_MSG_CAP,
        _ => true,
    }
}

/// Every body of the reply message is within the cap, however long the piece:
/// each of its segments goes into a message with room for it.
pub proof fn law_reply_messages_stay_within_cap(m: TurnModel, acts: Seq<Shown>)
    requires
        m.reply_buf.len() <= REPLY_MSG_CAP,
        within_cap(m.unplaced),
        forall|i: int| 0 <= i < acts.len() ==> fits_reply(#[trigger] acts[i]),
    ensures
        forall|i: int|
            0 <= i < place(m, acts).1.len() ==> fits_reply(#[trigger] place(m, acts).1[i]),
    decreases m.unplaced.len(),
{
    reveal(place);
    if m.unplaced.len() > 0 {
        let segment = m.unplaced[0];
        let rest = m.unplaced.skip(1);
        assert(within_cap(rest)) by {
            assert forall|i: int| 0 <= i < rest.len() implies (#[trigger] rest[i]).len()
                <= REPLY_MSG_CAP by {
                assert(rest[i] == m.unplaced[i + 1]);
            }
        }
        let m1 = TurnModel { unplaced: rest, ..m };
        assert(segment.len() <= REPLY_MSG_CAP);
        if needs_new_reply(m1, segment) {
            let all = acts.push(Action::SendPreview(Slot::Reply, segment));
            assert(place(m, acts).1 == all);
            assert forall|i: int| 0 <= i < all.len() implies fits_reply(#[trigger] all[i]) by {
                if i < acts.len() {
                    assert(all[i] == acts[i]);
                }
            }
        } else {
            let buf = appended_reply(m.reply_buf, segment);
            reveal_strlit("\n");
            let all = acts.push(Action::UpdatePreview(Slot::Reply, buf));
            assert forall|i: int| 0 <= i < all.len() implies fits_reply(#[trigger] all[i]) by {
                if i < acts.len() {
                    assert(all[i] == acts[i]);
                }
            }
            law_reply_messages_stay_within_cap(TurnModel { reply_buf: buf, ..m1 }, all);
            assert(place(m, acts) == place(TurnModel { reply_buf: buf, ..m1 }, all));
        }
    }
}

/// Nothing of the reply is cut away: the next segment is shown whole, either
/// as a new message or at the end of the current one, which keeps what it
/// held.
pub proof fn law_segment_is_shown_whole(m: TurnModel, acts: Seq<Shown>)
    requires
        m.unplaced.len() > 0,
    ensures
        place(m, acts).1.len() > acts.len(),
        match place(m, acts).1[acts.len() as int] {
            Action::SendPreview(Slot::Reply, t) => t == m.unplaced[0],
            Action::UpdatePreview(Slot::Reply, t) => m.reply_buf.is_prefix_of(t)
                && m.unplaced[0].is_suffix_of(t),
            _ => false,
        },
{
    reveal(place);
    let segment = m.unplaced[0];
    let m1 = TurnModel { unplaced: m.unplaced.skip(1), ..m };
    if !needs_new_reply(m1, segment) {
        let buf = appended_reply(m.reply_buf, segment);
        let more = acts.push(Action::UpdatePreview(Slot::Reply, buf));
        lemma_place_extends(TurnModel { reply_buf: buf, ..m1 }, more);
        let all = place(m, acts).1;
        assert(all.subrange(0, more.len() as int)[acts.len() as int] == more[acts.len() as int]);
        assert(m.reply_buf =~= buf.subrange(0, m.reply_buf.len() as int));
        assert(segment =~= buf.subrange(buf.len() - segment.len(), buf.len() as int));
    }
}

proof fn lemma_place_extends(m: TurnModel, acts: Seq<Shown>)
    ensures
        acts.is_prefix_of(place(m, acts).1),
    decreases m.unplaced.len(),
{
    reveal(place);
    if m.unplaced.len() > 0 {
        let segment = m.unplaced[0];
        let m1 = TurnModel { unplaced: m.unplaced.skip(1), ..m };
        if !needs_new_reply(m1, segment) {
            let buf = appended_reply(m.reply_buf, segment);
            let more = acts.push(Action::UpdatePreview(Slot::Reply, buf));
            lemma_place_extends(TurnModel { reply_buf: buf, ..m1 }, more);
            let all = place(m, acts).1;
            assert(acts =~= all.subrange(0, acts.len() as int)) by {
                assert forall|i: int| 0 <= i < acts.len() implies acts[i] == all[i] by {
                    assert(more[i] == all.subrange(0, more.len() as int)[i]);
                }
            }
        }
    }
}

/// The reply message and the progress message never disturb each other:
/// placing pieces of the reply changes neither the tools nor whether a
/// progress message or a preview stands.
pub proof fn law_reply_leaves_progress_alone(m: TurnModel, acts: Seq<Shown>)
    ensures
        place(m, acts).0.progress == m.progress,
        place(m, acts).0.preview == m.preview,
        place(m, acts).0.tools == m.tools,
        place(m, acts).0.tools_used == m.tools_used,
    decreases m.unplaced.len(),
{
    reveal(place);
    if m.unplaced.len() > 0 {
        let segment = m.unplaced[0];
        let m1 = TurnModel { unplaced: m.unplaced.skip(1), ..m };
        if !needs_new_reply(m1, segment) {
            let buf = appended_reply(m.reply_buf, segment);
            law_reply_leaves_progress_alone(
                TurnModel { reply_buf: buf, ..m1 },
                acts.push(Action::UpdatePreview(Slot::Reply, buf)),
            );
        }
    }
}

/// Tools share one progress message: where it stands, a further tool edits it
/// and sends nothing new.
pub proof fn law_tools_share_one_message(
    m: TurnModel,
    tool: Seq<char>,
    input: Seq<char>,
    active: bool,
    idle: bool,
)
    requires
        m.inplace,
        m.progress,
        m.updater,
        m.display.verbose && m.display.tool_messages,
    ensures
        ({
            let after = on_tool_use(m, tool, input, active, idle);
            &&& after.0.progress
            &&& after.0.tools == m.tools.push(
                tool_label(tool, input, m.display.tool_max_len as nat),
            )
            &&& after.1 == none().push(
                Action::UpdatePreview(Slot::Progress, progress(after.0.tools, false)),
            )
        }),
{
}

/// Whether an action answers the permission request `id`.
pub open spec fn answers(a: Shown, id: Seq<char>) -> bool {
    a matches Action::Respond(i, _) && i == id
}

/// An open permission request is answered exactly once, whatever comes of it:
/// it is granted only by a decision of the user, and denied when the time runs
/// out or nobody can decide any more.
pub proof fn law_request_is_answered_once(m: TurnModel, input: Input)
    requires
        well_formed(m),
        m.phase == Phase::Decision,
        fits(m.phase, input),
    ensures
        ({
            let acts = next(m, input).1;
            let id = m.request->0;
            let allow = input == Input::Decided(PermissionDecision::Allow) || input
                == Input::Decided(PermissionDecision::AllowAll);
            &&& acts.len() > 1 && acts[1] == Shown::Respond(id, allow)
            &&& forall|i: int| 0 <= i < acts.len() && i != 1 ==> !answers(#[trigger] acts[i], id)
            &&& next(m, input).0.request is None
        }),
{
}

/// Once everything is allowed it stays so, and later requests are granted
/// without asking.
pub proof fn law_allow_all_lasts(m: TurnModel, input: Input)
    requires
        well_formed(m),
        fits(m.phase, input),
        m.approve_all || input == Input::Decided(PermissionDecision::AllowAll),
    ensures
        next(m, input).0.approve_all,
{
    match input {
        Input::Event { event, active, idle } => {
            lemma_event_keeps_approval(m, event, active, idle);
            assert(next(m, input) == on_event(m, event, active, idle));
        },
        Input::Sent(ok) => {
            lemma_place_keeps_approval(TurnModel { reply: ok, ..m }, none());
        },
        _ => {},
    }
}

proof fn lemma_place_keeps_approval(m: TurnModel, acts: Seq<Shown>)
    ensures
        place(m, acts).0.approve_all == m.approve_all,
    decreases m.unplaced.len(),
{
    reveal(place);
    if m.unplaced.len() > 0 {
        let segment = m.unplaced[0];
        let m1 = TurnModel { unplaced: m.unplaced.skip(1), ..m };
        if !needs_new_reply(m1, segment) {
            let buf = appended_reply(m.reply_buf, segment);
            lemma_place_keeps_approval(
                TurnModel { reply_buf: buf, ..m1 },
                acts.push(Action::UpdatePreview(Slot::Reply, buf)),
            );
        }
    }
}

proof fn lemma_event_keeps_approval(m: TurnModel, event: AgentEvent, active: bool, idle: bool)
    ensures
        on_event(m, event, active, idle).0.approve_all == m.approve_all,
{
    match event {
        AgentEvent::ReplyChunk { content, thinking } => {
            let piece = reply_piece(content@, thinking);
            lemma_place_keeps_approval(
                TurnModel { unplaced: segments(piece, REPLY_MSG_CAP as nat), ..m },
                none(),
            );
        },
        _ => {},
    }
}

/// A stopped turn ends at once, and the typing indicator with it.
pub proof fn law_stop_ends_the_turn(m: TurnModel)
    requires
        well_formed(m),
        m.phase == Phase::Event,
    ensures
        ({
            let after = next(m, Input::Stopped);
            &&& after.0.phase == Phase::Settled || after.0.phase == Phase::Done
            &&& !after.0.typing
            &&& m.typing ==> after.1.contains(Action::StopTyping)
        }),
{
    let acts = discard(m, none());
    let after = next(m, Input::Stopped);
    if m.typing {
        assert(after.1[acts.len() as int] == Shown::StopTyping);
    }
}

/// How often the typing indicator is stopped.
pub open spec fn stops(acts: Seq<Shown>) -> nat
    decreases acts.len(),
{
    if acts.len() == 0 {
        0
    } else {
        stops(acts.drop_last()) + if acts.last() is StopTyping {
            1nat
        } else {
            0
        }
    }
}

proof fn lemma_stops()
    ensures
        stops(none()) == 0,
        forall|acts: Seq<Shown>, a: Shown| #[trigger]
            stops(acts.push(a)) == stops(acts) + if a is StopTyping {
                1nat
            } else {
                0
            },
{
    assert forall|acts: Seq<Shown>, a: Shown| #[trigger]
        stops(acts.push(a)) == stops(acts) + if a is StopTyping {
            1nat
        } else {
            0
        } by {
        assert(acts.push(a).drop_last() =~= acts);
    }
}

proof fn lemma_stops_with(acts: Seq<Shown>, more: Seq<Shown>)
    requires
        forall|i: int| 0 <= i < more.len() ==> !(#[trigger] more[i] is StopTyping),
    ensures
        stops(acts + more) == stops(acts),
    decreases more.len(),
{
    if more.len() == 0 {
        assert(acts + more =~= acts);
    } else {
        lemma_stops_with(acts, more.drop_last());
        assert((acts + more).drop_last() =~= acts + more.drop_last());
        assert((acts + more).last() == more[more.len() - 1]);
    }
}

proof fn lemma_place_keeps_typing(m: TurnModel, acts: Seq<Shown>)
    ensures
        place(m, acts).0.typing == m.typing,
        stops(place(m, acts).1) == stops(acts),
    decreases m.unplaced.len(),
{
    reveal(place);
    lemma_stops();
    if m.unplaced.len() > 0 {
        let segment = m.unplaced[0];
        let m1 = TurnModel { unplaced: m.unplaced.skip(1), ..m };
        if !needs_new_reply(m1, segment) {
            let buf = appended_reply(m.reply_buf, segment);
            lemma_place_keeps_typing(
                TurnModel { reply_buf: buf, ..m1 },
                acts.push(Action::UpdatePreview(Slot::Reply, buf)),
            );
        }
    }
}

/// Whether between two states of a turn the typing indicator was stopped as
/// often as it came to rest.
pub open spec fn stopped_once(before: TurnModel, after: TurnModel, n: nat) -> bool {
    &&& after.typing ==> before.typing
    &&& n == if before.typing && !after.typing {
        1nat
    } else {
        0
    }
}

proof fn lemma_event_stops(m: TurnModel, event: AgentEvent, active: bool, idle: bool)
    ensures
        stopped_once(
            m,
            on_event(m, event, active, idle).0,
            stops(on_event(m, event, active, idle).1),
        ),
{
    lemma_stops();
    match event {
        AgentEvent::ReplyChunk { content, thinking } => {
            let piece = reply_piece(content@, thinking);
            lemma_place_keeps_typing(
                TurnModel { unplaced: segments(piece, REPLY_MSG_CAP as nat), ..m },
                none(),
            );
        },
        _ => {},
    }
}

proof fn lemma_stream_stops(m: TurnModel, active: bool, text: Seq<char>)
    requires
        well_formed(m),
    ensures
        m.phase == Phase::Frozen ==> stopped_once(
            m,
            on_frozen(m, text).0,
            stops(on_frozen(m, text).1),
        ),
        m.phase == Phase::Finished ==> stopped_once(
            m,
            on_finished(m, active, text).0,
            stops(on_finished(m, active, text).1),
        ),
        m.phase == Phase::Settled ==> stopped_once(
            m,
            on_settled(m, active, text).0,
            stops(on_settled(m, active, text).1),
        ),
{
    lemma_stops();
    let first = if m.preview && m.updater && text.len() > 0 {
        none().push(Action::UpdatePreview(Slot::Preview, text))
    } else {
        none()
    };
    lemma_stops_with(first.push(Action::ResetStream), m.queued);
}

proof fn lemma_decision_stops(m: TurnModel, decision: Option<PermissionDecision>)
    ensures
        stopped_once(m, on_decided(m, decision).0, stops(on_decided(m, decision).1)),
{
    lemma_stops();
}

proof fn lemma_leaving_stops(m: TurnModel, acts: Seq<Shown>)
    requires
        stops(acts) == 0,
    ensures
        stopped_once(m, leave(m, acts).0, stops(leave(m, acts).1)),
{
    lemma_stops();
}

/// A step stops the typing indicator exactly where it brings it to rest.
pub proof fn law_step_stops_typing(m: TurnModel, input: Input)
    requires
        well_formed(m),
        fits(m.phase, input),
    ensures
        stopped_once(m, next(m, input).0, stops(next(m, input).1)),
{
    match input {
        Input::Event { event, active, idle } => {
            lemma_event_stops(m, event, active, idle);
            assert(next(m, input) == on_event(m, event, active, idle));
        },
        Input::Appended { due, display } => {
            lemma_stops();
        },
        Input::Sent(ok) => {
            lemma_stops();
            lemma_place_keeps_typing(TurnModel { reply: ok, ..m }, none());
        },
        Input::Stream { active, text } => {
            lemma_stream_stops(m, active, text@);
        },
        Input::Decided(d) => {
            lemma_decision_stops(m, Some(d));
        },
        Input::DecisionTimeout => {
            lemma_decision_stops(m, None);
        },
        Input::DecisionClosed => {
            lemma_stops();
            lemma_leaving_stops(
                TurnModel { request: None, ..m },
                none().push(Action::SetPending(false)).push(Action::Respond(m.request->0, false)),
            );
        },
        Input::IdleTimeout => {
            lemma_stops();
            lemma_leaving_stops(
                TurnModel { preview: false, ..m },
                discard(m, none()).push(Action::Reply("💤 等太久了，Agent 没响应"@)),
            );
        },
        Input::Stopped | Input::Closed => {
            lemma_stops();
            lemma_leaving_stops(TurnModel { preview: false, ..m }, discard(m, none()));
        },
    }
}

/// Whether each input is one that the turn waits for when it comes.
pub open spec fn all_fit(m: TurnModel, inputs: Seq<Input>) -> bool
    decreases inputs.len(),
{
    inputs.len() > 0 ==> fits(m.phase, inputs[0]) && all_fit(
        next(m, inputs[0]).0,
        inputs.skip(1),
    )
}

/// The turn after all inputs.
pub open spec fn after_all(m: TurnModel, inputs: Seq<Input>) -> TurnModel
    decreases inputs.len(),
{
    if inputs.len() == 0 {
        m
    } else {
        after_all(next(m, inputs[0]).0, inputs.skip(1))
    }
}

/// How often the typing indicator is stopped on all inputs.
pub open spec fn all_stops(m: TurnModel, inputs: Seq<Input>) -> nat
    decreases inputs.len(),
{
    if inputs.len() == 0 {
        0
    } else {
        stops(next(m, inputs[0]).1) + all_stops(next(m, inputs[0]).0, inputs.skip(1))
    }
}

/// Typing stops exactly once: over a whole turn, whatever happens in it, the
/// indicator is stopped once where it ran, and never where it did not.
pub proof fn law_typing_stops_once(m: TurnModel, inputs: Seq<Input>)
    requires
        well_formed(m),
        all_fit(m, inputs),
    ensures
        well_formed(after_all(m, inputs)),
        stopped_once(m, after_all(m, inputs), all_stops(m, inputs)),
        after_all(m, inputs).phase == Phase::Done ==> all_stops(m, inputs) == if m.typing {
            1nat
        } else {
            0
        },
    decreases inputs.len(),
{
    if inputs.len() > 0 {
        law_step_keeps_turn_well_formed(m, inputs[0]);
        law_step_stops_typing(m, inputs[0]);
        law_typing_stops_once(next(m, inputs[0]).0, inputs.skip(1));
    }
}

/// The work is shown as it is: a thought and the output of a tool with their
/// whole text, as far as the limit goes, and a call with its tool and its input.
/// An error is marked as one.
pub proof fn law_work_is_shown_as_it_is(tool: Seq<char>, text: Seq<char>, max: nat)
    requires
        text.len() <= max,
    ensures
        text.is_suffix_of(thinking_text(text, max)),
        text.is_suffix_of(tool_result_text(text, true, max)),
        text.is_suffix_of(tool_result_text(text, false, max)),
        tool_result_text(text, true, max)[0] == '💥',
        tool_result_text(text, false, max)[0] == '✓',
        occurs(tool_text(tool, text, max), text),
        occurs(tool_text(tool, text, max), tool),
{
    reveal_strlit("💥");
    reveal_strlit("✓");
    reveal_strlit(" ");
    let a = thinking_text(text, max);
    assert(text =~= a.skip(a.len() - text.len()));
    let b = tool_result_text(text, true, max);
    assert(text =~= b.skip(b.len() - text.len()));
    let c = tool_result_text(text, false, max);
    assert(text =~= c.skip(c.len() - text.len()));
    let d = tool_text(tool, text, max);
    let (open, close) = if tool == "Bash"@ {
        ("```bash\n"@, "\n```"@)
    } else {
        ("`"@, "`"@)
    };
    let before = "⚡ "@ + tool + " › "@ + open;
    assert(d =~= before + text + close);
    lemma_occurs_in(before, text, close);
    let after = " › "@ + open + text + close;
    assert(d =~= "⚡ "@ + tool + after);
    lemma_occurs_in("⚡ "@, tool, after);
}

/// Text over the limit is cut to it: as many characters of it are shown as the
/// limit allows, from its start.
pub proof fn law_long_work_is_cut(text: Seq<char>, max: nat)
    requires
        text.len() > max,
    ensures
        occurs(thinking_text(text, max), text.take(max as int)),
        thinking_text(text, max).len() <= max + 5,
        occurs(tool_result_text(text, false, max), text.take(max as int)),
        tool_result_text(text, false, max).len() <= max + 5,
{
    reveal_strlit("🧠 ");
    reveal_strlit("...");
    reveal_strlit("✓");
    reveal_strlit(" ");
    let part = text.take(max as int);
    assert(thinking_text(text, max) =~= "🧠 "@ + part + "..."@);
    lemma_occurs_in("🧠 "@, part, "..."@);
    assert(tool_result_text(text, false, max) =~= ("✓"@ + " "@) + part + "..."@);
    lemma_occurs_in("✓"@ + " "@, part, "..."@);
}

/// The user is asked about the tool and told what it is called with, in words
/// too where there are no buttons.
pub proof fn law_question_names_the_tool(tool: Seq<char>, summary: Seq<char>)
    ensures
        occurs(permission_text(tool, summary), tool),
        summary.is_suffix_of(permission_text(tool, summary)),
        permission_text(tool, summary).is_prefix_of(
            permission_hint(permission_text(tool, summary)),
        ),
        occurs(permission_hint(permission_text(tool, summary)), "`allow`"@),
        occurs(permission_hint(permission_text(tool, summary)), "`deny`"@),
{
    let t = permission_text(tool, summary);
    let head = "🔐 需要你的确认\n⚡ 工具: "@;
    let mid = "\n📋 参数: "@;
    assert(t =~= head + tool + (mid + summary));
    lemma_occurs_in(head, tool, mid + summary);
    assert(summary =~= t.skip(t.len() - summary.len()));
    let h = permission_hint(t);
    assert(t =~= h.take(t.len() as int));
    reveal_strlit("\n\n回复 `allow` 允许 / `deny` 拒绝 / `allow all` 全部允许");
    reveal_strlit("`allow`");
    reveal_strlit("`deny`");
    let hint = "\n\n回复 `allow` 允许 / `deny` 拒绝 / `allow all` 全部允许"@;
    let n = t.len() as int;
    assert(h.subrange(n + 5, n + 12) =~= "`allow`"@);
    assert(occurs_at(h, "`allow`"@, n + 5));
    assert(h.subrange(n + 18, n + 24) =~= "`deny`"@);
    assert(occurs_at(h, "`deny`"@, n + 18));
}

/// A request for permission is put to the user and waits for the answer, with
/// nothing granted meanwhile; where everything is allowed it is granted at once.
pub proof fn law_request_is_put_to_the_user(
    m: TurnModel,
    id: Seq<char>,
    tool: Seq<char>,
    summary: Seq<char>,
    options: Seq<(Seq<char>, Seq<char>)>,
    idle: bool,
)
    ensures
        ({
            let (after, acts) = on_permission(m, id, tool, summary, options, false, idle);
            &&& m.approve_all ==> acts[0] == Shown::Respond(id, true) && after == m
            &&& !m.approve_all ==> after.request == Some(id) && after.phase == Phase::Decision
                && acts.len() == 3 && acts[0] == Shown::SetPending(true) && acts[2]
                == Shown::AwaitDecision
            &&& !m.approve_all && m.buttons ==> acts[1] == Shown::SendButtons(
                permission_text(tool, summary),
                permission_buttons(id, options),
            )
            &&& !m.approve_all && !m.buttons ==> acts[1] == Shown::Reply(
                permission_hint(permission_text(tool, summary)),
            )
        }),
{
}

/// Streamed text is appended as it comes, and the typing indicator stops with
/// it; it is shown in the preview when that is due.
pub proof fn law_streamed_text_is_shown(m: TurnModel, content: Seq<char>, display: Seq<char>)
    requires
        content.len() > 0,
    ensures
        on_text(m, content).1.last() == Shown::AppendStream(content),
        !on_text(m, content).0.typing,
        m.updater && m.preview ==> on_appended(m, true, display).1.contains(
            Action::UpdatePreview(Slot::Preview, display),
        ),
        m.updater && !m.preview ==> on_appended(m, true, display).1.contains(
            Action::SendPreview(Slot::Preview, display),
        ),
        on_appended(m, false, display).1.len() == 0,
{
    let acts = on_appended(m, true, display).1;
    if m.updater {
        if m.preview {
            assert(acts[0] == Shown::UpdatePreview(Slot::Preview, display));
        } else {
            assert(acts[0] == Shown::SendPreview(Slot::Preview, display));
        }
    }
}

/// The turn ends with its result: the text, the session and the tokens that the
/// agent reported are the outcome, and where it reported no text the streamed
/// one is. An empty report of a resumed session does not end it.
pub proof fn law_result_is_the_outcome(
    m: TurnModel,
    content: Seq<char>,
    session: Seq<char>,
    input: u32,
    output: u32,
    active: bool,
    text: Seq<char>,
)
    requires
        m.markdown,
        !m.display.context_indicator,
    ensures
        ({
            let (m1, acts) = on_result(m, content, session, input, output, active);
            let m2 = on_finished(m1, active, text).0;
            let passed = !m.inplace && input == 0 && output == 0 && content.len() == 0 && !active;
            &&& passed ==> m1 == m && acts.len() == 0
            &&& !passed ==> m1.phase == Phase::Finished
            &&& !passed ==> m2.outcome.session_id == Some(session)
            &&& !passed ==> m2.outcome.input_tokens == input && m2.outcome.output_tokens == output
            &&& !passed && content.len() > 0 ==> m2.outcome.final_text == content
            &&& !passed && content.len() == 0 && active ==> m2.outcome.final_text == text
            &&& !passed && content.len() == 0 && !active ==> m2.outcome.final_text.len() > 0
        }),
{
    reveal(final_reply);
    reveal_strlit("(no response)");
}

/// The final reply is the text, with its tables aligned where the platform does
/// not render Markdown; the use of the context window, where it is shown, stands
/// behind it.
pub proof fn law_final_reply_holds_the_text(m: TurnModel, raw: Seq<char>, tokens: u32)
    ensures
        m.markdown ==> raw.is_prefix_of(final_reply(m, raw, tokens)),
        !m.markdown ==> aligned(raw).is_prefix_of(final_reply(m, raw, tokens)),
        !m.markdown && without_tables(split(raw, '\n')) ==> raw.is_prefix_of(
            final_reply(m, raw, tokens),
        ),
        !m.display.context_indicator && m.markdown ==> final_reply(m, raw, tokens) == raw,
{
    reveal(final_reply);
    let r = final_reply(m, raw, tokens);
    let body = if m.markdown {
        raw
    } else {
        aligned(raw)
    };
    assert(body =~= r.take(body.len() as int));
    if without_tables(split(raw, '\n')) {
        law_text_without_tables_is_untouched(raw);
    }
}

/// The percentage says how full the context window is, cut to whole percents,
/// and never more than a hundred.
pub proof fn law_percentage_is_that_of_the_window(tokens: int, window: int)
    requires
        tokens >= 0,
        window > 0,
    ensures
        context_percent(tokens, window) <= 100,
        tokens <= window ==> context_percent(tokens, window) * window <= tokens * 100 < (
        context_percent(tokens, window) + 1) * window,
        tokens >= window ==> context_percent(tokens, window) == 100,
{
    let q = tokens * 100 / window;
    assert(q * window <= tokens * 100 < (q + 1) * window) by (nonlinear_arith)
        requires
            q == tokens * 100 / window,
            window > 0,
    ;
    if tokens <= window {
        assert(q <= 100) by (nonlinear_arith)
            requires
                q * window <= tokens * 100,
                tokens <= window,
                window > 0,
        ;
        assert(q >= 0) by (nonlinear_arith)
            requires
                tokens * 100 < (q + 1) * window,
                tokens >= 0,
                window > 0,
        ;
    }
    if tokens >= window {
        assert(q >= 100) by (nonlinear_arith)
            requires
                tokens * 100 < (q + 1) * window,
                tokens >= window,
                window > 0,
        ;
    }
}

/// An error ends the turn and is told with its message.
pub proof fn law_error_is_told(m: TurnModel, message: Seq<char>)
    ensures
        ({
            let (after, acts) = on_error(m, message);
            &&& after.phase == Phase::Done
            &&& message.is_suffix_of(after.outcome.final_text)
            &&& acts.contains(Action::Reply(after.outcome.final_text))
        }),
{
    reveal_strlit("💥 ");
    let (after, acts) = on_error(m, message);
    let t = "💥 "@ + message;
    assert(message =~= t.skip(2));
    let i = discard(m, stop_typing(m, none())).len() as int;
    assert(acts[i] == Shown::Reply(t));
}

/// A piece of the reply is shown with its text, and a thought with its mark; a
/// platform that cannot edit messages gets it as a message.
pub proof fn law_reply_piece_holds_its_text(m: TurnModel, content: Seq<char>)
    ensures
        reply_piece(content, false) == trimmed(content),
        trimmed(content).is_suffix_of(reply_piece(content, true)),
        reply_piece(content, true)[0] == '💭',
        m.display.verbose && trimmed(content).len() > 0 && !m.updater ==> on_reply_chunk(
            m,
            content,
            false,
        ).1 == none().push(Action::Reply(content)) && on_reply_chunk(m, content, true).1
            == none().push(Action::Reply(reply_piece(content, true))),
{
    reveal_strlit("💭 ");
    let t = reply_piece(content, true);
    assert(trimmed(content) =~= t.skip(2));
}

/// Tools are shown one by one, or in one message, as the backend has it; each of
/// them, with its input, as far as the limit goes.
pub proof fn law_tools_are_shown(m: TurnModel, tool: Seq<char>, input: Seq<char>)
    requires
        m.display.verbose && m.display.tool_messages,
    ensures
        !m.inplace ==> on_tool_use(m, tool, input, false, true).1 == none().push(
            Action::Reply(tool_text(tool, input, m.display.tool_max_len as nat)),
        ),
        m.inplace ==> on_tool_use(m, tool, input, false, true).0.tools.len() == m.tools.len() + 1,
        m.inplace && m.updater && !m.progress ==> on_tool_use(m, tool, input, false, true).1.len()
            == 1 && on_tool_use(m, tool, input, false, true).1[0] is SendPreview,
        on_tool_use(m, tool, input, false, true).0.tools_used,
{
}

/// What the user decided is what the agent is told, for the request that was
/// asked: allowed where it was allowed, for once or for good, and refused where
/// it was denied or nobody answered. Only an answer for good lasts.
pub proof fn law_decision_is_passed_on(m: TurnModel, decision: Option<PermissionDecision>)
    requires
        m.request is Some,
    ensures
        ({
            let (after, acts) = on_decided(m, decision);
            let granted = decision == Some(PermissionDecision::Allow) || decision == Some(
                PermissionDecision::AllowAll,
            );
            &&& acts.contains(Action::Respond(m.request->0, granted))
            &&& !acts.contains(Action::Respond(m.request->0, !granted))
            &&& acts.contains(Action::SetPending(false))
            &&& after.request is None && after.phase == Phase::Event
            &&& decision == Some(PermissionDecision::AllowAll) ==> after.approve_all
            &&& decision != Some(PermissionDecision::AllowAll) ==> after.approve_all
                == m.approve_all
            &&& acts.last() is Reply && (occurs(acts.last()->Reply_0, "放行"@) <==> granted)
        }),
{
    let (after, acts) = on_decided(m, decision);
    let granted = decision == Some(PermissionDecision::Allow) || decision == Some(
        PermissionDecision::AllowAll,
    );
    assert(acts[0] == Action::<Seq<char>, Seq<(Seq<char>, Seq<char>)>>::SetPending(false));
    assert(acts[1] == Action::<Seq<char>, Seq<(Seq<char>, Seq<char>)>>::Respond(
        m.request->0,
        granted,
    ));
    reveal_strlit("👍 已放行");
    reveal_strlit("🚫 已拦截");
    reveal_strlit("👍 已放行（后续自动通过）");
    reveal_strlit("💤 权限确认超时，已自动拦截");
    reveal_strlit("放行");
    let t = acts.last()->Reply_0;
    if granted {
        assert(t.subrange(3, 5) =~= "放行"@);
        assert(occurs_at(t, "放行"@, 3));
    } else {
        assert forall|i: int| !(#[trigger] occurs_at(t, "放行"@, i)) by {
            if occurs_at(t, "放行"@, i) {
                assert(t.subrange(i, i + 2)[0] == "放行"@[0]);
            }
        }
    }
}

/// The result of a tool is shown where work is shown and there is something to
/// show, and not otherwise; the turn goes on as it was.
pub proof fn law_results_are_shown(m: TurnModel, output: Seq<char>, is_error: bool)
    ensures
        ({
            let (after, acts) = on_tool_result(m, output, is_error);
            &&& after == m
            &&& m.display.verbose && m.display.tool_messages && output.len() > 0 ==> acts.len()
                == 1 && acts[0] is Reply
            &&& !m.display.verbose || !m.display.tool_messages || output.len() == 0 ==> acts.len()
                == 0
        }),
{
}

/// Thinking is shown only where that is switched on and there is something to
/// show.
pub proof fn law_thinking_is_shown_where_wanted(
    m: TurnModel,
    content: Seq<char>,
    active: bool,
    idle: bool,
)
    ensures
        !m.display.verbose || !m.display.thinking_messages || content.len() == 0 ==> on_thinking(
            m,
            content,
            active,
            idle,
        ) == (m, none()),
        m.display.verbose && m.display.thinking_messages && content.len() > 0 ==> on_thinking(
            m,
            content,
            active,
            idle,
        ).1.len() > 0 || on_thinking(m, content, active, idle).0 != m,
{
}

/// A message that was sent is edited from then on, one that could not be sent is
/// not; each slot for itself.
pub proof fn law_sent_message_is_edited(m: TurnModel, ok: bool)
    ensures
        on_sent(m, Slot::Preview, ok).0.preview == ok,
        on_sent(m, Slot::Preview, ok).1.contains(Action::MarkSent) <==> ok,
        on_sent(m, Slot::Preview, ok).0.progress == m.progress,
        on_sent(m, Slot::Progress, ok).0.progress == ok,
        on_sent(m, Slot::Progress, ok).0.preview == m.preview,
        on_sent(m, Slot::Progress, ok).1.len() == 0,
{
    if ok {
        assert(on_sent(m, Slot::Preview, ok).1[0] == Action::<
            Seq<char>,
            Seq<(Seq<char>, Seq<char>)>,
        >::MarkSent);
    }
}

/// A turn waits for the decision as long as a request is open, and for events
/// otherwise; when it is left the typing indicator stops once, where it runs.
pub proof fn law_turn_waits_for_what_is_open(m: TurnModel, acts: Seq<Shown>)
    ensures
        next_phase(m) == Phase::Decision <==> m.request is Some,
        m.typing ==> stop_typing(m, acts) == acts.push(Action::StopTyping),
        !m.typing ==> stop_typing(m, acts) == acts,
        !leave(m, acts).0.typing,
        m.outcome.final_text.len() > 0 ==> leave(m, acts).0.phase == Phase::Done,
        m.outcome.final_text.len() == 0 ==> leave(m, acts).1.last() is AskStream,
{
}

} // verus!
