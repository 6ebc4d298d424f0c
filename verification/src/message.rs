//! Messages and agent events.

use crate::json::{json, Json};
use crate::platform::{ReplyTarget, TargetModel};
use crate::text::{text_opt, texts};
use serde_json::Value;
use vstd::prelude::*;

verus! {

#[derive(Debug)]
pub struct ImageAttachment {
    pub data: Vec<u8>,
    pub mime_type: String,
    pub filename: String,
}

#[derive(Debug)]
pub struct FileAttachment {
    pub data: Vec<u8>,
    pub filename: String,
}

/// A message as a platform hands it to the engine.
pub struct IncomingMessage {
    pub id: String,
    pub from: String,
    pub from_name: Option<String>,
    pub text: String,
    pub images: Vec<ImageAttachment>,
    pub files: Vec<FileAttachment>,
    /// Path of a voice recording.
    pub voice: Option<String>,
    pub is_group: bool,
    pub channel_id: Option<String>,
    pub channel_name: Option<String>,
    pub reply_ctx: ReplyTarget,
}

/// What an [`IncomingMessage`] holds; images are given by their bytes, MIME
/// types and names, files by their bytes and names.
pub struct MessageModel {
    pub id: Seq<char>,
    pub from: Seq<char>,
    pub from_name: Option<Seq<char>>,
    pub text: Seq<char>,
    pub images: Seq<(Seq<u8>, Seq<char>, Seq<char>)>,
    pub files: Seq<(Seq<u8>, Seq<char>)>,
    pub voice: Option<Seq<char>>,
    pub is_group: bool,
    pub channel_id: Option<Seq<char>>,
    pub channel_name: Option<Seq<char>>,
    pub reply_ctx: TargetModel,
}

/// The contents of each image in a list.
pub open spec fn images_view(v: Seq<ImageAttachment>) -> Seq<(Seq<u8>, Seq<char>, Seq<char>)> {
    v.map_values(|i: ImageAttachment| (i.data@, i.mime_type@, i.filename@))
}

/// The contents of each file in a list.
pub open spec fn files_view(v: Seq<FileAttachment>) -> Seq<(Seq<u8>, Seq<char>)> {
    v.map_values(|f: FileAttachment| (f.data@, f.filename@))
}

impl View for IncomingMessage {
    type V = MessageModel;

    open spec fn view(&self) -> MessageModel {
        MessageModel {
            id: self.id@,
            from: self.from@,
            from_name: text_opt(self.from_name),
            text: self.text@,
            images: images_view(self.images@),
            files: files_view(self.files@),
            voice: text_opt(self.voice),
            is_group: self.is_group,
            channel_id: text_opt(self.channel_id),
            channel_name: text_opt(self.channel_name),
            reply_ctx: self.reply_ctx@,
        }
    }
}

/// One answer that an agent offers to its own permission request.
pub struct PermissionOption {
    pub option_id: String,
    pub label: String,
}

impl View for PermissionOption {
    type V = (Seq<char>, Seq<char>);

    open spec fn view(&self) -> (Seq<char>, Seq<char>) {
        (self.option_id@, self.label@)
    }
}

/// What an agent tells the engine while it works.
#[allow(inconsistent_fields)]
pub enum AgentEvent {
    /// Streamed text of the answer.
    Text { content: String },
    Thinking { content: String },
    /// A piece of the reply between two tool calls.
    ReplyChunk { content: String, thinking: bool },
    ToolUse { id: String, tool: String, input: String },
    ToolResult { output: String, is_error: bool },
    PermissionRequest {
        request_id: String,
        tool: String,
        input: Value,
        options: Vec<PermissionOption>,
    },
    /// The handshake of a new session.
    System { session_id: String, tools: Vec<String>, skills: Vec<String> },
    /// The end of a turn.
    Result { content: String, session_id: String, input_tokens: u32, output_tokens: u32 },
    Error { message: String },
    /// A sign of life that shows nothing.
    Keepalive,
}

/// What an [`AgentEvent`] holds.
#[allow(inconsistent_fields)]
pub enum Told {
    Text { content: Seq<char> },
    Thinking { content: Seq<char> },
    ReplyChunk { content: Seq<char>, thinking: bool },
    ToolUse { id: Seq<char>, tool: Seq<char>, input: Seq<char> },
    ToolResult { output: Seq<char>, is_error: bool },
    PermissionRequest {
        request_id: Seq<char>,
        tool: Seq<char>,
        input: Json,
        options: Seq<(Seq<char>, Seq<char>)>,
    },
    System { session_id: Seq<char>, tools: Seq<Seq<char>>, skills: Seq<Seq<char>> },
    Result { content: Seq<char>, session_id: Seq<char>, input_tokens: u32, output_tokens: u32 },
    Error { message: Seq<char> },
    Keepalive,
}

/// The contents of each answer in a list.
pub open spec fn options_view(v: Seq<PermissionOption>) -> Seq<(Seq<char>, Seq<char>)> {
    v.map_values(|o: PermissionOption| o@)
}

impl View for AgentEvent {
    type V = Told;

    open spec fn view(&self) -> Told {
        match *self {
            AgentEvent::Text { content } => Told::Text { content: content@ },
            AgentEvent::Thinking { content } => Told::Thinking { content: content@ },
            AgentEvent::ReplyChunk { content, thinking } => Told::ReplyChunk {
                content: content@,
                thinking,
            },
            AgentEvent::ToolUse { id, tool, input } => Told::ToolUse {
                id: id@,
                tool: tool@,
                input: input@,
            },
            AgentEvent::ToolResult { output, is_error } => Told::ToolResult {
                output: output@,
                is_error,
            },
            AgentEvent::PermissionRequest { request_id, tool, input, options } =>
                Told::PermissionRequest {
                request_id: request_id@,
                tool: tool@,
                input: json(input),
                options: options_view(options@),
            },
            AgentEvent::System { session_id, tools, skills } => Told::System {
                session_id: session_id@,
                tools: texts(tools@),
                skills: texts(skills@),
            },
            AgentEvent::Result { content, session_id, input_tokens, output_tokens } => Told::Result {
                content: content@,
                session_id: session_id@,
                input_tokens,
                output_tokens,
            },
            AgentEvent::Error { message } => Told::Error { message: message@ },
            AgentEvent::Keepalive => Told::Keepalive,
        }
    }
}

/// The contents of each event in a list.
pub open spec fn events_view(v: Seq<AgentEvent>) -> Seq<Told> {
    v.map_values(|e: AgentEvent| e@)
}

} // verus!
