//! The backend that runs the agent as a program: how it is called, what is
//! written to it and what its output means.
//!
//! The program talks JSON, a line for each message. [`read_line`] turns a line
//! of output into events and answers; [`Shutdown`] decides how a program that
//! has to go is brought to an end.

use crate::commands::{join_path, law_path_is_below_its_base, or_text, path_join};
use crate::config::AgentConfig;
use crate::json::{
    as_list, as_text, as_unsigned, at, from_list, from_text, json, json_list, json_opt, list_of,
    make_object2, make_object3, member, member_of, object, object2, object3, parse, parsed, render,
    rendered, text_else, text_items, text_of, text_or, texts_in, unsigned_of, value_clone, Json,
};
use crate::message::{events_view, options_view, AgentEvent, Told};
use crate::session::CONTINUE_SESSION;
use crate::text::{
    clip, clipped, decimal, decimal_int, decimal_of, decimal_of_signed, join, joined,
    law_decimal_reads_back, lemma_occurs_in, lemma_part_occurs, lemma_texts_push, occurs, same,
    str_opt, text_opt, texts, value_of,
};
use serde_json::Value;
use vstd::prelude::*;
use vstd::string::*;

verus! {

// ---------------------------------------------------------------------------
// The command line
// ---------------------------------------------------------------------------

/// The project that sessions of the program are started for.
pub struct ClaudeAgent {
    work_dir: String,
    config: AgentConfig,
    project_name: String,
}

/// What a [`ClaudeAgent`] holds.
pub struct ClaudeAgentModel {
    pub work_dir: Seq<char>,
    pub config: AgentConfig,
    pub project_name: Seq<char>,
}

impl View for ClaudeAgent {
    type V = ClaudeAgentModel;

    closed spec fn view(&self) -> ClaudeAgentModel {
        ClaudeAgentModel {
            work_dir: self.work_dir@,
            config: self.config,
            project_name: self.project_name@,
        }
    }
}

/// The arguments of every call.
pub open spec fn base_args() -> Seq<Seq<char>> {
    Seq::empty().push("--output-format"@).push("stream-json"@).push("--input-format"@).push(
        "stream-json"@,
    ).push("--permission-prompt-tool"@).push("stdio"@).push("--verbose"@).push("--bare"@)
}

/// The limit on turns.
pub open spec fn with_turns(args: Seq<Seq<char>>, max_turns: Option<u32>) -> Seq<Seq<char>> {
    args.push("--max-turns"@).push(
        decimal(
            match max_turns {
                Some(n) => n as nat,
                None => 50,
            },
        ),
    )
}

/// The permission mode, where it is not the default one.
pub open spec fn with_mode(args: Seq<Seq<char>>, mode: Seq<char>) -> Seq<Seq<char>> {
    if mode == "default"@ || mode.len() == 0 {
        args
    } else if mode == "yolo"@ {
        args.push("--permission-mode"@).push("bypassPermissions"@)
    } else {
        args.push("--permission-mode"@).push(mode)
    }
}

pub open spec fn with_model(args: Seq<Seq<char>>, model: Option<Seq<char>>) -> Seq<Seq<char>> {
    match model {
        Some(m) => args.push("--model"@).push(m),
        None => args,
    }
}

/// The session to resume. The marker for the most recent one makes a fork of
/// it, since it may belong to someone's terminal.
pub open spec fn with_session(args: Seq<Seq<char>>, session_id: Option<Seq<char>>) -> Seq<Seq<char>> {
    match session_id {
        None => args,
        Some(sid) => if sid.len() == 0 {
            args
        } else if sid == CONTINUE_SESSION@ {
            args.push("--continue"@).push("--fork-session"@)
        } else {
            args.push("--resume"@).push(sid)
        },
    }
}

pub open spec fn with_tools(args: Seq<Seq<char>>, tools: Seq<Seq<char>>) -> Seq<Seq<char>> {
    if tools.len() == 0 {
        args
    } else {
        args.push("--allowedTools"@).push(joined(tools, ","@))
    }
}

/// What the program is told about where it runs, up to the project's name.
pub const SYSTEM_PROMPT: &'static str = "You are running inside agentbridge, a bridge that connects you to messaging platforms. Your normal text responses are automatically delivered to the user — just reply normally.\n\n## Formatting\nKeep responses concise. Use markdown. Do NOT include your thinking process in the response — thinking is handled separately and not shown to the user. Never prefix responses with emoji like 💭 or show chain-of-thought reasoning in your reply text.\n\n## Project\nName: ";

pub open spec fn with_prompt(args: Seq<Seq<char>>, project: Seq<char>, work_dir: Seq<char>) -> Seq<
    Seq<char>,
> {
    args.push("--append-system-prompt"@).push(
        SYSTEM_PROMPT@ + project + "\nWork directory: "@ + work_dir,
    )
}

/// The arguments of a call.
pub open spec fn call_args(
    agent: ClaudeAgentModel,
    session_id: Option<Seq<char>>,
    model: Option<Seq<char>>,
    mode: Seq<char>,
    work_dir: Seq<char>,
) -> Seq<Seq<char>> {
    with_prompt(
        with_tools(
            with_session(
                with_model(with_mode(with_turns(base_args(), agent.config.max_turns), mode), model),
                session_id,
            ),
            texts(agent.config.allowed_tools@),
        ),
        agent.project_name,
        work_dir,
    )
}

/// `args` with one more.
fn arg(args: Vec<String>, s: &str) -> (r: Vec<String>)
    ensures
        texts(r@) == texts(args@).push(s@),
{
    let mut r: Vec<String> = args;
    let t: String = s.to_owned();
    proof {
        lemma_texts_push(r@, t);
    }
    r.push(t);
    r
}

impl ClaudeAgent {
    pub fn new(work_dir: String, config: AgentConfig, project_name: String) -> (r: Self)
        ensures
            r@ == (ClaudeAgentModel {
                work_dir: work_dir@,
                config,
                project_name: project_name@,
            }),
    {
        Self { work_dir, config, project_name }
    }

    /// The directory that a session runs in: the given one, else the
    /// project's.
    pub fn effective_work_dir(&self, work_dir_override: Option<&str>) -> (r: String)
        ensures
            r@ == or_text(str_opt(work_dir_override), self@.work_dir),
    {
        match work_dir_override {
            Some(d) => d.to_owned(),
            None => self.work_dir.clone(),
        }
    }

    /// The arguments for the program.
    pub fn build_args(
        &self,
        session_id: Option<&str>,
        model: Option<&str>,
        mode: &str,
        effective_work_dir: &str,
    ) -> (r: Vec<String>)
        ensures
            texts(r@) == call_args(
                self@,
                str_opt(session_id),
                str_opt(model),
                mode@,
                effective_work_dir@,
            ),
    {
        let mut args: Vec<String> = Vec::new();
        assert(texts(args@) =~= Seq::empty());
        args = arg(arg(args, "--output-format"), "stream-json");
        args = arg(arg(args, "--input-format"), "stream-json");
        args = arg(arg(args, "--permission-prompt-tool"), "stdio");
        args = arg(arg(args, "--verbose"), "--bare");
        let turns: u32 = match self.config.max_turns {
            Some(n) => n,
            None => 50,
        };
        let turns: String = decimal_of(turns as u64);
        args = arg(arg(args, "--max-turns"), turns.as_str());
        if !same(mode, "default") && !mode.is_empty() {
            if same(mode, "yolo") {
                args = arg(arg(args, "--permission-mode"), "bypassPermissions");
            } else {
                args = arg(arg(args, "--permission-mode"), mode);
            }
        }
        if let Some(m) = model {
            args = arg(arg(args, "--model"), m);
        }
        if let Some(sid) = session_id {
            if !sid.is_empty() {
                if same(sid, CONTINUE_SESSION) {
                    args = arg(arg(args, "--continue"), "--fork-session");
                } else {
                    args = arg(arg(args, "--resume"), sid);
                }
            }
        }
        assert(texts(self.config.allowed_tools@).len() == self.config.allowed_tools@.len());
        if self.config.allowed_tools.len() > 0 {
            let tools: String = join(&self.config.allowed_tools, ",");
            args = arg(arg(args, "--allowedTools"), tools.as_str());
        }
        let mut prompt: String = SYSTEM_PROMPT.to_owned();
        prompt.append(self.project_name.as_str());
        prompt.append("\nWork directory: ");
        prompt.append(effective_work_dir);
        arg(arg(args, "--append-system-prompt"), prompt.as_str())
    }
}

/// Whether a session that failed to start is tried once more, from scratch: it
/// is where it was to be resumed.
pub fn retries_fresh(session_id: Option<&str>) -> (r: bool)
    ensures
        r == (session_id is Some),
{
    session_id.is_some()
}

/// Whether a permission mode grants every request.
pub open spec fn grants_all(mode: Seq<char>) -> bool {
    mode == "yolo"@ || mode == "auto"@ || mode == "bypassPermissions"@
}

/// Whether permission requests are answered without asking the user.
pub fn auto_approves(mode: &str) -> (r: bool)
    ensures
        r == grants_all(mode@),
{
    same(mode, "yolo") || same(mode, "auto") || same(mode, "bypassPermissions")
}

// ---------------------------------------------------------------------------
// What is written to the program
// ---------------------------------------------------------------------------

/// A user message with the given contents.
pub open spec fn user_json(content: Json) -> Json {
    object2(
        "type"@,
        Json::Text("user"@),
        "message"@,
        object2("role"@, Json::Text("user"@), "content"@, content),
    )
}

fn user_value(content: Value) -> (r: Value)
    ensures
        json(r) == user_json(json(content)),
{
    make_object2(
        "type",
        from_text("user"),
        "message",
        make_object2("role", from_text("user"), "content", content),
    )
}

/// The message for a prompt.
pub fn user_message(prompt: &str) -> (r: Value)
    ensures
        json(r) == user_json(Json::Text(prompt@)),
{
    user_value(from_text(prompt))
}

/// The answer to a permission request.
pub open spec fn response_json(request_id: Seq<char>, allow: bool) -> Json {
    object2(
        "type"@,
        Json::Text("control_response"@),
        "response"@,
        object3(
            "subtype"@,
            Json::Text("success"@),
            "request_id"@,
            Json::Text(request_id),
            "response"@,
            if allow {
                object2(
                    "behavior"@,
                    Json::Text("allow"@),
                    "updatedInput"@,
                    Json::Object(Map::empty()),
                )
            } else {
                object2(
                    "behavior"@,
                    Json::Text("deny"@),
                    "message"@,
                    Json::Text("Permission denied by user."@),
                )
            },
        ),
    )
}

/// The answer to a permission request.
pub fn permission_response(request_id: &str, allow: bool) -> (r: Value)
    ensures
        json(r) == response_json(request_id@, allow),
{
    let verdict: Value = if allow {
        make_object2("behavior", from_text("allow"), "updatedInput", object())
    } else {
        make_object2(
            "behavior",
            from_text("deny"),
            "message",
            from_text("Permission denied by user."),
        )
    };
    make_object2(
        "type",
        from_text("control_response"),
        "response",
        make_object3(
            "subtype",
            from_text("success"),
            "request_id",
            from_text(request_id),
            "response",
            verdict,
        ),
    )
}

/// A value as a line of its own.
pub open spec fn line_of(j: Json) -> Seq<char> {
    rendered(j) + "\n"@
}

/// The line that is written for a value.
pub fn line_for(value: &Value) -> (r: String)
    ensures
        r@ == line_of(json(*value)),
{
    let mut r: String = render(value);
    r.append("\n");
    r
}

// ---------------------------------------------------------------------------
// Attachments
// ---------------------------------------------------------------------------

/// The file extension of a MIME type.
pub open spec fn extension(mime: Seq<char>) -> Seq<char> {
    if mime == "image/png"@ {
        ".png"@
    } else if mime == "image/jpeg"@ || mime == "image/jpg"@ {
        ".jpg"@
    } else if mime == "image/gif"@ {
        ".gif"@
    } else if mime == "image/webp"@ {
        ".webp"@
    } else if mime == "image/svg+xml"@ {
        ".svg"@
    } else if mime == "application/pdf"@ {
        ".pdf"@
    } else if mime == "text/plain"@ {
        ".txt"@
    } else if mime == "application/json"@ {
        ".json"@
    } else {
        ""@
    }
}

/// The file extension of a MIME type; empty for one that is not known.
pub fn ext_from_mime(mime: &str) -> (r: &'static str)
    ensures
        r@ == extension(mime@),
{
    if same(mime, "image/png") {
        ".png"
    } else if same(mime, "image/jpeg") || same(mime, "image/jpg") {
        ".jpg"
    } else if same(mime, "image/gif") {
        ".gif"
    } else if same(mime, "image/webp") {
        ".webp"
    } else if same(mime, "image/svg+xml") {
        ".svg"
    } else if same(mime, "application/pdf") {
        ".pdf"
    } else if same(mime, "text/plain") {
        ".txt"
    } else if same(mime, "application/json") {
        ".json"
    } else {
        ""
    }
}

/// The directory for attachments below a work directory.
pub open spec fn attachments_below(work_dir: Seq<char>) -> Seq<char> {
    path_join(path_join(work_dir, ".agentbridge"@), "attachments"@)
}

/// The directory for attachments below a work directory.
pub fn attachment_dir(work_dir: &str) -> (r: String)
    ensures
        r@ == attachments_below(work_dir@),
{
    let dir: String = join_path(work_dir, ".agentbridge");
    join_path(dir.as_str(), "attachments")
}

/// The file name for the image at index `i`, saved at a time in milliseconds.
pub open spec fn image_name(millis: int, i: nat, mime: Seq<char>) -> Seq<char> {
    "img_"@ + decimal_int(millis) + "_"@ + decimal(i) + extension(mime)
}

/// The file name for the file at index `i`, saved at a time in milliseconds.
pub open spec fn file_name_for(millis: int, i: nat, filename: Seq<char>) -> Seq<char> {
    "file_"@ + decimal_int(millis) + "_"@ + if filename.len() == 0 {
        "file_"@ + decimal(i)
    } else {
        filename
    }
}

/// The file name for the image at index `i`, saved at a time in milliseconds.
pub fn image_file_name(millis: i64, i: usize, mime: &str) -> (r: String)
    ensures
        r@ == image_name(millis as int, i as nat, mime@),
{
    let mut r: String = "img_".to_owned();
    let at: String = decimal_of_signed(millis);
    r.append(at.as_str());
    r.append("_");
    let index: String = decimal_of(i as u64);
    r.append(index.as_str());
    r.append(ext_from_mime(mime));
    r
}

/// The file name for the file at index `i`, saved at a time in milliseconds.
pub fn attached_file_name(millis: i64, i: usize, filename: &str) -> (r: String)
    ensures
        r@ == file_name_for(millis as int, i as nat, filename@),
{
    let mut r: String = "file_".to_owned();
    let at: String = decimal_of_signed(millis);
    r.append(at.as_str());
    r.append("_");
    if filename.is_empty() {
        let mut name: String = "file_".to_owned();
        let index: String = decimal_of(i as u64);
        name.append(index.as_str());
        r.append(name.as_str());
    } else {
        r.append(filename);
    }
    r
}

/// An image that was saved: its path, its MIME type and its bytes.
pub struct SavedImage {
    pub path: String,
    pub mime_type: String,
    pub data: Vec<u8>,
}

/// The paths of saved images.
pub open spec fn image_paths(images: Seq<SavedImage>) -> Seq<Seq<char>> {
    images.map_values(|i: SavedImage| i.path@)
}

/// The block for an image.
pub open spec fn image_json(mime: Seq<char>, data: Seq<u8>) -> Json {
    object2(
        "type"@,
        Json::Text("image"@),
        "source"@,
        object3(
            "type"@,
            Json::Text("base64"@),
            "media_type"@,
            Json::Text(
                if mime.len() == 0 {
                    "image/png"@
                } else {
                    mime
                },
            ),
            "data"@,
            Json::Text(base64(data)),
        ),
    )
}

fn image_block(image: &SavedImage) -> (r: Value)
    ensures
        json(r) == image_json(image.mime_type@, image.data@),
{
    let data: String = base64_encode(image.data.as_slice());
    let mime: &str = if image.mime_type.as_str().is_empty() {
        "image/png"
    } else {
        image.mime_type.as_str()
    };
    make_object2(
        "type",
        from_text("image"),
        "source",
        make_object3(
            "type",
            from_text("base64"),
            "media_type",
            from_text(mime),
            "data",
            from_text(data.as_str()),
        ),
    )
}

/// The text beside attachments: the prompt or a word in its place, and where
/// the attachments are.
pub open spec fn attachment_text(
    prompt: Seq<char>,
    images: Seq<Seq<char>>,
    files: Seq<Seq<char>>,
) -> Seq<char> {
    let start = if prompt.len() > 0 {
        prompt
    } else if files.len() > 0 {
        "Please analyze the attached file(s)."@
    } else {
        "Please analyze the attached image(s)."@
    };
    let pictured = if images.len() > 0 {
        start + "\n\n(Images also saved locally: "@ + joined(images, ", "@) + ")"@
    } else {
        start
    };
    if files.len() > 0 {
        pictured + "\n\n(Files saved locally, please read them: "@ + joined(files, ", "@) + ")"@
    } else {
        pictured
    }
}

/// The text beside attachments.
pub fn text_part(prompt: &str, images: &Vec<String>, files: &Vec<String>) -> (r: String)
    ensures
        r@ == attachment_text(prompt@, texts(images@), texts(files@)),
{
    assert(texts(images@).len() == images.len());
    assert(texts(files@).len() == files.len());
    let mut r: String = if !prompt.is_empty() {
        prompt.to_owned()
    } else if files.len() > 0 {
        "Please analyze the attached file(s).".to_owned()
    } else {
        "Please analyze the attached image(s).".to_owned()
    };
    if images.len() > 0 {
        r.append("\n\n(Images also saved locally: ");
        let paths: String = join(images, ", ");
        r.append(paths.as_str());
        r.append(")");
    }
    if files.len() > 0 {
        r.append("\n\n(Files saved locally, please read them: ");
        let paths: String = join(files, ", ");
        r.append(paths.as_str());
        r.append(")");
    }
    r
}

/// The blocks of a message with attachments: the images, then the text.
pub open spec fn attachment_blocks(
    prompt: Seq<char>,
    images: Seq<SavedImage>,
    files: Seq<Seq<char>>,
) -> Seq<Json> {
    images.map_values(|i: SavedImage| image_json(i.mime_type@, i.data@)).push(
        object2(
            "type"@,
            Json::Text("text"@),
            "text"@,
            Json::Text(attachment_text(prompt, image_paths(images), files)),
        ),
    )
}

/// The message for a prompt with the attachments that could be saved.
pub fn attachment_message(prompt: &str, images: &Vec<SavedImage>, files: &Vec<String>) -> (r: Value)
    ensures
        json(r) == user_json(Json::List(attachment_blocks(prompt@, images@, texts(files@)))),
{
    let ghost pictures = images@.map_values(|i: SavedImage| image_json(i.mime_type@, i.data@));
    let mut blocks: Vec<Value> = Vec::new();
    let mut paths: Vec<String> = Vec::new();
    let mut i: usize = 0;
    assert(json_list(blocks@) =~= pictures.take(0));
    assert(texts(paths@) =~= image_paths(images@).take(0));
    while i < images.len()
        invariant
            i <= images.len(),
            pictures == images@.map_values(
                |i: SavedImage| image_json(i.mime_type@, i.data@),
            ),
            json_list(blocks@) == pictures.take(i as int),
            texts(paths@) == image_paths(images@).take(i as int),
        decreases images.len() - i,
    {
        let block: Value = image_block(&images[i]);
        let path: String = images[i].path.clone();
        proof {
            assert(json_list(blocks@.push(block)) =~= json_list(blocks@).push(json(block)));
            assert(pictures.take(i as int).push(json(block)) =~= pictures.take(i + 1));
            lemma_texts_push(paths@, path);
            assert(image_paths(images@).take(i as int).push(path@) =~= image_paths(images@).take(
                i + 1,
            ));
        }
        blocks.push(block);
        paths.push(path);
        i += 1;
    }
    assert(pictures.take(i as int) =~= pictures);
    assert(image_paths(images@).take(i as int) =~= image_paths(images@));
    let text: String = text_part(prompt, &paths, files);
    let block: Value = make_object2("type", from_text("text"), "text", from_text(text.as_str()));
    assert(json_list(blocks@.push(block)) =~= json_list(blocks@).push(json(block)));
    blocks.push(block);
    user_value(from_list(blocks))
}

// ---------------------------------------------------------------------------
// Base64
// ---------------------------------------------------------------------------

/// The character for six bits.
pub open spec fn symbol(i: int) -> char {
    if i < 26 {
        (65 + i) as char
    } else if i < 52 {
        (71 + i) as char
    } else if i < 62 {
        (i - 4) as char
    } else if i == 62 {
        '+'
    } else {
        '/'
    }
}

/// The text for bytes: four characters for each three of them, filled up with
/// `=`.
pub open spec fn base64(d: Seq<u8>) -> Seq<char>
    decreases d.len(),
{
    if d.len() == 0 {
        Seq::empty()
    } else if d.len() == 1 {
        seq![symbol(d[0] as int / 4), symbol(d[0] as int % 4 * 16), '=', '=']
    } else if d.len() == 2 {
        seq![
            symbol(d[0] as int / 4),
            symbol(d[0] as int % 4 * 16 + d[1] as int / 16),
            symbol(d[1] as int % 16 * 4),
            '=',
        ]
    } else {
        seq![
            symbol(d[0] as int / 4),
            symbol(d[0] as int % 4 * 16 + d[1] as int / 16),
            symbol(d[1] as int % 16 * 4 + d[2] as int / 64),
            symbol(d[2] as int % 64),
        ] + base64(d.skip(3))
    }
}

fn symbol_of(i: u8) -> (c: char)
    requires
        i < 64,
    ensures
        c == symbol(i as int),
{
    if i < 26 {
        (65 + i) as char
    } else if i < 52 {
        (71 + i) as char
    } else if i < 62 {
        (i - 4) as char
    } else if i == 62 {
        '+'
    } else {
        '/'
    }
}

/// The base64 text of bytes.
pub fn base64_encode(data: &[u8]) -> (r: String)
    ensures
        r@ == base64(data@),
{
    let mut r: String = String::new();
    let mut i: usize = 0;
    assert(data@.skip(0) =~= data@);
    assert(r@ + base64(data@) =~= base64(data@));
    while i < data.len()
        invariant
            i <= data.len(),
            base64(data@) == r@ + base64(data@.skip(i as int)),
        decreases data.len() - i,
    {
        let ghost rest = data@.skip(i as int);
        let ghost before = r@;
        let left: usize = data.len() - i;
        let b0: u8 = data[i];
        assert(rest[0] == b0);
        r.push(symbol_of(b0 / 4));
        if left == 1 {
            r.push(symbol_of(b0 % 4 * 16));
            r.push('=');
            r.push('=');
            proof {
                assert(r@ =~= before + base64(rest));
                assert(data@.skip(i + 1) =~= Seq::<u8>::empty());
                assert(r@ + Seq::<char>::empty() =~= r@);
            }
            i = i + 1;
        } else if left == 2 {
            let b1: u8 = data[i + 1];
            assert(rest[1] == b1);
            r.push(symbol_of(b0 % 4 * 16 + b1 / 16));
            r.push(symbol_of(b1 % 16 * 4));
            r.push('=');
            proof {
                assert(r@ =~= before + base64(rest));
                assert(data@.skip(i + 2) =~= Seq::<u8>::empty());
                assert(r@ + Seq::<char>::empty() =~= r@);
            }
            i = i + 2;
        } else {
            let b1: u8 = data[i + 1];
            let b2: u8 = data[i + 2];
            assert(rest[1] == b1);
            assert(rest[2] == b2);
            r.push(symbol_of(b0 % 4 * 16 + b1 / 16));
            r.push(symbol_of(b1 % 16 * 4 + b2 / 64));
            r.push(symbol_of(b2 % 64));
            proof {
                assert(rest.skip(3) =~= data@.skip(i + 3));
                assert(r@ + base64(rest.skip(3)) =~= before + base64(rest));
            }
            i = i + 3;
        }
    }
    assert(data@.skip(i as int) =~= Seq::<u8>::empty());
    assert(r@ + Seq::<char>::empty() =~= r@);
    r
}

// ---------------------------------------------------------------------------
// What the program writes
// ---------------------------------------------------------------------------

/// A short summary of what a tool is called with: the path or the command
/// where there is one, else the start of the JSON text.
pub open spec fn summary(tool: Seq<char>, input: Json) -> Seq<char> {
    let path = member(input, "file_path"@);
    let main = if tool == "Read"@ || tool == "Glob"@ || tool == "Grep"@ {
        as_text(
            if path is Some {
                path
            } else {
                member(input, "pattern"@)
            },
        )
    } else if tool == "Edit"@ || tool == "Write"@ {
        as_text(path)
    } else if tool == "Bash"@ {
        match as_text(member(input, "command"@)) {
            Some(c) => Some(clipped(c, 100, "..."@)),
            None => None,
        }
    } else {
        None
    };
    match main {
        Some(text) => text,
        None => clipped(rendered(input), 200, "..."@),
    }
}

/// A short summary of what a tool is called with.
pub fn summarize_tool_input(tool_name: &str, input: &Value) -> (r: String)
    ensures
        r@ == summary(tool_name@, json(*input)),
{
    let path: Option<&Value> = at(Some(input), "file_path");
    if same(tool_name, "Read") || same(tool_name, "Glob") || same(tool_name, "Grep") {
        let found: Option<&Value> = if path.is_some() {
            path
        } else {
            at(Some(input), "pattern")
        };
        if let Some(p) = text_of(found) {
            return p.to_owned();
        }
    } else if same(tool_name, "Edit") || same(tool_name, "Write") {
        if let Some(p) = text_of(path) {
            return p.to_owned();
        }
    } else if same(tool_name, "Bash") {
        if let Some(c) = text_of(at(Some(input), "command")) {
            return clip(c, 100, "...");
        }
    }
    let text: String = render(input);
    clip(text.as_str(), 200, "...")
}

/// What a block of an assistant message tells.
pub open spec fn block_event(item: Json) -> Option<Told> {
    let kind = text_else(member(item, "type"@), ""@);
    if kind == "text"@ {
        match as_text(member(item, "text"@)) {
            Some(t) => if t.len() > 0 {
                Some(Told::Text { content: t })
            } else {
                None
            },
            None => None,
        }
    } else if kind == "tool_use"@ {
        let tool = text_else(member(item, "name"@), "unknown"@);
        if tool == "AskUserQuestion"@ {
            None
        } else {
            Some(
                Told::ToolUse {
                    id: text_else(member(item, "id"@), ""@),
                    tool,
                    input: match member(item, "input"@) {
                        Some(input) => summary(tool, input),
                        None => Seq::empty(),
                    },
                },
            )
        }
    } else if kind == "thinking"@ {
        match as_text(member(item, "thinking"@)) {
            Some(t) => if t.len() > 0 {
                Some(Told::Thinking { content: t })
            } else {
                None
            },
            None => None,
        }
    } else {
        None
    }
}

/// What the blocks of an assistant message tell, in order.
pub open spec fn block_events(items: Seq<Json>) -> Seq<Told>
    decreases items.len(),
{
    if items.len() == 0 {
        Seq::empty()
    } else {
        match block_event(items.last()) {
            Some(e) => block_events(items.drop_last()).push(e),
            None => block_events(items.drop_last()),
        }
    }
}

/// What an assistant message tells; nothing where it tells nothing.
pub open spec fn assistant_events(raw: Json) -> Option<Seq<Told>> {
    match as_list(member_of(member(raw, "message"@), "content"@)) {
        Some(items) => if block_events(items).len() > 0 {
            Some(block_events(items))
        } else {
            None
        },
        None => None,
    }
}

fn event_of_block(item: &Value) -> (r: Option<AgentEvent>)
    ensures
        match r {
            Some(e) => block_event(json(*item)) == Some(e@),
            None => block_event(json(*item)) is None,
        },
{
    let kind: String = text_or(at(Some(item), "type"), "");
    proof {
        reveal_strlit("text");
        reveal_strlit("tool_use");
        reveal_strlit("thinking");
    }
    if same(kind.as_str(), "text") {
        match text_of(at(Some(item), "text")) {
            Some(t) => if !t.is_empty() {
                Some(AgentEvent::Text { content: t.to_owned() })
            } else {
                None
            },
            None => None,
        }
    } else if same(kind.as_str(), "tool_use") {
        let tool: String = text_or(at(Some(item), "name"), "unknown");
        if same(tool.as_str(), "AskUserQuestion") {
            return None;
        }
        let id: String = text_or(at(Some(item), "id"), "");
        let input: String = match at(Some(item), "input") {
            Some(i) => summarize_tool_input(tool.as_str(), i),
            None => String::new(),
        };
        Some(AgentEvent::ToolUse { id, tool, input })
    } else if same(kind.as_str(), "thinking") {
        match text_of(at(Some(item), "thinking")) {
            Some(t) => if !t.is_empty() {
                Some(AgentEvent::Thinking { content: t.to_owned() })
            } else {
                None
            },
            None => None,
        }
    } else {
        None
    }
}

/// The events of an assistant message; nothing where there are none.
pub fn parse_assistant_message(raw: &Value) -> (r: Option<Vec<AgentEvent>>)
    ensures
        match r {
            Some(events) => assistant_events(json(*raw)) == Some(events_view(events@)),
            None => assistant_events(json(*raw)) is None,
        },
{
    let message: Option<&Value> = at(Some(raw), "message");
    let items: &Vec<Value> = match list_of(at(message, "content")) {
        Some(items) => items,
        None => {
            return None;
        },
    };
    let ghost all = json_list(items@);
    let mut events: Vec<AgentEvent> = Vec::new();
    let mut i: usize = 0;
    assert(events_view(events@) =~= block_events(all.take(0)));
    while i < items.len()
        invariant
            i <= items.len(),
            all == json_list(items@),
            events_view(events@) == block_events(all.take(i as int)),
        decreases items.len() - i,
    {
        proof {
            assert(all.take(i + 1).drop_last() =~= all.take(i as int));
            assert(all.take(i + 1).last() == json(items@[i as int]));
        }
        if let Some(e) = event_of_block(&items[i]) {
            assert(events_view(events@.push(e)) =~= events_view(events@).push(e@));
            events.push(e);
        }
        i += 1;
    }
    assert(all.take(i as int) =~= all);
    assert(events_view(events@).len() == events.len());
    if events.len() == 0 {
        None
    } else {
        Some(events)
    }
}

/// What a line of output brings: events, the session id where it is told, and
/// answers to write back.
pub struct Reading {
    pub events: Seq<Told>,
    pub session_id: Option<Seq<char>>,
    pub responses: Seq<Json>,
}

/// What a line of output brings.
pub struct LineRead {
    pub events: Vec<AgentEvent>,
    pub session_id: Option<String>,
    pub responses: Vec<Value>,
}

impl View for LineRead {
    type V = Reading;

    open spec fn view(&self) -> Reading {
        Reading {
            events: events_view(self.events@),
            session_id: text_opt(self.session_id),
            responses: json_list(self.responses@),
        }
    }
}

pub open spec fn nothing_read() -> Reading {
    Reading { events: Seq::empty(), session_id: None, responses: Seq::empty() }
}

/// A reading of one event.
pub open spec fn told(e: Told) -> Reading {
    Reading { events: Seq::empty().push(e), session_id: None, responses: Seq::empty() }
}

/// A session id that is worth keeping.
pub open spec fn known_id(sid: Seq<char>) -> Option<Seq<char>> {
    if sid.len() == 0 {
        None
    } else {
        Some(sid)
    }
}

/// The texts in an array; none where the value is no array.
pub open spec fn text_list(j: Option<Json>) -> Seq<Seq<char>> {
    match as_list(j) {
        Some(items) => texts_in(items),
        None => Seq::empty(),
    }
}

pub open spec fn system_reading(raw: Json) -> Reading {
    let sid = text_else(member(raw, "session_id"@), ""@);
    Reading {
        session_id: known_id(sid),
        ..told(
            Told::System {
                session_id: sid,
                tools: text_list(member(raw, "tools"@)),
                skills: text_list(member(raw, "skills"@)),
            },
        )
    }
}

/// A number of tokens, in the range of 32 bits.
pub open spec fn token_count(j: Option<Json>) -> u32 {
    match as_unsigned(j) {
        Some(n) => (n % 0x1_0000_0000) as u32,
        None => 0,
    }
}

pub open spec fn result_reading(raw: Json) -> Reading {
    let sid = text_else(member(raw, "session_id"@), ""@);
    let usage = member(raw, "usage"@);
    Reading {
        session_id: known_id(sid),
        ..told(
            Told::Result {
                content: text_else(member(raw, "result"@), ""@),
                session_id: sid,
                input_tokens: token_count(member_of(usage, "input_tokens"@)),
                output_tokens: token_count(member_of(usage, "output_tokens"@)),
            },
        )
    }
}

/// A request for permission: granted at once and shown as a tool call, or
/// handed on.
pub open spec fn control_reading(raw: Json, auto_approve: bool) -> Reading {
    let id = text_else(member(raw, "request_id"@), ""@);
    match member(raw, "request"@) {
        None => nothing_read(),
        Some(request) => if text_else(member(request, "subtype"@), ""@) != "can_use_tool"@ {
            nothing_read()
        } else {
            let tool = text_else(member(request, "tool_name"@), "unknown"@);
            let input = match member(request, "input"@) {
                Some(i) => i,
                None => Json::Object(Map::empty()),
            };
            if auto_approve {
                Reading {
                    responses: Seq::empty().push(response_json(id, true)),
                    ..told(Told::ToolUse { id, tool, input: summary(tool, input) })
                }
            } else {
                told(
                    Told::PermissionRequest {
                        request_id: id,
                        tool,
                        input,
                        options: Seq::empty(),
                    },
                )
            }
        },
    }
}

/// The message of an error.
pub open spec fn error_text(raw: Json) -> Seq<char> {
    match as_text(member_of(member(raw, "error"@), "message"@)) {
        Some(m) => m,
        None => text_else(member(raw, "message"@), "unknown error"@),
    }
}

/// What a message of the program brings.
pub open spec fn reading(raw: Json, auto_approve: bool) -> Reading {
    let kind = text_else(member(raw, "type"@), ""@);
    if kind == "system"@ {
        system_reading(raw)
    } else if kind == "assistant"@ {
        match assistant_events(raw) {
            Some(events) => Reading { events, ..nothing_read() },
            None => nothing_read(),
        }
    } else if kind == "result"@ {
        result_reading(raw)
    } else if kind == "control_request"@ {
        control_reading(raw, auto_approve)
    } else if kind == "error"@ {
        told(Told::Error { message: error_text(raw) })
    } else {
        nothing_read()
    }
}

fn read_nothing() -> (r: LineRead)
    ensures
        r@ == nothing_read(),
{
    let r: LineRead = LineRead { events: Vec::new(), session_id: None, responses: Vec::new() };
    assert(r@.events =~= Seq::empty());
    assert(r@.responses =~= Seq::empty());
    r
}

fn read_one(e: AgentEvent) -> (r: LineRead)
    ensures
        r@ == told(e@),
{
    let mut r: LineRead = read_nothing();
    r.events.push(e);
    assert(r@.events =~= Seq::empty().push(e@));
    r
}

fn keep_id(sid: &String) -> (r: Option<String>)
    ensures
        text_opt(r) == known_id(sid@),
{
    if sid.as_str().is_empty() {
        None
    } else {
        Some(sid.clone())
    }
}

fn read_system(raw: &Value) -> (r: LineRead)
    ensures
        r@ == system_reading(json(*raw)),
{
    let session_id: String = text_or(at(Some(raw), "session_id"), "");
    let tools: Vec<String> = text_items(at(Some(raw), "tools"));
    let skills: Vec<String> = text_items(at(Some(raw), "skills"));
    let kept: Option<String> = keep_id(&session_id);
    let mut r: LineRead = read_one(AgentEvent::System { session_id, tools, skills });
    r.session_id = kept;
    r
}

fn tokens_of(v: Option<&Value>) -> (r: u32)
    ensures
        r == token_count(json_opt(v)),
{
    match unsigned_of(v) {
        Some(n) => (n % 0x1_0000_0000) as u32,
        None => 0,
    }
}

fn read_result(raw: &Value) -> (r: LineRead)
    ensures
        r@ == result_reading(json(*raw)),
{
    let content: String = text_or(at(Some(raw), "result"), "");
    let session_id: String = text_or(at(Some(raw), "session_id"), "");
    let usage: Option<&Value> = at(Some(raw), "usage");
    let input_tokens: u32 = tokens_of(at(usage, "input_tokens"));
    let output_tokens: u32 = tokens_of(at(usage, "output_tokens"));
    let kept: Option<String> = keep_id(&session_id);
    let mut r: LineRead = read_one(
        AgentEvent::Result { content, session_id, input_tokens, output_tokens },
    );
    r.session_id = kept;
    r
}

fn read_control(raw: &Value, auto_approve: bool) -> (r: LineRead)
    ensures
        r@ == control_reading(json(*raw), auto_approve),
{
    let request_id: String = text_or(at(Some(raw), "request_id"), "");
    let request: &Value = match at(Some(raw), "request") {
        Some(r) => r,
        None => {
            return read_nothing();
        },
    };
    let subtype: String = text_or(at(Some(request), "subtype"), "");
    if !same(subtype.as_str(), "can_use_tool") {
        return read_nothing();
    }
    let tool: String = text_or(at(Some(request), "tool_name"), "unknown");
    let input: Value = match at(Some(request), "input") {
        Some(i) => value_clone(i),
        None => object(),
    };
    if auto_approve {
        let response: Value = permission_response(request_id.as_str(), true);
        let input: String = summarize_tool_input(tool.as_str(), &input);
        let mut r: LineRead = read_one(AgentEvent::ToolUse { id: request_id, tool, input });
        r.responses.push(response);
        assert(r@.responses =~= Seq::empty().push(json(response)));
        r
    } else {
        let options: Vec<crate::message::PermissionOption> = Vec::new();
        assert(options_view(options@) =~= Seq::empty());
        read_one(AgentEvent::PermissionRequest { request_id, tool, input, options })
    }
}

/// What a message of the program brings.
pub fn read_message(raw: &Value, auto_approve: bool) -> (r: LineRead)
    ensures
        r@ == reading(json(*raw), auto_approve),
{
    let kind: String = text_or(at(Some(raw), "type"), "");
    let kind: &str = kind.as_str();
    if same(kind, "system") {
        read_system(raw)
    } else if same(kind, "assistant") {
        match parse_assistant_message(raw) {
            Some(events) => {
                let mut r: LineRead = read_nothing();
                r.events = events;
                r
            },
            None => read_nothing(),
        }
    } else if same(kind, "result") {
        read_result(raw)
    } else if same(kind, "control_request") {
        read_control(raw, auto_approve)
    } else if same(kind, "error") {
        let message: String = match text_of(at(at(Some(raw), "error"), "message")) {
            Some(m) => m.to_owned(),
            None => text_or(at(Some(raw), "message"), "unknown error"),
        };
        read_one(AgentEvent::Error { message })
    } else {
        read_nothing()
    }
}

/// What a line brings that was parsed, or could not be.
pub open spec fn line_reading(line: Seq<char>, raw: Option<Json>, auto_approve: bool) -> Reading {
    if line.len() == 0 {
        nothing_read()
    } else {
        match raw {
            Some(r) => reading(r, auto_approve),
            None => nothing_read(),
        }
    }
}

/// What a line of the program's output brings; a line that is no JSON brings
/// nothing.
pub fn read_line(line: &str, auto_approve: bool) -> (r: LineRead)
    ensures
        r@ == line_reading(line@, parsed(line@), auto_approve),
{
    if line.is_empty() {
        return read_nothing();
    }
    match parse(line) {
        Some(raw) => read_message(&raw, auto_approve),
        None => read_nothing(),
    }
}

// ---------------------------------------------------------------------------
// Shutdown
// ---------------------------------------------------------------------------

/// How far the end of a program has come.
#[derive(PartialEq, Eq, Structural, Clone, Copy, Debug)]
pub enum Shutdown {
    /// Its input is closed; it may end by itself.
    Closing,
    /// It was told to end.
    Terminating,
    /// It is gone.
    Gone,
}

/// What is done to a program that has to go.
#[derive(PartialEq, Eq, Structural, Clone, Copy, Debug)]
pub enum ShutdownAction {
    CloseInput,
    Terminate,
    Kill,
}

/// Seconds for a program to end by itself, and after it was told to.
pub const CLOSING_SECS: u64 = 120;

pub const TERMINATING_SECS: u64 = 5;

/// How long a program is waited for in each step of its end, in seconds.
pub open spec fn patience(s: Shutdown) -> u64 {
    match s {
        Shutdown::Closing => CLOSING_SECS,
        Shutdown::Terminating => TERMINATING_SECS,
        Shutdown::Gone => 0,
    }
}

impl Shutdown {
    /// The first step, and what is done.
    pub fn begin() -> (r: (Shutdown, ShutdownAction))
        ensures
            r == (Shutdown::Closing, ShutdownAction::CloseInput),
    {
        (Shutdown::Closing, ShutdownAction::CloseInput)
    }

    /// How long to wait for the program.
    pub fn wait_secs(&self) -> (r: u64)
        ensures
            r == patience(*self),
    {
        match self {
            Shutdown::Closing => CLOSING_SECS,
            Shutdown::Terminating => TERMINATING_SECS,
            Shutdown::Gone => 0,
        }
    }

    /// The next step after a wait, and what is done.
    pub fn next(self, exited: bool) -> (r: (Shutdown, Option<ShutdownAction>))
        ensures
            r == shutdown_next(self, exited),
    {
        match self {
            Shutdown::Gone => (Shutdown::Gone, None),
            Shutdown::Closing => if exited {
                (Shutdown::Gone, None)
            } else {
                (Shutdown::Terminating, Some(ShutdownAction::Terminate))
            },
            Shutdown::Terminating => if exited {
                (Shutdown::Gone, None)
            } else {
                (Shutdown::Gone, Some(ShutdownAction::Kill))
            },
        }
    }
}

/// The next step after a wait, and what is done.
pub open spec fn shutdown_next(s: Shutdown, exited: bool) -> (Shutdown, Option<ShutdownAction>) {
    if exited || s == Shutdown::Gone {
        (Shutdown::Gone, None)
    } else if s == Shutdown::Closing {
        (Shutdown::Terminating, Some(ShutdownAction::Terminate))
    } else {
        (Shutdown::Gone, Some(ShutdownAction::Kill))
    }
}

// ---------------------------------------------------------------------------
// Laws
// ---------------------------------------------------------------------------

/// A program is gone after two waits at most, and it is killed only after it
/// was told to end and did not.
pub proof fn law_shutdown_escalates(first: bool, second: bool)
    ensures
        ({
            let (s1, a1) = shutdown_next(Shutdown::Closing, first);
            let (s2, a2) = shutdown_next(s1, second);
            &&& s2 == Shutdown::Gone
            &&& a1 != Some(ShutdownAction::Kill)
            &&& a2 == Some(ShutdownAction::Kill) ==> a1 == Some(ShutdownAction::Terminate)
                && !second
            &&& first ==> a1 is None && a2 is None
        }),
{
}

/// The six bits that a character stands for.
pub open spec fn bits(c: char) -> int {
    if 'A' <= c <= 'Z' {
        c as int - 65
    } else if 'a' <= c <= 'z' {
        c as int - 71
    } else if '0' <= c <= '9' {
        c as int + 4
    } else if c == '+' {
        62
    } else {
        63
    }
}

/// The bytes that a base64 text stands for.
pub open spec fn unbase64(s: Seq<char>) -> Seq<u8>
    decreases s.len(),
{
    if s.len() < 4 {
        Seq::empty()
    } else {
        let (a, b, c, d) = (bits(s[0]), bits(s[1]), bits(s[2]), bits(s[3]));
        if s[2] == '=' {
            seq![(a * 4 + b / 16) as u8]
        } else if s[3] == '=' {
            seq![(a * 4 + b / 16) as u8, (b % 16 * 16 + c / 4) as u8]
        } else {
            seq![(a * 4 + b / 16) as u8, (b % 16 * 16 + c / 4) as u8, (c % 4 * 64 + d) as u8]
                + unbase64(s.skip(4))
        }
    }
}

proof fn lemma_bits(i: int)
    requires
        0 <= i < 64,
    ensures
        bits(symbol(i)) == i,
        symbol(i) != '=',
{
}

/// The text of bytes stands for them: nothing is lost.
pub proof fn law_base64_round_trip(d: Seq<u8>)
    ensures
        unbase64(base64(d)) == d,
    decreases d.len(),
{
    if d.len() == 0 {
        assert(d =~= Seq::empty());
    } else {
        let s = base64(d);
        let x = d[0] as int;
        lemma_bits(x / 4);
        if d.len() == 1 {
            lemma_bits(x % 4 * 16);
            assert(unbase64(s) =~= d);
        } else {
            let y = d[1] as int;
            lemma_bits(x % 4 * 16 + y / 16);
            if d.len() == 2 {
                lemma_bits(y % 16 * 4);
                assert(unbase64(s) =~= d);
            } else {
                let z = d[2] as int;
                lemma_bits(y % 16 * 4 + z / 64);
                lemma_bits(z % 64);
                assert(s.skip(4) =~= base64(d.skip(3)));
                law_base64_round_trip(d.skip(3));
                assert(unbase64(s) =~= d);
            }
        }
    }
}

/// The text takes four characters for each three bytes, the last ones filled
/// up.
pub proof fn law_base64_length(d: Seq<u8>)
    ensures
        base64(d).len() == (d.len() + 2) / 3 * 4,
    decreases d.len(),
{
    if d.len() > 2 {
        law_base64_length(d.skip(3));
    }
}

/// With every request granted no one is asked, and without that no answer is
/// written before someone was.
pub proof fn law_requests_are_granted_or_asked(raw: Json)
    ensures
        forall|i: int|
            0 <= i < control_reading(raw, true).events.len() ==> !((#[trigger] control_reading(
                raw,
                true,
            ).events[i]) is PermissionRequest),
        control_reading(raw, false).responses.len() == 0,
        control_reading(raw, true).responses.len() == control_reading(raw, false).events.len(),
{
}

/// The agent is told of every attachment: the path of each saved image and of
/// each saved file stands in the text, whatever the prompt is, and the text
/// starts with the prompt.
pub proof fn law_attachments_are_named(
    prompt: Seq<char>,
    images: Seq<Seq<char>>,
    files: Seq<Seq<char>>,
)
    ensures
        prompt.is_prefix_of(attachment_text(prompt, images, files)),
        forall|i: int|
            0 <= i < images.len() ==> occurs(
                attachment_text(prompt, images, files),
                #[trigger] images[i],
            ),
        forall|i: int|
            0 <= i < files.len() ==> occurs(
                attachment_text(prompt, images, files),
                #[trigger] files[i],
            ),
        images.len() == 0 && files.len() == 0 && prompt.len() > 0 ==> attachment_text(
            prompt,
            images,
            files,
        ) == prompt,
        attachment_text(prompt, images, files).len() > 0,
{
    let all = attachment_text(prompt, images, files);
    let start = if prompt.len() > 0 {
        prompt
    } else if files.len() > 0 {
        "Please analyze the attached file(s)."@
    } else {
        "Please analyze the attached image(s)."@
    };
    reveal_strlit("Please analyze the attached file(s).");
    reveal_strlit("Please analyze the attached image(s).");
    let noted = "\n\n(Images also saved locally: "@;
    let told = "\n\n(Files saved locally, please read them: "@;
    let pictured = if images.len() > 0 {
        start + noted + joined(images, ", "@) + ")"@
    } else {
        start
    };
    let rest = if files.len() > 0 {
        told + joined(files, ", "@) + ")"@
    } else {
        Seq::<char>::empty()
    };
    assert(all =~= pictured + rest);
    assert(prompt =~= all.take(prompt.len() as int));
    assert forall|i: int| 0 <= i < images.len() implies occurs(all, #[trigger] images[i]) by {
        let (a, b) = lemma_part_occurs(images, ", "@, i);
        let before = start + noted + a;
        let after = b + ")"@ + rest;
        assert(all =~= before + images[i] + after);
        lemma_occurs_in(before, images[i], after);
    }
    assert forall|i: int| 0 <= i < files.len() implies occurs(all, #[trigger] files[i]) by {
        let (a, b) = lemma_part_occurs(files, ", "@, i);
        let before = pictured + told + a;
        let after = b + ")"@;
        assert(all =~= before + files[i] + after);
        lemma_occurs_in(before, files[i], after);
    }
}

/// A message with attachments holds each image as the agent can read it: its
/// block comes at its place, and its data reads back as the image's bytes. The
/// text comes last.
pub proof fn law_attached_images_read_back(
    prompt: Seq<char>,
    images: Seq<SavedImage>,
    files: Seq<Seq<char>>,
)
    ensures
        ({
            let blocks = attachment_blocks(prompt, images, files);
            &&& blocks.len() == images.len() + 1
            &&& forall|i: int|
                0 <= i < images.len() ==> ({
                    let source = member(#[trigger] blocks[i], "source"@);
                    &&& as_text(member(blocks[i], "type"@)) == Some("image"@)
                    &&& as_text(member_of(source, "type"@)) == Some("base64"@)
                    &&& as_text(member_of(source, "data"@)) is Some
                    &&& unbase64(as_text(member_of(source, "data"@))->0) == images[i].data@
                    &&& images[i].mime_type@.len() > 0 ==> as_text(member_of(source, "media_type"@))
                        == Some(images[i].mime_type@)
                })
            &&& as_text(member(blocks.last(), "type"@)) == Some("text"@)
            &&& as_text(member(blocks.last(), "text"@)) is Some
            &&& prompt.is_prefix_of(as_text(member(blocks.last(), "text"@))->0)
        }),
{
    let blocks = attachment_blocks(prompt, images, files);
    reveal_strlit("type");
    reveal_strlit("source");
    reveal_strlit("media_type");
    reveal_strlit("data");
    reveal_strlit("text");
    assert("type"@.len() == 4 && "source"@.len() == 6 && "media_type"@.len() == 10);
    assert("data"@[0] != "type"@[0]);
    assert("text"@[1] != "type"@[1]);
    law_attachments_are_named(prompt, image_paths(images), files);
    assert forall|i: int| 0 <= i < images.len() implies ({
        let source = member(#[trigger] blocks[i], "source"@);
        &&& as_text(member(blocks[i], "type"@)) == Some("image"@)
        &&& as_text(member_of(source, "type"@)) == Some("base64"@)
        &&& as_text(member_of(source, "data"@)) is Some
        &&& unbase64(as_text(member_of(source, "data"@))->0) == images[i].data@
        &&& images[i].mime_type@.len() > 0 ==> as_text(member_of(source, "media_type"@)) == Some(
            images[i].mime_type@,
        )
    }) by {
        law_base64_round_trip(images[i].data@);
        assert(blocks[i] == image_json(images[i].mime_type@, images[i].data@));
    }
}

/// An answer to a permission request names the request, and says "allow" where
/// it is allowed and "deny" where it is not.
pub proof fn law_answer_says_what_was_decided(request_id: Seq<char>, allow: bool)
    ensures
        ({
            let r = member(response_json(request_id, allow), "response"@);
            let behavior = as_text(member_of(member_of(r, "response"@), "behavior"@));
            &&& as_text(member(response_json(request_id, allow), "type"@)) == Some(
                "control_response"@,
            )
            &&& as_text(member_of(r, "request_id"@)) == Some(request_id)
            &&& allow ==> behavior == Some("allow"@)
            &&& !allow ==> behavior == Some("deny"@)
        }),
{
    reveal_strlit("type");
    reveal_strlit("response");
    reveal_strlit("subtype");
    reveal_strlit("request_id");
    reveal_strlit("behavior");
    reveal_strlit("updatedInput");
    reveal_strlit("message");
    assert("type"@.len() == 4 && "subtype"@.len() == 7 && "request_id"@.len() == 10);
    assert("message"@.len() == 7 && "behavior"@.len() == 8 && "updatedInput"@.len() == 12);
}

/// A message to the agent is the user's, with the given contents.
pub proof fn law_user_message_holds_its_contents(content: Json)
    ensures
        as_text(member(user_json(content), "type"@)) == Some("user"@),
        as_text(member_of(member(user_json(content), "message"@), "role"@)) == Some("user"@),
        member_of(member(user_json(content), "message"@), "content"@) == Some(content),
{
    reveal_strlit("type");
    reveal_strlit("message");
    reveal_strlit("role");
    reveal_strlit("content");
    assert("type"@.len() == 4 && "message"@.len() == 7);
    assert("role"@.len() == 4 && "content"@.len() == 7);
}

/// Whether a flag stands among arguments with a value right behind it.
pub open spec fn flag_given(args: Seq<Seq<char>>, flag: Seq<char>, value: Seq<char>) -> bool {
    exists|i: int| 0 <= i < args.len() - 1 && #[trigger] args[i] == flag && args[i + 1] == value
}

proof fn lemma_flag_stays(
    args: Seq<Seq<char>>,
    more: Seq<Seq<char>>,
    flag: Seq<char>,
    value: Seq<char>,
)
    requires
        flag_given(args, flag, value),
        args.is_prefix_of(more),
    ensures
        flag_given(more, flag, value),
{
    let i = choose|i: int| 0 <= i < args.len() - 1 && #[trigger] args[i] == flag && args[i + 1]
        == value;
    assert(more[i] == args[i] && more[i + 1] == args[i + 1]);
}

proof fn lemma_flag_pushed(args: Seq<Seq<char>>, flag: Seq<char>, value: Seq<char>)
    ensures
        flag_given(args.push(flag).push(value), flag, value),
{
    let all = args.push(flag).push(value);
    assert(all[args.len() as int] == flag && all[args.len() as int + 1] == value);
}

/// The program is called as it was asked for: with the model and the mode that
/// were chosen, for the session that is to be resumed, with the tools that are
/// allowed and a limit on turns, and told the project and the directory.
pub proof fn law_call_carries_the_choices(
    agent: ClaudeAgentModel,
    session_id: Option<Seq<char>>,
    model: Option<Seq<char>>,
    mode: Seq<char>,
    work_dir: Seq<char>,
)
    ensures
        ({
            let args = call_args(agent, session_id, model, mode, work_dir);
            let plain = call_args(agent, None, None, ""@, work_dir);
            let n = args.len();
            &&& flag_given(args, "--output-format"@, "stream-json"@)
            &&& flag_given(args, "--input-format"@, "stream-json"@)
            &&& flag_given(args, "--permission-prompt-tool"@, "stdio"@)
            &&& exists|t: Seq<char>|
                #[trigger] flag_given(args, "--max-turns"@, t) && value_of(t)
                    == match agent.config.max_turns {
                    Some(k) => k as int,
                    None => 50,
                }
            &&& model is Some ==> flag_given(args, "--model"@, model->0)
            &&& mode == "yolo"@ ==> flag_given(args, "--permission-mode"@, "bypassPermissions"@)
            &&& mode == "plan"@ || mode == "auto"@ ==> flag_given(
                args,
                "--permission-mode"@,
                mode,
            )
            &&& session_id is Some && session_id->0.len() > 0 && session_id->0 != "__continue__"@
                ==> flag_given(args, "--resume"@, session_id->0)
            &&& session_id == Some("__continue__"@) ==> flag_given(
                args,
                "--continue"@,
                "--fork-session"@,
            )
            &&& forall|i: int|
                0 <= i < agent.config.allowed_tools@.len() ==> exists|t: Seq<char>|
                    #[trigger] flag_given(args, "--allowedTools"@, t) && occurs(
                        t,
                        #[trigger] texts(agent.config.allowed_tools@)[i],
                    )
            &&& args[n - 2] == "--append-system-prompt"@
            &&& occurs(args[n - 1], agent.project_name)
            &&& work_dir.is_suffix_of(args[n - 1])
            &&& n == plain.len() + (if model is Some {
                2int
            } else {
                0
            }) + (if mode.len() == 0 || mode == "default"@ {
                0int
            } else {
                2
            }) + (if session_id is None || session_id->0.len() == 0 {
                0int
            } else {
                2
            })
        }),
{
    reveal_strlit("");
    reveal_strlit("default");
    reveal_strlit("yolo");
    reveal_strlit("plan");
    reveal_strlit("auto");
    reveal_strlit("__continue__");
    assert("yolo"@[0] != "plan"@[0] && "yolo"@[0] != "auto"@[0]);
    assert("default"@.len() == 7);
    let a0 = base_args();
    let a1 = with_turns(a0, agent.config.max_turns);
    let a2 = with_mode(a1, mode);
    let a3 = with_model(a2, model);
    let a4 = with_session(a3, session_id);
    let tools = texts(agent.config.allowed_tools@);
    let a5 = with_tools(a4, tools);
    let a6 = with_prompt(a5, agent.project_name, work_dir);
    assert(a6 == call_args(agent, session_id, model, mode, work_dir));
    assert(a5 =~= a6.take(a5.len() as int));
    assert(a4 =~= a6.take(a4.len() as int));
    assert(a3 =~= a6.take(a3.len() as int));
    assert(a2 =~= a6.take(a2.len() as int));
    assert(a1 =~= a6.take(a1.len() as int));
    assert(a6[0] == "--output-format"@ && a6[1] == "stream-json"@);
    assert(a6[2] == "--input-format"@ && a6[3] == "stream-json"@);
    assert(a6[4] == "--permission-prompt-tool"@ && a6[5] == "stdio"@);
    let limit: nat = match agent.config.max_turns {
        Some(k) => k as nat,
        None => 50,
    };
    law_decimal_reads_back(limit);
    lemma_flag_pushed(a0, "--max-turns"@, decimal(limit));
    lemma_flag_stays(a1, a6, "--max-turns"@, decimal(limit));
    if mode == "yolo"@ {
        lemma_flag_pushed(a1, "--permission-mode"@, "bypassPermissions"@);
        lemma_flag_stays(a2, a6, "--permission-mode"@, "bypassPermissions"@);
    } else if mode == "plan"@ || mode == "auto"@ {
        lemma_flag_pushed(a1, "--permission-mode"@, mode);
        lemma_flag_stays(a2, a6, "--permission-mode"@, mode);
    }
    if model is Some {
        lemma_flag_pushed(a2, "--model"@, model->0);
        lemma_flag_stays(a3, a6, "--model"@, model->0);
    }
    if session_id is Some && session_id->0.len() > 0 {
        if session_id->0 == CONTINUE_SESSION@ {
            lemma_flag_pushed(a3, "--continue"@, "--fork-session"@);
            lemma_flag_stays(a4, a6, "--continue"@, "--fork-session"@);
        } else {
            lemma_flag_pushed(a3, "--resume"@, session_id->0);
            lemma_flag_stays(a4, a6, "--resume"@, session_id->0);
        }
    }
    assert forall|i: int| 0 <= i < agent.config.allowed_tools@.len() implies exists|t: Seq<char>|
        #[trigger] flag_given(a6, "--allowedTools"@, t) && occurs(t, #[trigger] tools[i]) by {
        let list = joined(tools, ","@);
        lemma_flag_pushed(a4, "--allowedTools"@, list);
        lemma_flag_stays(a5, a6, "--allowedTools"@, list);
        let (x, y) = lemma_part_occurs(tools, ","@, i);
        lemma_occurs_in(x, tools[i], y);
    }
    let last = SYSTEM_PROMPT@ + agent.project_name + "\nWork directory: "@ + work_dir;
    assert(a6.last() == last);
    assert(last =~= SYSTEM_PROMPT@ + agent.project_name + ("\nWork directory: "@ + work_dir));
    lemma_occurs_in(SYSTEM_PROMPT@, agent.project_name, "\nWork directory: "@ + work_dir);
    assert(work_dir =~= last.skip(last.len() - work_dir.len()));
}

/// Requests are granted without asking only in the modes that say so: never in
/// the default mode, in the plan mode or without a mode.
pub proof fn law_modes_that_grant(mode: Seq<char>)
    ensures
        grants_all("yolo"@) && grants_all("auto"@) && grants_all("bypassPermissions"@),
        grants_all(mode) ==> mode != "default"@ && mode != "plan"@ && mode != ""@,
{
    reveal_strlit("yolo");
    reveal_strlit("auto");
    reveal_strlit("bypassPermissions");
    reveal_strlit("default");
    reveal_strlit("plan");
    reveal_strlit("");
    assert("plan"@[0] != "yolo"@[0] && "plan"@[0] != "auto"@[0]);
    assert("default"@.len() == 7 && "bypassPermissions"@.len() == 17 && "plan"@.len() == 4);
    assert(""@.len() == 0 && "yolo"@.len() == 4 && "auto"@.len() == 4);
}

/// The file extension of an image goes by its type: `image/png` gives `.png`,
/// and so do the others but for the two whose extension is shorter.
pub proof fn law_extension_goes_by_the_type(mime: Seq<char>)
    requires
        extension(mime).len() > 0,
        "image/"@.is_prefix_of(mime),
    ensures
        extension(mime)[0] == '.',
        mime == "image/"@ + extension(mime).skip(1) || (mime == "image/jpeg"@ && extension(mime)
            == ".jpg"@) || (mime == "image/svg+xml"@ && extension(mime) == ".svg"@),
{
    reveal_strlit("image/");
    reveal_strlit("image/png");
    reveal_strlit(".png");
    reveal_strlit("image/jpeg");
    reveal_strlit("image/jpg");
    reveal_strlit(".jpg");
    reveal_strlit("image/gif");
    reveal_strlit(".gif");
    reveal_strlit("image/webp");
    reveal_strlit(".webp");
    reveal_strlit("image/svg+xml");
    reveal_strlit(".svg");
    reveal_strlit("application/pdf");
    reveal_strlit("text/plain");
    reveal_strlit("application/json");
    reveal_strlit("");
    assert("image/"@[0] == 'i');
    assert("application/pdf"@[0] == 'a' && "application/json"@[0] == 'a' && "text/plain"@[0]
        == 't');
    assert(mime[0] == 'i');
    assert("image/png"@ =~= "image/"@ + ".png"@.skip(1));
    assert("image/jpg"@ =~= "image/"@ + ".jpg"@.skip(1));
    assert("image/gif"@ =~= "image/"@ + ".gif"@.skip(1));
    assert("image/webp"@ =~= "image/"@ + ".webp"@.skip(1));
}

/// A block of text, of thinking or of a tool call is told as what it is, with
/// its own contents; an empty one and a question to the user are not told.
pub proof fn law_block_is_told_as_it_is(item: Json)
    ensures
        ({
            let kind = as_text(member(item, "type"@));
            let text = as_text(member(item, "text"@));
            let thought = as_text(member(item, "thinking"@));
            let tool = as_text(member(item, "name"@));
            &&& kind == Some("text"@) && text is Some && text->0.len() > 0 ==> block_event(item)
                == Some(Told::Text { content: text->0 })
            &&& kind == Some("thinking"@) && thought is Some && thought->0.len() > 0 ==> block_event(
                item,
            ) == Some(Told::Thinking { content: thought->0 })
            &&& kind == Some("tool_use"@) && tool is Some && tool != Some("AskUserQuestion"@) ==> (
            block_event(item) matches Some(Told::ToolUse { id, tool: t, input }) && t == tool->0
                && (as_text(member(item, "id"@)) is Some ==> id == as_text(
                member(item, "id"@),
            )->0))
            &&& kind == Some("tool_use"@) && tool == Some("AskUserQuestion"@) ==> block_event(
                item,
            ) is None
            &&& kind is None ==> block_event(item) is None
            &&& block_event(item) matches Some(Told::Text { content }) ==> content.len() > 0
        }),
{
    reveal_strlit("text");
    reveal_strlit("tool_use");
    reveal_strlit("thinking");
    reveal_strlit("");
    assert("text"@.len() == 4 && "tool_use"@.len() == 8 && "thinking"@.len() == 8);
    assert("tool_use"@[1] != "thinking"@[1]);
}

/// Blocks are told one after the other, in their order: what is told of two
/// lists of blocks is what is told of the first and then of the second.
pub proof fn law_blocks_are_told_in_order(a: Seq<Json>, b: Seq<Json>)
    ensures
        block_events(a + b) == block_events(a) + block_events(b),
    decreases b.len(),
{
    if b.len() == 0 {
        assert(a + b =~= a);
        assert(block_events(a) + block_events(b) =~= block_events(a));
    } else {
        law_blocks_are_told_in_order(a, b.drop_last());
        assert((a + b).drop_last() =~= a + b.drop_last());
        assert((a + b).last() == b.last());
        assert(block_events(a + b) =~= block_events(a) + block_events(b));
    }
}

/// The summary of a call shows what it is about: the start of a command, or the
/// path of a file.
pub proof fn law_summary_shows_the_call(tool: Seq<char>, input: Json)
    ensures
        ({
            let command = as_text(member(input, "command"@));
            let path = as_text(member(input, "file_path"@));
            &&& tool == "Bash"@ && command is Some && command->0.len() <= 100 ==> summary(
                tool,
                input,
            ) == command->0
            &&& tool == "Bash"@ && command is Some && command->0.len() > 100 ==> summary(tool, input)
                == command->0.take(100) + "..."@
            &&& (tool == "Read"@ || tool == "Edit"@ || tool == "Write"@) && path is Some ==> summary(
                tool,
                input,
            ) == path->0
            &&& (tool == "Glob"@ || tool == "Grep"@) && member(input, "file_path"@) is None
                && as_text(member(input, "pattern"@)) is Some ==> summary(tool, input) == as_text(
                member(input, "pattern"@),
            )->0
        }),
{
    reveal_strlit("Bash");
    reveal_strlit("Read");
    reveal_strlit("Glob");
    reveal_strlit("Grep");
    reveal_strlit("Edit");
    reveal_strlit("Write");
    assert("Bash"@[0] == 'B' && "Read"@[0] == 'R' && "Glob"@[0] == 'G' && "Grep"@[0] == 'G');
    assert("Edit"@[0] == 'E' && "Write"@[0] == 'W');
}

/// What the program reports reaches the engine: the result with its text, its
/// session and its tokens, the session and the tools at the start, an error with
/// its message, and a request for permission with its id, its tool and its
/// input.
pub proof fn law_reports_are_read(raw: Json, auto_approve: bool)
    ensures
        ({
            let kind = as_text(member(raw, "type"@));
            let r = reading(raw, auto_approve);
            let sid = as_text(member(raw, "session_id"@));
            let usage = member(raw, "usage"@);
            let request = member(raw, "request"@);
            &&& kind == Some("result"@) ==> r.events.len() == 1 && r.events[0] is Result
            &&& kind == Some("result"@) && as_text(member(raw, "result"@)) is Some
                ==> r.events[0]->Result_content == as_text(member(raw, "result"@))->0
            &&& kind == Some("result"@) && sid is Some ==> r.events[0]->Result_session_id == sid->0
            &&& kind == Some("result"@) ==> match as_unsigned(member_of(usage, "input_tokens"@)) {
                Some(n) => n <= u32::MAX ==> r.events[0]->input_tokens == n,
                None => r.events[0]->input_tokens == 0,
            }
            &&& kind == Some("result"@) ==> match as_unsigned(member_of(usage, "output_tokens"@)) {
                Some(n) => n <= u32::MAX ==> r.events[0]->output_tokens == n,
                None => r.events[0]->output_tokens == 0,
            }
            &&& (kind == Some("result"@) || kind == Some("system"@)) && sid is Some && sid->0.len()
                > 0 ==> r.session_id == sid
            &&& kind == Some("system"@) ==> r.events.len() == 1 && r.events[0] is System
            &&& kind == Some("error"@) && as_text(
                member_of(member(raw, "error"@), "message"@),
            ) is Some ==> r.events == seq![
                Told::Error {
                    message: as_text(member_of(member(raw, "error"@), "message"@))->0,
                },
            ]
            &&& kind == Some("control_request"@) && !auto_approve && as_text(
                member_of(request, "subtype"@),
            ) == Some("can_use_tool"@) && as_text(member(raw, "request_id"@)) is Some && as_text(
                member_of(request, "tool_name"@),
            ) is Some && member_of(request, "input"@) is Some ==> r.events == seq![
                Told::PermissionRequest {
                    request_id: as_text(member(raw, "request_id"@))->0,
                    tool: as_text(member_of(request, "tool_name"@))->0,
                    input: member_of(request, "input"@)->0,
                    options: Seq::empty(),
                },
            ]
            &&& kind == Some("control_request"@) && auto_approve && as_text(
                member_of(request, "subtype"@),
            ) == Some("can_use_tool"@) && as_text(member(raw, "request_id"@)) is Some
                ==> r.responses == seq![response_json(as_text(member(raw, "request_id"@))->0, true)]
        }),
{
    reveal_strlit("system");
    reveal_strlit("assistant");
    reveal_strlit("result");
    reveal_strlit("control_request");
    reveal_strlit("error");
    assert("system"@.len() == 6 && "assistant"@.len() == 9 && "result"@.len() == 6);
    assert("control_request"@.len() == 15 && "error"@.len() == 5);
    assert("system"@[0] != "result"@[0]);
    let r = reading(raw, auto_approve);
    if as_text(member(raw, "type"@)) == Some("error"@) {
        assert(r.events =~= seq![Told::Error { message: error_text(raw) }]);
    }
    if as_text(member(raw, "type"@)) == Some("control_request"@) {
        let id = text_else(member(raw, "request_id"@), ""@);
        assert(Seq::<Json>::empty().push(response_json(id, true)) =~= seq![
            response_json(id, true),
        ]);
        if r.events.len() == 1 {
            assert(r.events =~= seq![r.events[0]]);
        }
    }
}

/// A program that is to end is first let end by itself, then told to, and only
/// then killed: it has two minutes for the first and five seconds for the
/// second.
pub proof fn law_shutdown_kills_what_stays()
    ensures
        ({
            let (s1, a1) = shutdown_next(Shutdown::Closing, false);
            let (s2, a2) = shutdown_next(s1, false);
            &&& a1 == Some(ShutdownAction::Terminate)
            &&& a2 == Some(ShutdownAction::Kill)
        }),
{
}

/// Attachments that are saved at one time do not overwrite each other: two images
/// of one type have different names, and so have two files without a name. A
/// file with a name keeps it at the end of its own.
pub proof fn law_attachments_have_names_of_their_own(
    millis: int,
    i: nat,
    j: nat,
    mime: Seq<char>,
    filename: Seq<char>,
)
    ensures
        i != j ==> image_name(millis, i, mime) != image_name(millis, j, mime),
        i != j ==> file_name_for(millis, i, Seq::empty()) != file_name_for(
            millis,
            j,
            Seq::empty(),
        ),
        filename.len() > 0 ==> filename.is_suffix_of(file_name_for(millis, i, filename)),
        extension(mime).is_suffix_of(image_name(millis, i, mime)),
{
    law_decimal_reads_back(i);
    law_decimal_reads_back(j);
    let head = "img_"@ + decimal_int(millis) + "_"@;
    let a = image_name(millis, i, mime);
    let b = image_name(millis, j, mime);
    let ext = extension(mime);
    assert(a.subrange(head.len() as int, a.len() - ext.len()) =~= decimal(i));
    assert(b.subrange(head.len() as int, b.len() - ext.len()) =~= decimal(j));
    assert(ext =~= a.skip(a.len() - ext.len()));
    let front = "file_"@ + decimal_int(millis) + "_"@;
    let c = file_name_for(millis, i, Seq::empty());
    let d = file_name_for(millis, j, Seq::empty());
    let n = front.len() + "file_"@.len();
    assert(c.skip(n as int) =~= decimal(i));
    assert(d.skip(n as int) =~= decimal(j));
    let e = file_name_for(millis, i, filename);
    if filename.len() > 0 {
        assert(filename =~= e.skip(e.len() - filename.len()));
    }
}

/// A value is written on a line of its own.
pub proof fn law_value_is_written_on_a_line(j: Json)
    ensures
        line_of(j).len() == rendered(j).len() + 1,
        line_of(j).last() == '\n',
        rendered(j).is_prefix_of(line_of(j)),
{
    reveal_strlit("\n");
    assert(rendered(j) =~= line_of(j).take(rendered(j).len() as int));
}

/// Attachments lie below the directory that the agent works in.
pub proof fn law_attachments_lie_below_the_directory(work_dir: Seq<char>)
    ensures
        work_dir.is_prefix_of(attachments_below(work_dir)),
        "/attachments"@.is_suffix_of(attachments_below(work_dir)),
{
    reveal_strlit("/");
    reveal_strlit(".agentbridge");
    reveal_strlit("attachments");
    reveal_strlit("/attachments");
    let a = path_join(work_dir, ".agentbridge"@);
    let b = attachments_below(work_dir);
    law_path_is_below_its_base(work_dir, ".agentbridge"@);
    law_path_is_below_its_base(a, "attachments"@);
    assert(".agentbridge"@[0] != '/' && "attachments"@[0] != '/');
    assert(a.last() == 'e');
    assert(work_dir =~= b.take(work_dir.len() as int)) by {
        assert(a.take(work_dir.len() as int) == work_dir);
        assert(b.take(a.len() as int) == a);
        assert(b.take(work_dir.len() as int) =~= a.take(work_dir.len() as int));
    }
    assert("/attachments"@ =~= b.skip(b.len() - "/attachments"@.len())) by {
        assert("/attachments"@ =~= "/"@ + "attachments"@);
        assert(b == a + "/"@ + "attachments"@);
    }
}

/// A line that is empty or no JSON brings nothing; any other brings what is
/// written on it.
pub proof fn law_line_brings_what_is_written(line: Seq<char>, raw: Json, auto_approve: bool)
    ensures
        line_reading(line, None, auto_approve) == nothing_read(),
        line_reading(Seq::empty(), Some(raw), auto_approve) == nothing_read(),
        line.len() > 0 ==> line_reading(line, Some(raw), auto_approve) == reading(
            raw,
            auto_approve,
        ),
{
}

/// A program that is being closed is waited for, one that is gone is not.
pub proof fn law_closing_program_is_waited_for(s: Shutdown)
    ensures
        patience(s) > 0 <==> s != Shutdown::Gone,
        patience(Shutdown::Closing) >= patience(Shutdown::Terminating),
{
}

} // verus!
