//! The Telegram platform.
//!
//! Updates are polled for; replies are calls of the bot interface with JSON
//! parameters.

use crate::chunks::{chunked, chunks, strs};
use crate::json::{
    as_list, as_signed, as_text, at, from_list, from_signed, from_text, from_unsigned, json,
    json_list, json_opt, list_of, make_object1, make_object2, make_object3, member, member_of,
    object1, object2, object3, owned_text, signed_of, text_else, text_of, text_or, with_member,
    Json,
};
use crate::message::{
    files_view, images_view, FileAttachment, ImageAttachment, IncomingMessage, MessageModel,
};
use crate::platform::{
    buttons_view, AnyCtx, AnyHandle, Button, Capabilities, Platform, PlatformCapabilities,
    PreviewHandle, ReplyCtx, ReplyTarget, TargetModel,
};
use crate::rest::{cat3, cat5};
use crate::routing::{allow_list, on_list, parse_allow_list, session_key};
use crate::text::{
    chars_of, decimal_int, decimal_of_signed, holds_text, law_signed_decimal_reads_back, list_opt,
    same, skip, text_opt, value_of,
};
use serde_json::Value;
use vstd::prelude::*;
use vstd::string::*;

verus! {

/// Routing context for a chat, with the topic and the message that started the
/// exchange.
#[derive(PartialEq, Eq, Structural, Clone, Copy, Debug)]
pub struct TelegramReplyCtx {
    pub chat_id: i64,
    pub thread_id: Option<i64>,
    pub message_id: Option<i64>,
}

impl View for TelegramReplyCtx {
    type V = TelegramReplyCtx;

    open spec fn view(&self) -> TelegramReplyCtx {
        *self
    }
}

impl ReplyCtx for TelegramReplyCtx {
    open spec fn key_hint(&self) -> Seq<char> {
        "telegram:"@ + decimal_int(self.chat_id as int)
    }

    open spec fn target(&self) -> ReplyTarget {
        ReplyTarget::Telegram(*self)
    }

    fn as_any(&self) -> (r: AnyCtx<'_>) {
        AnyCtx::Telegram(self)
    }

    fn session_key_hint(&self) -> (r: String) {
        let mut r: String = "telegram:".to_owned();
        let id: String = decimal_of_signed(self.chat_id);
        r.append(id.as_str());
        r
    }

    fn clone_box(&self) -> (r: Box<ReplyTarget>) {
        Box::new(ReplyTarget::Telegram(*self))
    }
}

/// Handle of a sent message that can be edited or deleted in place.
#[derive(PartialEq, Eq, Structural, Clone, Copy, Debug)]
pub struct TelegramPreviewHandle {
    pub chat_id: i64,
    pub message_id: i64,
}

impl PreviewHandle for TelegramPreviewHandle {
    open spec fn handle(&self) -> AnyHandle<'_> {
        AnyHandle::Telegram(self)
    }

    fn as_any(&self) -> (r: AnyHandle<'_>) {
        AnyHandle::Telegram(self)
    }
}

// ---------------------------------------------------------------------------
// The platform
// ---------------------------------------------------------------------------

/// Options of a Telegram platform.
#[derive(Debug)]
pub struct TelegramOptions {
    pub token: String,
    pub allow_from: Option<String>,
}

/// A click on a button.
#[derive(Debug)]
pub struct CallbackEvent {
    pub id: String,
    pub from: String,
    pub data: String,
    pub reply_ctx: TelegramReplyCtx,
}

/// What a [`CallbackEvent`] holds.
pub struct CallbackModel {
    pub id: Seq<char>,
    pub from: Seq<char>,
    pub data: Seq<char>,
    pub reply_ctx: TelegramReplyCtx,
}

impl View for CallbackEvent {
    type V = CallbackModel;

    open spec fn view(&self) -> CallbackModel {
        CallbackModel {
            id: self.id@,
            from: self.from@,
            data: self.data@,
            reply_ctx: self.reply_ctx,
        }
    }
}

pub struct TelegramPlatform {
    pub token: String,
    /// The users that are let in; nothing for everyone.
    pub allow_from: Option<Vec<String>>,
}

impl TelegramPlatform {
    pub fn new(opts: TelegramOptions) -> (r: Self)
        ensures
            r.token@ == opts.token@,
            list_opt(r.allow_from) == allow_list(text_opt(opts.allow_from)),
    {
        let allow_from: Option<Vec<String>> = parse_allow_list(&opts.allow_from);
        Self { token: opts.token, allow_from }
    }

    /// The address of a method of the bot interface.
    pub fn method_url(&self, method: &str) -> (r: String)
        ensures
            r@ == call_address(self.token@, method@),
    {
        let mut r: String = cat3("https://api.telegram.org/bot", self.token.as_str(), "/");
        r.append(method);
        r
    }

    /// The address of a file.
    pub fn file_url(&self, file_path: &str) -> (r: String)
        ensures
            r@ == file_address(self.token@, file_path@),
    {
        let mut r: String = cat3("https://api.telegram.org/file/bot", self.token.as_str(), "/");
        r.append(file_path);
        r
    }

    /// The chat of a context.
    pub fn downcast_ctx<'a, C: ReplyCtx>(ctx: &'a C) -> (r: Result<&'a TelegramReplyCtx, String>)
        ensures
            match ctx.target() {
                ReplyTarget::Telegram(c) => r matches Ok(t) && *t == c,
                _ => r matches Err(e) && e@ == "telegram: ReplyCtx is not a TelegramReplyCtx"@,
            },
    {
        match ctx.as_any() {
            AnyCtx::Telegram(c) => Ok(c),
            _ => Err("telegram: ReplyCtx is not a TelegramReplyCtx".to_owned()),
        }
    }

    /// The message of a handle.
    pub fn downcast_handle<'a, H: PreviewHandle>(handle: &'a H) -> (r: Result<
        &'a TelegramPreviewHandle,
        String,
    >)
        ensures
            match handle.handle() {
                AnyHandle::Telegram(h) => r matches Ok(t) && *t == *h,
                _ => r matches Err(e) && e@
                    == "telegram: PreviewHandle is not a TelegramPreviewHandle"@,
            },
    {
        match handle.as_any() {
            AnyHandle::Telegram(h) => Ok(h),
            _ => Err("telegram: PreviewHandle is not a TelegramPreviewHandle".to_owned()),
        }
    }
}

impl Platform for TelegramPlatform {
    open spec fn platform_name(&self) -> Seq<char> {
        "telegram"@
    }

    open spec fn markdown(&self) -> bool {
        false
    }

    fn name(&self) -> (r: &str) {
        "telegram"
    }

    fn renders_markdown(&self) -> (r: bool) {
        false
    }
}

impl PlatformCapabilities for TelegramPlatform {
    open spec fn can(&self) -> Capabilities {
        Capabilities {
            message_updater: true,
            image_sender: true,
            file_sender: false,
            inline_button_sender: true,
            typing_indicator: true,
        }
    }

    fn as_message_updater(&self) -> (r: bool) {
        true
    }

    fn as_image_sender(&self) -> (r: bool) {
        true
    }

    fn as_file_sender(&self) -> (r: bool) {
        false
    }

    fn as_inline_button_sender(&self) -> (r: bool) {
        true
    }

    fn as_typing_indicator(&self) -> (r: bool) {
        true
    }
}

// ---------------------------------------------------------------------------
// Calls
// ---------------------------------------------------------------------------

/// The longest message in characters.
pub const MAX_LEN: usize = 4096;

/// A message in chunks of at most `max_len` characters, cut behind line feeds
/// where it can be.
pub fn split_message<'a>(text: &'a str, max_len: usize) -> (r: Vec<&'a str>)
    requires
        text@.len() > 0 ==> max_len > 0,
    ensures
        strs(r@) == chunks(text@, max_len as int),
{
    chunked(text, max_len)
}

/// Parameters with the topic of a context, where there is one.
pub open spec fn in_topic(params: Map<Seq<char>, Json>, thread: Option<i64>) -> Json {
    match thread {
        Some(t) => Json::Object(params.insert("message_thread_id"@, Json::Number(t as int))),
        None => Json::Object(params),
    }
}

fn put_topic(params: Value, thread: Option<i64>) -> (r: Value)
    requires
        json(params) is Object,
    ensures
        json(r) == in_topic(json(params)->Object_0, thread),
{
    match thread {
        Some(t) => with_member(params, "message_thread_id", from_signed(t)),
        None => params,
    }
}

/// The parameters that send a text to a chat.
pub open spec fn send_params(ctx: TelegramReplyCtx, text: Seq<char>) -> Json {
    in_topic(
        Map::empty().insert("chat_id"@, Json::Number(ctx.chat_id as int)).insert(
            "text"@,
            Json::Text(text),
        ).insert("parse_mode"@, Json::Text("HTML"@)),
        ctx.thread_id,
    )
}

/// The parameters that send a text to a chat.
pub fn send_message_params(ctx: &TelegramReplyCtx, text: &str) -> (r: Value)
    ensures
        json(r) == send_params(*ctx, text@),
{
    let params: Value = make_object3(
        "chat_id",
        from_signed(ctx.chat_id),
        "text",
        from_text(text),
        "parse_mode",
        from_text("HTML"),
    );
    put_topic(params, ctx.thread_id)
}

/// The parameters of the calls that send a reply, one for each chunk of it.
pub fn reply_params(ctx: &TelegramReplyCtx, content: &str) -> (r: Vec<Value>)
    ensures
        json_list(r@) == chunks(content@, MAX_LEN as int).map_values(
            |p: Seq<char>| send_params(*ctx, p),
        ),
{
    let parts: Vec<&str> = split_message(content, MAX_LEN);
    let ghost all = chunks(content@, MAX_LEN as int);
    let ghost want = all.map_values(|p: Seq<char>| send_params(*ctx, p));
    let mut r: Vec<Value> = Vec::new();
    let mut i: usize = 0;
    proof {
        assert(strs(parts@).len() == parts.len());
        assert(json_list(r@) =~= want.take(0));
    }
    while i < parts.len()
        invariant
            i <= parts.len(),
            strs(parts@) == all,
            all.len() == parts.len(),
            want == all.map_values(|p: Seq<char>| send_params(*ctx, p)),
            json_list(r@) == want.take(i as int),
        decreases parts.len() - i,
    {
        let v: Value = send_message_params(ctx, parts[i]);
        proof {
            assert(all[i as int] == strs(parts@)[i as int]);
            assert(json_list(r@.push(v)) =~= json_list(r@).push(json(v)));
            assert(want.take(i as int).push(json(v)) =~= want.take(i + 1));
        }
        r.push(v);
        i += 1;
    }
    assert(want.take(i as int) =~= want);
    r
}

/// The id of the message in a response; 0 where there is none.
pub open spec fn sent_id(response: Json) -> i64 {
    match as_signed(member_of(member(response, "result"@), "message_id"@)) {
        Some(id) => id,
        None => 0,
    }
}

/// The handle of a message, by the response to its call.
pub fn sent_handle(chat_id: i64, response: &Value) -> (r: TelegramPreviewHandle)
    ensures
        r.chat_id == chat_id,
        r.message_id == sent_id(json(*response)),
{
    let message_id: i64 = match signed_of(at(at(Some(response), "result"), "message_id")) {
        Some(id) => id,
        None => 0,
    };
    TelegramPreviewHandle { chat_id, message_id }
}

/// The parameters that put another text into a message of a chat.
pub open spec fn edit_json(chat: int, message: int, text: Seq<char>) -> Json {
    Json::Object(
        Map::empty().insert("chat_id"@, Json::Number(chat)).insert(
            "message_id"@,
            Json::Number(message),
        ).insert("text"@, Json::Text(text)).insert("parse_mode"@, Json::Text("HTML"@)),
    )
}

/// The parameters that delete a message of a chat.
pub open spec fn delete_json(chat: int, message: int) -> Json {
    object2("chat_id"@, Json::Number(chat), "message_id"@, Json::Number(message))
}

/// The parameters that answer a click.
pub open spec fn callback_json(callback_id: Seq<char>, text: Seq<char>) -> Json {
    object2("callback_query_id"@, Json::Text(callback_id), "text"@, Json::Text(text))
}

/// The parameters that show in a chat that the bot is typing.
pub open spec fn typing_json(chat: int) -> Json {
    object2("chat_id"@, Json::Number(chat), "action"@, Json::Text("typing"@))
}

/// The parameters that ask for updates from an offset on.
pub open spec fn updates_json(offset: int) -> Json {
    object3(
        "offset"@,
        Json::Number(offset),
        "timeout"@,
        Json::Number(30),
        "allowed_updates"@,
        Json::List(
            seq![
                Json::Text("message"@),
                Json::Text("edited_message"@),
                Json::Text("callback_query"@),
            ],
        ),
    )
}

/// The path of a file in a response.
pub open spec fn file_path_of(response: Json) -> Option<Seq<char>> {
    as_text(member_of(member(response, "result"@), "file_path"@))
}

/// The address of a method, for a bot with a token.
pub open spec fn call_address(token: Seq<char>, method: Seq<char>) -> Seq<char> {
    "https://api.telegram.org/bot"@ + token + "/"@ + method
}

/// The address of a file, for a bot with a token.
pub open spec fn file_address(token: Seq<char>, path: Seq<char>) -> Seq<char> {
    "https://api.telegram.org/file/bot"@ + token + "/"@ + path
}

/// The parameters that put another text into a message.
pub fn edit_params(handle: &TelegramPreviewHandle, text: &str) -> (r: Value)
    ensures
        json(r) == edit_json(handle.chat_id as int, handle.message_id as int, text@),
{
    let params: Value = make_object3(
        "chat_id",
        from_signed(handle.chat_id),
        "message_id",
        from_signed(handle.message_id),
        "text",
        from_text(text),
    );
    with_member(params, "parse_mode", from_text("HTML"))
}

/// The parameters that delete a message.
pub fn delete_params(handle: &TelegramPreviewHandle) -> (r: Value)
    ensures
        json(r) == delete_json(handle.chat_id as int, handle.message_id as int),
{
    make_object2(
        "chat_id",
        from_signed(handle.chat_id),
        "message_id",
        from_signed(handle.message_id),
    )
}

/// A button of a keyboard.
pub open spec fn key_json(b: (Seq<char>, Seq<char>)) -> Json {
    object2("text"@, Json::Text(b.0), "callback_data"@, Json::Text(b.1))
}

/// The parameters that send a text with a row of buttons.
pub open spec fn keyboard_json(
    ctx: TelegramReplyCtx,
    text: Seq<char>,
    buttons: Seq<(Seq<char>, Seq<char>)>,
) -> Json {
    in_topic(
        Map::empty().insert("chat_id"@, Json::Number(ctx.chat_id as int)).insert(
            "text"@,
            Json::Text(text),
        ).insert(
            "reply_markup"@,
            object1(
                "inline_keyboard"@,
                Json::List(
                    seq![
                        Json::List(buttons.map_values(|b: (Seq<char>, Seq<char>)| key_json(b))),
                    ],
                ),
            ),
        ),
        ctx.thread_id,
    )
}

/// The parameters that send a text with a row of buttons.
pub fn keyboard_params(ctx: &TelegramReplyCtx, text: &str, buttons: &Vec<Button>) -> (r: Value)
    ensures
        json(r) == keyboard_json(*ctx, text@, buttons_view(buttons@)),
{
    let ghost b = buttons_view(buttons@);
    let ghost want = b.map_values(|b: (Seq<char>, Seq<char>)| key_json(b));
    let mut row: Vec<Value> = Vec::new();
    let mut i: usize = 0;
    assert(json_list(row@) =~= want.take(0));
    while i < buttons.len()
        invariant
            i <= buttons.len(),
            b == buttons_view(buttons@),
            want == b.map_values(|b: (Seq<char>, Seq<char>)| key_json(b)),
            json_list(row@) == want.take(i as int),
        decreases buttons.len() - i,
    {
        let v: Value = make_object2(
            "text",
            from_text(buttons[i].text.as_str()),
            "callback_data",
            from_text(buttons[i].callback_data.as_str()),
        );
        proof {
            assert(b[i as int] == buttons[i as int]@);
            assert(json_list(row@.push(v)) =~= json_list(row@).push(json(v)));
            assert(want.take(i as int).push(json(v)) =~= want.take(i + 1));
        }
        row.push(v);
        i += 1;
    }
    assert(want.take(i as int) =~= want);
    let row: Value = from_list(row);
    let mut rows: Vec<Value> = Vec::new();
    rows.push(row);
    assert(json_list(rows@) =~= seq![json(row)]);
    let params: Value = make_object3(
        "chat_id",
        from_signed(ctx.chat_id),
        "text",
        from_text(text),
        "reply_markup",
        make_object1("inline_keyboard", from_list(rows)),
    );
    put_topic(params, ctx.thread_id)
}

/// The parameters that answer a click.
pub fn callback_params(callback_id: &str, text: &str) -> (r: Value)
    ensures
        json(r) == callback_json(callback_id@, text@),
{
    make_object2("callback_query_id", from_text(callback_id), "text", from_text(text))
}

/// The parameters that show that the bot is typing.
pub fn typing_params(chat_id: i64) -> (r: Value)
    ensures
        json(r) == typing_json(chat_id as int),
{
    make_object2("chat_id", from_signed(chat_id), "action", from_text("typing"))
}

// ---------------------------------------------------------------------------
// Updates
// ---------------------------------------------------------------------------

/// The parameters that ask for updates from an offset on.
pub fn updates_params(offset: i64) -> (r: Value)
    ensures
        json(r) == updates_json(offset as int),
{
    let mut kinds: Vec<Value> = Vec::new();
    kinds.push(from_text("message"));
    kinds.push(from_text("edited_message"));
    kinds.push(from_text("callback_query"));
    assert(json_list(kinds@) =~= seq![
        Json::Text("message"@),
        Json::Text("edited_message"@),
        Json::Text("callback_query"@),
    ]);
    make_object3(
        "offset",
        from_signed(offset),
        "timeout",
        from_unsigned(30),
        "allowed_updates",
        from_list(kinds),
    )
}

/// The offset after an update: behind its id.
pub open spec fn offset_after(offset: int, update: Json) -> int {
    match as_signed(member(update, "update_id"@)) {
        Some(id) => id + 1,
        None => offset,
    }
}

/// The offset behind an update.
pub fn next_offset(offset: i64, update: &Value) -> (r: i64)
    requires
        as_signed(member(json(*update), "update_id"@)) != Some(i64::MAX),
    ensures
        r == offset_after(offset as int, json(*update)),
{
    match signed_of(at(Some(update), "update_id")) {
        Some(id) => id + 1,
        None => offset,
    }
}

/// A number, or 0 where there is none.
pub open spec fn number_or_zero(j: Option<Json>) -> i64 {
    match as_signed(j) {
        Some(n) => n,
        None => 0,
    }
}

fn signed_or_zero(v: Option<&Value>) -> (r: i64)
    ensures
        r == number_or_zero(json_opt(v)),
{
    match signed_of(v) {
        Some(n) => n,
        None => 0,
    }
}

/// The click that an update brings; nothing where it brings none.
pub open spec fn callback_in(update: Json) -> Option<CallbackModel> {
    let cq = member(update, "callback_query"@);
    let message = member_of(cq, "message"@);
    match as_text(member_of(cq, "id"@)) {
        Some(id) => Some(
            CallbackModel {
                id,
                from: decimal_int(
                    number_or_zero(member_of(member_of(cq, "from"@), "id"@)) as int,
                ),
                data: text_else(member_of(cq, "data"@), ""@),
                reply_ctx: TelegramReplyCtx {
                    chat_id: number_or_zero(member_of(member_of(message, "chat"@), "id"@)),
                    thread_id: as_signed(member_of(message, "message_thread_id"@)),
                    message_id: as_signed(member_of(message, "message_id"@)),
                },
            },
        ),
        None => None,
    }
}

/// The click that an update brings.
pub fn parse_callback_query(update: &Value) -> (r: Option<CallbackEvent>)
    ensures
        match r {
            Some(e) => callback_in(json(*update)) == Some(e@),
            None => callback_in(json(*update)) is None,
        },
{
    let cq: Option<&Value> = at(Some(update), "callback_query");
    let id: &str = match text_of(at(cq, "id")) {
        Some(id) => id,
        None => {
            return None;
        },
    };
    let message: Option<&Value> = at(cq, "message");
    let from: i64 = signed_or_zero(at(at(cq, "from"), "id"));
    Some(
        CallbackEvent {
            id: id.to_owned(),
            from: decimal_of_signed(from),
            data: text_or(at(cq, "data"), ""),
            reply_ctx: TelegramReplyCtx {
                chat_id: signed_or_zero(at(at(message, "chat"), "id")),
                thread_id: signed_of(at(message, "message_thread_id")),
                message_id: signed_of(at(message, "message_id")),
            },
        },
    )
}

/// The message of an update: a new one, else an edited one.
pub open spec fn message_of(update: Json) -> Option<Json> {
    let m = member(update, "message"@);
    if m is Some {
        m
    } else {
        member(update, "edited_message"@)
    }
}

fn message_value<'a>(update: &'a Value) -> (r: Option<&'a Value>)
    ensures
        json_opt(r) == message_of(json(*update)),
{
    let m: Option<&Value> = at(Some(update), "message");
    if m.is_some() {
        m
    } else {
        at(Some(update), "edited_message")
    }
}

/// Who a message is from.
pub open spec fn sender_of(message: Json) -> Seq<char> {
    decimal_int(number_or_zero(member_of(member(message, "from"@), "id"@)) as int)
}

/// The photo of a message in its largest size, which comes last.
pub open spec fn photo_of(message: Json) -> Option<Seq<char>> {
    match as_list(member(message, "photo"@)) {
        Some(sizes) => if sizes.len() > 0 {
            as_text(member(sizes.last(), "file_id"@))
        } else {
            None
        },
        None => None,
    }
}

/// Whether a message has photos.
pub open spec fn has_photo(message: Json) -> bool {
    match as_list(member(message, "photo"@)) {
        Some(sizes) => sizes.len() > 0,
        None => false,
    }
}

/// The parameters that ask where a file lies.
pub fn file_params(file_id: &str) -> (r: Value)
    ensures
        json(r) == object1("file_id"@, Json::Text(file_id@)),
{
    make_object1("file_id", from_text(file_id))
}

/// The files that are to be fetched before a message can be handed on: its
/// photo and its recording.
pub struct WantedFiles {
    pub photo: Option<String>,
    pub voice: Option<String>,
}

/// The photo and the recording to fetch for an update; nothing where it brings
/// no message or its sender is not let in.
pub open spec fn wanted_in(update: Json, allow_from: Option<Seq<Seq<char>>>) -> Option<
    (Option<Seq<char>>, Option<Seq<char>>),
> {
    match message_of(update) {
        Some(m) => if on_list(allow_from, sender_of(m)) {
            Some((photo_of(m), as_text(member_of(member(m, "voice"@), "file_id"@))))
        } else {
            None
        },
        None => None,
    }
}

/// What an update brings.
pub enum Update {
    Click(CallbackEvent),
    /// A message, for which these files are to be fetched.
    Message(WantedFiles),
    Nothing,
}

/// What an update brings: a click before anything else.
pub fn read_update(update: &Value, allow_from: &Option<Vec<String>>) -> (r: Update)
    ensures
        match callback_in(json(*update)) {
            Some(c) => r matches Update::Click(e) && e@ == c,
            None => match wanted_in(json(*update), list_opt(*allow_from)) {
                Some(files) => r matches Update::Message(w) && (
                    text_opt(w.photo),
                    text_opt(w.voice),
                ) == files,
                None => r is Nothing,
            },
        },
{
    if let Some(click) = parse_callback_query(update) {
        return Update::Click(click);
    }
    match wanted_files(update, allow_from) {
        Some(files) => Update::Message(files),
        None => Update::Nothing,
    }
}

/// The files to fetch for an update; nothing where it brings no message or its
/// sender is not let in.
pub fn wanted_files(update: &Value, allow_from: &Option<Vec<String>>) -> (r: Option<WantedFiles>)
    ensures
        match r {
            Some(w) => wanted_in(json(*update), list_opt(*allow_from)) == Some(
                (text_opt(w.photo), text_opt(w.voice)),
            ),
            None => wanted_in(json(*update), list_opt(*allow_from)) is None,
        },
{
    let message: &Value = match message_value(update) {
        Some(m) => m,
        None => {
            return None;
        },
    };
    if !lets_in(message, allow_from) {
        return None;
    }
    let photo: Option<String> = match list_of(at(Some(message), "photo")) {
        Some(sizes) => if sizes.len() > 0 {
            assert(json_list(sizes@).last() == json(sizes@[sizes.len() - 1]));
            owned_text(at(Some(&sizes[sizes.len() - 1]), "file_id"))
        } else {
            None
        },
        None => None,
    };
    let voice: Option<String> = owned_text(at(at(Some(message), "voice"), "file_id"));
    Some(WantedFiles { photo, voice })
}

fn lets_in(message: &Value, allow_from: &Option<Vec<String>>) -> (r: bool)
    ensures
        r == on_list(list_opt(*allow_from), sender_of(json(*message))),
{
    let id: i64 = signed_or_zero(at(at(Some(message), "from"), "id"));
    let from: String = decimal_of_signed(id);
    match allow_from {
        Some(list) => holds_text(list, from.as_str()),
        None => true,
    }
}

/// The text of a message, or the caption of its photo.
pub open spec fn text_in(message: Json) -> Seq<char> {
    match as_text(member(message, "text"@)) {
        Some(t) => t,
        None => text_else(member(message, "caption"@), ""@),
    }
}

/// The message that an update brings, with the files that could be fetched;
/// nothing where it says nothing.
pub open spec fn incoming_in(
    update: Json,
    allow_from: Option<Seq<Seq<char>>>,
    images: Seq<(Seq<u8>, Seq<char>, Seq<char>)>,
    voice: Option<Seq<char>>,
) -> Option<MessageModel> {
    match message_of(update) {
        Some(m) => {
            let chat = member(m, "chat"@);
            let chat_id = number_or_zero(member_of(chat, "id"@));
            let id = as_signed(member(m, "message_id"@));
            if !on_list(allow_from, sender_of(m)) || (text_in(m).len() == 0 && !has_photo(m)
                && voice is None) {
                None
            } else {
                Some(
                    MessageModel {
                        id: decimal_int(number_or_zero(member(m, "message_id"@)) as int),
                        from: sender_of(m),
                        from_name: as_text(member_of(member(m, "from"@), "first_name"@)),
                        text: text_in(m),
                        images,
                        files: Seq::empty(),
                        voice,
                        is_group: text_else(member_of(chat, "type"@), "private"@) != "private"@,
                        channel_id: Some(decimal_int(chat_id as int)),
                        channel_name: as_text(member_of(chat, "title"@)),
                        reply_ctx: TargetModel::Telegram(
                            TelegramReplyCtx {
                                chat_id,
                                thread_id: as_signed(member(m, "message_thread_id"@)),
                                message_id: id,
                            },
                        ),
                    },
                )
            }
        },
        None => None,
    }
}

/// The message that an update brings, with the files that could be fetched.
pub fn parse_incoming_message(
    update: &Value,
    allow_from: &Option<Vec<String>>,
    images: Vec<ImageAttachment>,
    voice: Option<String>,
) -> (r: Option<IncomingMessage>)
    ensures
        ({
            let want = incoming_in(
                json(*update),
                list_opt(*allow_from),
                images_view(images@),
                text_opt(voice),
            );
            match r {
                Some(m) => want == Some(m@),
                None => want is None,
            }
        }),
{
    let message: &Value = match message_value(update) {
        Some(m) => m,
        None => {
            return None;
        },
    };
    if !lets_in(message, allow_from) {
        return None;
    }
    let text: String = match text_of(at(Some(message), "text")) {
        Some(t) => t.to_owned(),
        None => text_or(at(Some(message), "caption"), ""),
    };
    let has_photo: bool = match list_of(at(Some(message), "photo")) {
        Some(sizes) => sizes.len() > 0,
        None => false,
    };
    if text.as_str().is_empty() && !has_photo && voice.is_none() {
        return None;
    }
    let from: Option<&Value> = at(Some(message), "from");
    let chat: Option<&Value> = at(Some(message), "chat");
    let chat_id: i64 = signed_or_zero(at(chat, "id"));
    let chat_type: String = text_or(at(chat, "type"), "private");
    let files: Vec<FileAttachment> = Vec::new();
    assert(files_view(files@) =~= Seq::empty());
    let id: i64 = signed_or_zero(at(Some(message), "message_id"));
    let from_id: i64 = signed_or_zero(at(from, "id"));
    Some(
        IncomingMessage {
            id: decimal_of_signed(id),
            from: decimal_of_signed(from_id),
            from_name: owned_text(at(from, "first_name")),
            text,
            images,
            files,
            voice,
            is_group: !same(chat_type.as_str(), "private"),
            channel_id: Some(decimal_of_signed(chat_id)),
            channel_name: owned_text(at(chat, "title")),
            reply_ctx: ReplyTarget::Telegram(
                TelegramReplyCtx {
                    chat_id,
                    thread_id: signed_of(at(Some(message), "message_thread_id")),
                    message_id: signed_of(at(Some(message), "message_id")),
                },
            ),
        },
    )
}

// ---------------------------------------------------------------------------
// Files
// ---------------------------------------------------------------------------

/// The path of a file in a response, or an error.
pub fn file_path_in(response: &Value) -> (r: Result<String, String>)
    ensures
        match file_path_of(json(*response)) {
            Some(p) => r matches Ok(s) && s@ == p,
            None => r matches Err(e) && e@ == "getFile returned no file_path"@,
        },
{
    match text_of(at(at(Some(response), "result"), "file_path")) {
        Some(p) => Ok(p.to_owned()),
        None => Err("getFile returned no file_path".to_owned()),
    }
}

/// What stands behind the last `c`; everything where there is none.
pub open spec fn after_last(s: Seq<char>, c: char) -> Seq<char>
    decreases s.len(),
{
    if s.len() == 0 || s.last() == c {
        Seq::empty()
    } else {
        after_last(s.drop_last(), c).push(s.last())
    }
}

fn behind_last<'a>(s: &'a str, c: char) -> (r: &'a str)
    ensures
        r@ == after_last(s@, c),
{
    let v: Vec<char> = chars_of(s);
    let n: usize = v.len();
    let mut i: usize = n;
    assert(s@.take(n as int) =~= s@);
    assert(s@.skip(n as int) =~= Seq::<char>::empty());
    assert(after_last(s@, c) =~= after_last(s@.take(i as int), c) + s@.skip(i as int));
    while i > 0 && v[i - 1] != c
        invariant
            i <= n,
            n == v.len(),
            v@ == s@,
            after_last(s@, c) == after_last(s@.take(i as int), c) + s@.skip(i as int),
        decreases i,
    {
        proof {
            let front = s@.take(i as int);
            assert(front.last() == v[i - 1]);
            assert(front.drop_last() =~= s@.take(i - 1));
            assert(after_last(s@.take(i - 1), c).push(v[i - 1]) + s@.skip(i as int) =~= after_last(
                s@.take(i - 1),
                c,
            ) + s@.skip(i - 1));
        }
        i -= 1;
    }
    proof {
        let front = s@.take(i as int);
        if i > 0 {
            assert(front.last() == v[i - 1]);
        }
        assert(after_last(front, c) =~= Seq::<char>::empty());
        assert(Seq::<char>::empty() + s@.skip(i as int) =~= s@.skip(i as int));
    }
    skip(s, i)
}

/// The name of a file: the last part of its path.
pub fn file_name(file_path: &str) -> (r: String)
    ensures
        r@ == after_last(file_path@, '/'),
{
    behind_last(file_path, '/').to_owned()
}

/// The name under which a recording is kept: its id, the time in seconds and
/// the extension of its path.
pub open spec fn recording_name(file_id: Seq<char>, seconds: int, path: Seq<char>) -> Seq<char> {
    file_id + "_"@ + decimal_int(seconds) + "."@ + after_last(path, '.')
}

/// The name under which a recording is kept: its id, the time in seconds and
/// the extension of its path.
pub fn voice_file_name(file_id: &str, seconds: i64, file_path: &str) -> (r: String)
    ensures
        r@ == recording_name(file_id@, seconds as int, file_path@),
{
    let at: String = decimal_of_signed(seconds);
    cat5(file_id, "_", at.as_str(), ".", behind_last(file_path, '.'))
}

// ---------------------------------------------------------------------------
// Polling
// ---------------------------------------------------------------------------

/// The longest pause after a failed poll, in seconds.
pub const MAX_BACKOFF_SECS: u64 = 60;

/// The pauses after failed polls.
#[derive(Debug)]
pub struct PollBackoff {
    secs: u64,
}

impl View for PollBackoff {
    type V = int;

    closed spec fn view(&self) -> int {
        self.secs as int
    }
}

/// The pause after the next failure.
pub open spec fn longer_pause(secs: int) -> int {
    if secs * 2 < MAX_BACKOFF_SECS {
        secs * 2
    } else {
        MAX_BACKOFF_SECS as int
    }
}

impl PollBackoff {
    pub open spec fn well_formed(&self) -> bool {
        1 <= self@ <= MAX_BACKOFF_SECS
    }

    pub fn new() -> (r: PollBackoff)
        ensures
            r@ == 1,
            r.well_formed(),
    {
        PollBackoff { secs: 1 }
    }

    /// A poll was answered.
    pub fn answered(&mut self)
        ensures
            final(self)@ == 1,
            final(self).well_formed(),
    {
        self.secs = 1;
    }

    /// A poll failed: the seconds to wait.
    pub fn failed(&mut self) -> (r: u64)
        requires
            old(self).well_formed(),
        ensures
            final(self).well_formed(),
            r == old(self)@,
            final(self)@ == longer_pause(old(self)@),
    {
        let r: u64 = self.secs;
        self.secs = if r * 2 < MAX_BACKOFF_SECS {
            r * 2
        } else {
            MAX_BACKOFF_SECS
        };
        r
    }
}

// ---------------------------------------------------------------------------
// Laws
// ---------------------------------------------------------------------------

/// A message that says nothing, shows nothing and has no recording is passed
/// over, whoever sent it.
pub proof fn law_empty_message_is_passed_over(
    update: Json,
    allow_from: Option<Seq<Seq<char>>>,
    images: Seq<(Seq<u8>, Seq<char>, Seq<char>)>,
)
    requires
        message_of(update) is Some,
        text_in(message_of(update)->0).len() == 0,
        !has_photo(message_of(update)->0),
    ensures
        incoming_in(update, allow_from, images, None) is None,
{
}

/// Replies to a message go to its own chat and topic.
pub proof fn law_reply_goes_back_to_the_topic(
    update: Json,
    allow_from: Option<Seq<Seq<char>>>,
    images: Seq<(Seq<u8>, Seq<char>, Seq<char>)>,
    voice: Option<Seq<char>>,
)
    requires
        incoming_in(update, allow_from, images, voice) is Some,
    ensures
        ({
            let m = message_of(update)->0;
            incoming_in(update, allow_from, images, voice)->0.reply_ctx matches
                TargetModel::Telegram(c) && c.chat_id == number_or_zero(
                member_of(member(m, "chat"@), "id"@),
            ) && c.thread_id == as_signed(member(m, "message_thread_id"@))
        }),
{
}

/// A message is of a group exactly where the type of its chat is given and is
/// not "private".
pub proof fn law_group_is_any_chat_but_a_private_one(
    update: Json,
    allow_from: Option<Seq<Seq<char>>>,
    images: Seq<(Seq<u8>, Seq<char>, Seq<char>)>,
    voice: Option<Seq<char>>,
)
    requires
        incoming_in(update, allow_from, images, voice) is Some,
    ensures
        ({
            let kind = member_of(member(message_of(update)->0, "chat"@), "type"@);
            incoming_in(update, allow_from, images, voice)->0.is_group <==> (kind matches Some(
                Json::Text(k),
            ) && k != "private"@)
        }),
{
}

/// Messages of two senders in one chat that is not private have the same session
/// key; messages of two senders in private chats have keys of their own.
pub proof fn law_chat_shares_a_session(
    a: Json,
    b: Json,
    allow_from: Option<Seq<Seq<char>>>,
    images: Seq<(Seq<u8>, Seq<char>, Seq<char>)>,
    voice: Option<Seq<char>>,
)
    requires
        incoming_in(a, allow_from, images, voice) is Some,
        incoming_in(b, allow_from, images, voice) is Some,
        member(message_of(a)->0, "chat"@) == member(message_of(b)->0, "chat"@),
    ensures
        ({
            let chat = member(message_of(a)->0, "chat"@);
            let kind = as_text(member_of(chat, "type"@));
            let ma = incoming_in(a, allow_from, images, voice)->0;
            let mb = incoming_in(b, allow_from, images, voice)->0;
            let ka = session_key("telegram"@, ma.from, ma.is_group, ma.channel_id);
            let kb = session_key("telegram"@, mb.from, mb.is_group, mb.channel_id);
            &&& kind is Some && kind != Some("private"@) ==> ka == kb
            &&& kind is None || kind == Some("private"@) ==> (ka == kb <==> ma.from == mb.from)
        }),
{
    let ma = incoming_in(a, allow_from, images, voice)->0;
    let mb = incoming_in(b, allow_from, images, voice)->0;
    let ka = session_key("telegram"@, ma.from, ma.is_group, ma.channel_id);
    let kb = session_key("telegram"@, mb.from, mb.is_group, mb.channel_id);
    if !ma.is_group && ka == kb {
        let n = ("telegram"@ + ":"@).len() as int;
        assert(ka.skip(n) =~= ma.from);
        assert(kb.skip(n) =~= mb.from);
    }
}

/// A message is taken over as it was sent: who it is from, what it says, the chat
/// that it stands in and the message that a reply answers.
pub proof fn law_message_is_taken_over(
    update: Json,
    allow_from: Option<Seq<Seq<char>>>,
    images: Seq<(Seq<u8>, Seq<char>, Seq<char>)>,
    voice: Option<Seq<char>>,
)
    requires
        incoming_in(update, allow_from, images, voice) is Some,
    ensures
        ({
            let m = message_of(update)->0;
            let r = incoming_in(update, allow_from, images, voice)->0;
            let from = as_signed(member_of(member(m, "from"@), "id"@));
            let chat = as_signed(member_of(member(m, "chat"@), "id"@));
            let id = as_signed(member(m, "message_id"@));
            let text = as_text(member(m, "text"@));
            let caption = as_text(member(m, "caption"@));
            &&& from is Some && from->0 >= 0 ==> value_of(r.from) == from->0
            &&& id is Some && id->0 >= 0 ==> value_of(r.id) == id->0
            &&& chat is Some && chat->0 < 0 ==> r.channel_id is Some && r.channel_id->0[0] == '-'
                && value_of(r.channel_id->0.skip(1)) == -chat->0
            &&& chat is Some && chat->0 >= 0 ==> r.channel_id is Some && value_of(r.channel_id->0)
                == chat->0
            &&& text is Some ==> r.text == text->0
            &&& text is None && caption is Some ==> r.text == caption->0
            &&& r.images == images && r.voice == voice
            &&& r.reply_ctx matches TargetModel::Telegram(c) && c.message_id == id && (chat is Some
                ==> c.chat_id == chat->0)
        }),
{
    let m = message_of(update)->0;
    law_signed_decimal_reads_back(
        number_or_zero(member_of(member(m, "from"@), "id"@)) as int,
    );
    law_signed_decimal_reads_back(
        number_or_zero(member_of(member(m, "chat"@), "id"@)) as int,
    );
    law_signed_decimal_reads_back(number_or_zero(member(m, "message_id"@)) as int);
}

/// Only those on the list are heard: whoever is not has no message taken and no
/// file fetched. Whoever is and says something is heard, and without a list
/// everyone is.
pub proof fn law_only_the_listed_are_heard(
    update: Json,
    list: Seq<Seq<char>>,
    images: Seq<(Seq<u8>, Seq<char>, Seq<char>)>,
    voice: Option<Seq<char>>,
)
    requires
        message_of(update) is Some,
    ensures
        ({
            let m = message_of(update)->0;
            let said = as_text(member(m, "text"@));
            &&& !list.contains(sender_of(m)) ==> incoming_in(update, Some(list), images, voice)
                is None && wanted_in(update, Some(list)) is None
            &&& list.contains(sender_of(m)) && said is Some && said->0.len() > 0 ==> incoming_in(
                update,
                Some(list),
                images,
                voice,
            ) is Some && wanted_in(update, Some(list)) is Some
            &&& said is Some && said->0.len() > 0 ==> incoming_in(update, None, images, voice)
                is Some
        }),
{
}

/// A new message is read, and an edited one where there is no new one; a click
/// is told with its id and its data.
pub proof fn law_updates_bring_messages_and_clicks(update: Json)
    ensures
        member(update, "message"@) is Some ==> message_of(update) == member(update, "message"@),
        member(update, "message"@) is None ==> message_of(update) == member(
            update,
            "edited_message"@,
        ),
        ({
            let cq = member(update, "callback_query"@);
            let id = as_text(member_of(cq, "id"@));
            let data = as_text(member_of(cq, "data"@));
            let chat = as_signed(member_of(member_of(member_of(cq, "message"@), "chat"@), "id"@));
            &&& callback_in(update) is Some <==> id is Some
            &&& id is Some ==> callback_in(update)->0.id == id->0
            &&& id is Some && data is Some ==> callback_in(update)->0.data == data->0
            &&& id is Some && chat is Some ==> callback_in(update)->0.reply_ctx.chat_id == chat->0
        }),
{
}

/// A text goes to the chat and the topic that it answers, whole; a topic is named
/// only where there is one. The same holds of a text with buttons, each of which
/// stands on the keyboard with its label and its data.
pub proof fn law_text_goes_to_its_chat(
    ctx: TelegramReplyCtx,
    text: Seq<char>,
    buttons: Seq<(Seq<char>, Seq<char>)>,
)
    ensures
        ({
            let p = send_params(ctx, text);
            let k = keyboard_json(ctx, text, buttons);
            let rows = as_list(member_of(member(k, "reply_markup"@), "inline_keyboard"@));
            &&& member(p, "chat_id"@) == Some(Json::Number(ctx.chat_id as int))
            &&& member(k, "chat_id"@) == Some(Json::Number(ctx.chat_id as int))
            &&& as_text(member(p, "text"@)) == Some(text)
            &&& as_text(member(k, "text"@)) == Some(text)
            &&& as_signed(member(p, "message_thread_id"@)) == ctx.thread_id
            &&& as_signed(member(k, "message_thread_id"@)) == ctx.thread_id
            &&& rows is Some && rows->0.len() == 1
            &&& as_list(Some(rows->0[0])) is Some
            &&& as_list(Some(rows->0[0]))->0.len() == buttons.len()
            &&& forall|i: int|
                0 <= i < buttons.len() ==> ({
                    let b = #[trigger] as_list(Some(rows->0[0]))->0[i];
                    &&& as_text(member(b, "text"@)) == Some(buttons[i].0)
                    &&& as_text(member(b, "callback_data"@)) == Some(buttons[i].1)
                })
        }),
{
    reveal_strlit("chat_id");
    reveal_strlit("text");
    reveal_strlit("parse_mode");
    reveal_strlit("message_thread_id");
    reveal_strlit("reply_markup");
    reveal_strlit("callback_data");
    assert("chat_id"@.len() == 7 && "text"@.len() == 4 && "parse_mode"@.len() == 10);
    assert("message_thread_id"@.len() == 17 && "reply_markup"@.len() == 12);
    assert("callback_data"@.len() == 13);
}

/// Updates are asked for from behind the last one, so that none comes twice.
pub proof fn law_updates_come_once(offset: int, update: Json)
    ensures
        as_signed(member(update, "update_id"@)) is Some ==> offset_after(offset, update)
            > as_signed(member(update, "update_id"@))->0 && offset_after(offset, update) - 1
            == as_signed(member(update, "update_id"@))->0,
        as_signed(member(update, "update_id"@)) is None ==> offset_after(offset, update) == offset,
{
}

/// Pauses grow from failure to failure, at most to the double, up to a minute.
pub proof fn law_pauses_grow(secs: int)
    requires
        1 <= secs <= 60,
    ensures
        secs <= longer_pause(secs) <= 2 * secs,
        longer_pause(secs) <= 60,
        secs < 60 ==> secs < longer_pause(secs),
        longer_pause(secs) == 2 * secs || longer_pause(secs) == 60,
{
}

/// The name of a file is the last part of its path, and the name of a recording
/// starts with its id.
pub proof fn law_file_is_named_by_its_path(
    dir: Seq<char>,
    name: Seq<char>,
    id: Seq<char>,
    seconds: int,
)
    requires
        !name.contains('/'),
    ensures
        after_last(dir + "/"@ + name, '/') == name,
        after_last(name, '/') == name,
        id.is_prefix_of(recording_name(id, seconds, name)),
    decreases name.len(),
{
    reveal_strlit("/");
    lemma_after_last(dir + "/"@, name, '/');
    lemma_after_last(Seq::empty(), name, '/');
    assert(Seq::<char>::empty() + name =~= name);
    let r = recording_name(id, seconds, name);
    assert(id =~= r.take(id.len() as int));
}

proof fn lemma_after_last(before: Seq<char>, name: Seq<char>, c: char)
    requires
        !name.contains(c),
        before.len() == 0 || before.last() == c,
    ensures
        after_last(before + name, c) == name,
    decreases name.len(),
{
    let s = before + name;
    if name.len() == 0 {
        assert(s =~= before);
        assert(after_last(s, c) =~= name);
    } else {
        assert(name.contains(name.last()));
        assert forall|i: int| 0 <= i < name.drop_last().len() implies name.drop_last()[i] != c by {
            assert(name.contains(name[i]));
        }
        lemma_after_last(before, name.drop_last(), c);
        assert(s.drop_last() =~= before + name.drop_last());
        assert(s.last() == name.last());
        assert(after_last(s, c) =~= name);
    }
}

/// The photo that is fetched is one of the message, in the size that comes last.
pub proof fn law_largest_photo_is_fetched(update: Json, sizes: Seq<Json>)
    requires
        message_of(update) is Some,
        as_list(member(message_of(update)->0, "photo"@)) == Some(sizes),
        sizes.len() > 0,
    ensures
        wanted_in(update, None) is Some,
        (wanted_in(update, None)->0).0 == as_text(member(sizes[sizes.len() - 1], "file_id"@)),
        (wanted_in(update, None)->0).1 == as_text(
            member_of(member(message_of(update)->0, "voice"@), "file_id"@),
        ),
{
}

/// A call about a message names the chat and the message that it is about, and
/// an edit carries the new text.
pub proof fn law_calls_name_their_message(chat: int, message: int, text: Seq<char>)
    ensures
        ({
            let e = edit_json(chat, message, text);
            let d = delete_json(chat, message);
            &&& member(e, "chat_id"@) == Some(Json::Number(chat)) && member(e, "message_id"@)
                == Some(Json::Number(message)) && as_text(member(e, "text"@)) == Some(text)
            &&& as_text(member(e, "parse_mode"@)) == Some("HTML"@)
            &&& member(d, "chat_id"@) == Some(Json::Number(chat)) && member(d, "message_id"@)
                == Some(Json::Number(message))
            &&& member(typing_json(chat), "chat_id"@) == Some(Json::Number(chat))
            &&& as_text(member(typing_json(chat), "action"@)) == Some("typing"@)
        }),
{
    reveal_strlit("chat_id");
    reveal_strlit("message_id");
    reveal_strlit("text");
    reveal_strlit("parse_mode");
    reveal_strlit("action");
    assert("chat_id"@.len() == 7 && "message_id"@.len() == 10 && "text"@.len() == 4
        && "parse_mode"@.len() == 10 && "action"@.len() == 6);
    assert("message_id"@[0] != "parse_mode"@[0]);
}

/// The answer to a click names the click and carries the text.
pub proof fn law_click_is_answered(callback_id: Seq<char>, text: Seq<char>)
    ensures
        as_text(member(callback_json(callback_id, text), "callback_query_id"@)) == Some(callback_id),
        as_text(member(callback_json(callback_id, text), "text"@)) == Some(text),
{
    reveal_strlit("callback_query_id");
    reveal_strlit("text");
    assert("callback_query_id"@.len() != "text"@.len());
}

/// Updates are asked for from the offset on, and of every kind that is read:
/// messages, edited messages and clicks.
pub proof fn law_updates_are_asked_for(offset: int)
    ensures
        member(updates_json(offset), "offset"@) == Some(Json::Number(offset)),
        as_list(member(updates_json(offset), "allowed_updates"@)) is Some,
        ({
            let kinds = as_list(member(updates_json(offset), "allowed_updates"@))->0;
            &&& kinds.contains(Json::Text("message"@))
            &&& kinds.contains(Json::Text("edited_message"@))
            &&& kinds.contains(Json::Text("callback_query"@))
        }),
{
    reveal_strlit("offset");
    reveal_strlit("timeout");
    reveal_strlit("allowed_updates");
    assert("offset"@.len() == 6 && "timeout"@.len() == 7 && "allowed_updates"@.len() == 15);
    let kinds = as_list(member(updates_json(offset), "allowed_updates"@))->0;
    assert(kinds[0] == Json::Text("message"@));
    assert(kinds[1] == Json::Text("edited_message"@));
    assert(kinds[2] == Json::Text("callback_query"@));
}

/// The address of a call ends in its method and that of a file in its path, both
/// behind the token, and they differ.
pub proof fn law_addresses_hold_the_token(token: Seq<char>, what: Seq<char>)
    ensures
        ("bot"@ + token + "/"@ + what).is_suffix_of(call_address(token, what)),
        ("bot"@ + token + "/"@ + what).is_suffix_of(file_address(token, what)),
        "https://"@.is_prefix_of(call_address(token, what)),
        "https://"@.is_prefix_of(file_address(token, what)),
        call_address(token, what) != file_address(token, what),
{
    reveal_strlit("https://");
    reveal_strlit("bot");
    reveal_strlit("https://api.telegram.org/bot");
    reveal_strlit("https://api.telegram.org/file/bot");
    let end = "bot"@ + token + "/"@ + what;
    let c = call_address(token, what);
    let g = file_address(token, what);
    assert(end =~= c.skip(c.len() - end.len()));
    assert(end =~= g.skip(g.len() - end.len()));
    assert("https://"@ =~= c.take(8));
    assert("https://"@ =~= g.take(8));
    assert(c.len() != g.len());
}

/// A file's path and a message's number are read from the result of a response.
pub proof fn law_result_is_read(path: Seq<char>, n: i64)
    ensures
        file_path_of(object1("result"@, object1("file_path"@, Json::Text(path)))) == Some(path),
        file_path_of(Json::Null) is None,
        sent_id(object1("result"@, object1("message_id"@, Json::Number(n as int)))) == n,
        sent_id(Json::Null) == 0,
{
}

} // verus!
