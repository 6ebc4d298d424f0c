//! The Feishu (Lark) platform.
//!
//! Messages come as events of a long connection; replies are interactive cards
//! whose body is one Markdown element, so that the model's Markdown is shown as
//! it is.

use crate::json::{
    as_list, as_text, at, from_flag, from_list, from_text, json, json_list, json_opt, list_of,
    make_object1, make_object2, make_object3, member, member_of, object1, object2, object3,
    owned_text, parse, parse_bytes, parsed, parsed_bytes, render, rendered, text_else, text_of,
    text_or, Json,
};
use crate::message::{
    files_view, images_view, FileAttachment, ImageAttachment, IncomingMessage, MessageModel,
};
use crate::platform::{
    AnyCtx, AnyHandle, Capabilities, Platform, PlatformCapabilities, PreviewHandle, ReplyCtx,
    ReplyTarget, TargetModel,
};
use crate::routing::{comma_list, on_list};
use crate::text::{
    chars_of, clone_opt, contains, holds_text, is_space, join, joined,
    law_trimmed_stands_in_the_text, lemma_joined_split, lemma_texts_push, list_opt, occurs, same,
    split, starts_with, text_opt, texts, trim, trimmed, whitespace,
};
use serde_json::Value;
use vstd::prelude::*;
use vstd::string::*;

verus! {

// ---------------------------------------------------------------------------
// Contexts
// ---------------------------------------------------------------------------

/// Routing context for a chat: `chat_id` keys the session, `message_id` is the
/// message that started the exchange.
#[derive(Debug)]
pub struct FeishuReplyCtx {
    pub chat_id: String,
    pub message_id: Option<String>,
}

impl View for FeishuReplyCtx {
    type V = (Seq<char>, Option<Seq<char>>);

    open spec fn view(&self) -> (Seq<char>, Option<Seq<char>>) {
        (self.chat_id@, text_opt(self.message_id))
    }
}

impl ReplyCtx for FeishuReplyCtx {
    open spec fn key_hint(&self) -> Seq<char> {
        "feishu:"@ + self.chat_id@
    }

    open spec fn target(&self) -> ReplyTarget {
        ReplyTarget::Feishu(*self)
    }

    fn as_any(&self) -> (r: AnyCtx<'_>) {
        AnyCtx::Feishu(self)
    }

    fn session_key_hint(&self) -> (r: String) {
        let mut r: String = "feishu:".to_owned();
        r.append(self.chat_id.as_str());
        r
    }

    fn clone_box(&self) -> (r: Box<ReplyTarget>) {
        let copy: FeishuReplyCtx = FeishuReplyCtx {
            chat_id: self.chat_id.clone(),
            message_id: clone_opt(&self.message_id),
        };
        Box::new(ReplyTarget::Feishu(copy))
    }
}

/// Handle of a sent card that can be edited or deleted in place.
#[derive(Debug)]
pub struct FeishuPreviewHandle {
    pub message_id: String,
}

impl PreviewHandle for FeishuPreviewHandle {
    open spec fn handle(&self) -> AnyHandle<'_> {
        AnyHandle::Feishu(self)
    }

    fn as_any(&self) -> (r: AnyHandle<'_>) {
        AnyHandle::Feishu(self)
    }
}

// ---------------------------------------------------------------------------
// The platform
// ---------------------------------------------------------------------------

/// The reaction on a message that is being worked on.
pub const WORKING_EMOJI: &'static str = "OnIt";

/// Options of a Feishu or Lark platform.
#[derive(Debug)]
pub struct FeishuOptions {
    pub app_id: String,
    pub app_secret: String,
    /// `feishu` or `lark`.
    pub domain: Option<String>,
    /// Comma-separated user ids; `*` or nothing for everyone.
    pub allow_from: Option<String>,
    /// Respond to every group message, not only to mentions.
    pub group_reply_all: bool,
}

/// The two services.
#[derive(PartialEq, Eq, Structural, Clone, Copy, Debug)]
pub enum Domain {
    Feishu,
    Lark,
}

pub struct FeishuPlatform {
    app_id: String,
    app_secret: String,
    domain: Domain,
    allow_from: Option<Vec<String>>,
    group_reply_all: bool,
}

/// What a [`FeishuPlatform`] holds.
pub struct FeishuModel {
    pub app_id: Seq<char>,
    pub app_secret: Seq<char>,
    pub domain: Domain,
    pub allow_from: Option<Seq<Seq<char>>>,
    pub group_reply_all: bool,
}

impl View for FeishuPlatform {
    type V = FeishuModel;

    closed spec fn view(&self) -> FeishuModel {
        FeishuModel {
            app_id: self.app_id@,
            app_secret: self.app_secret@,
            domain: self.domain,
            allow_from: list_opt(self.allow_from),
            group_reply_all: self.group_reply_all,
        }
    }
}

/// The ids that an allow-list names; nothing where it lets everyone in.
pub open spec fn user_list(list: Option<Seq<char>>) -> Option<Seq<Seq<char>>> {
    match list {
        Some(s) => if trimmed(s) == "*"@ || trimmed(s).len() == 0 {
            None
        } else {
            Some(split(s, ',').map_values(|x: Seq<char>| trimmed(x)))
        },
        None => None,
    }
}

impl FeishuPlatform {
    pub fn new(opts: FeishuOptions) -> (r: Self)
        ensures
            r@ == (FeishuModel {
                app_id: opts.app_id@,
                app_secret: opts.app_secret@,
                domain: if text_opt(opts.domain) == Some("lark"@) {
                    Domain::Lark
                } else {
                    Domain::Feishu
                },
                allow_from: user_list(text_opt(opts.allow_from)),
                group_reply_all: opts.group_reply_all,
            }),
    {
        let domain: Domain = match &opts.domain {
            Some(d) => if same(d.as_str(), "lark") {
                Domain::Lark
            } else {
                Domain::Feishu
            },
            None => Domain::Feishu,
        };
        let allow_from: Option<Vec<String>> = match &opts.allow_from {
            Some(s) => {
                let t: &str = trim(s.as_str());
                if same(t, "*") || t.is_empty() {
                    None
                } else {
                    Some(comma_list(s.as_str()))
                }
            },
            None => None,
        };
        Self {
            app_id: opts.app_id,
            app_secret: opts.app_secret,
            domain,
            allow_from,
            group_reply_all: opts.group_reply_all,
        }
    }

    /// The service that the platform speaks to.
    pub fn domain(&self) -> (r: Domain)
        ensures
            r == self@.domain,
    {
        self.domain
    }

    pub fn app_id(&self) -> (r: &str)
        ensures
            r@ == self@.app_id,
    {
        self.app_id.as_str()
    }

    pub fn app_secret(&self) -> (r: &str)
        ensures
            r@ == self@.app_secret,
    {
        self.app_secret.as_str()
    }
}

impl Platform for FeishuPlatform {
    open spec fn platform_name(&self) -> Seq<char> {
        "feishu"@
    }

    open spec fn markdown(&self) -> bool {
        true
    }

    fn name(&self) -> (r: &str) {
        "feishu"
    }

    fn renders_markdown(&self) -> (r: bool) {
        true
    }
}

impl PlatformCapabilities for FeishuPlatform {
    open spec fn can(&self) -> Capabilities {
        Capabilities {
            message_updater: true,
            image_sender: false,
            file_sender: false,
            inline_button_sender: false,
            typing_indicator: true,
        }
    }

    fn as_message_updater(&self) -> (r: bool) {
        true
    }

    fn as_image_sender(&self) -> (r: bool) {
        false
    }

    fn as_file_sender(&self) -> (r: bool) {
        false
    }

    fn as_inline_button_sender(&self) -> (r: bool) {
        false
    }

    fn as_typing_indicator(&self) -> (r: bool) {
        true
    }
}

// ---------------------------------------------------------------------------
// Messages
// ---------------------------------------------------------------------------

/// The words of a text, from the character `i` on, where `word` was read so
/// far.
pub open spec fn words_from(s: Seq<char>, i: int, word: Seq<char>) -> Seq<Seq<char>>
    decreases s.len() - i,
{
    if i < 0 || i >= s.len() {
        if word.len() > 0 {
            seq![word]
        } else {
            Seq::empty()
        }
    } else if is_space(s[i]) {
        if word.len() > 0 {
            seq![word] + words_from(s, i + 1, Seq::empty())
        } else {
            words_from(s, i + 1, Seq::empty())
        }
    } else {
        words_from(s, i + 1, word.push(s[i]))
    }
}

/// The words of a text: what stands between white space.
pub open spec fn words(s: Seq<char>) -> Seq<Seq<char>> {
    words_from(s, 0, Seq::empty())
}

fn split_words(s: &str) -> (r: Vec<String>)
    ensures
        texts(r@) == words(s@),
{
    let v: Vec<char> = chars_of(s);
    let mut r: Vec<String> = Vec::new();
    let mut word: String = String::new();
    let mut i: usize = 0;
    assert(texts(r@) + words(s@) =~= words(s@));
    while i < v.len()
        invariant
            i <= v.len(),
            v@ == s@,
            words(s@) == texts(r@) + words_from(s@, i as int, word@),
        decreases v.len() - i,
    {
        if whitespace(v[i]) {
            if !word.as_str().is_empty() {
                proof {
                    lemma_texts_push(r@, word);
                    let more = words_from(s@, i + 1, Seq::empty());
                    assert(texts(r@) + (seq![word@] + more) =~= texts(r@).push(word@) + more);
                }
                r.push(word);
                word = String::new();
            } else {
                assert(word@ =~= Seq::<char>::empty());
            }
        } else {
            word.push(v[i]);
        }
        i += 1;
    }
    if !word.as_str().is_empty() {
        proof {
            lemma_texts_push(r@, word);
            assert(texts(r@) + seq![word@] =~= texts(r@).push(word@));
        }
        r.push(word);
    } else {
        assert(texts(r@) + Seq::<Seq<char>>::empty() =~= texts(r@));
    }
    r
}

/// A text without the placeholders of mentions: its other words, a space
/// between each two.
pub open spec fn unmentioned(s: Seq<char>) -> Seq<char> {
    joined(words(s).filter(|w: Seq<char>| !"@_"@.is_prefix_of(w)), " "@)
}

/// A text without the placeholders of mentions.
pub fn strip_mention_tokens(text: &str) -> (r: String)
    ensures
        r@ == unmentioned(text@),
{
    let all: Vec<String> = split_words(text);
    let ghost w = words(text@);
    let ghost pred = |w: Seq<char>| !"@_"@.is_prefix_of(w);
    let mut kept: Vec<String> = Vec::new();
    let mut i: usize = 0;
    proof {
        reveal(Seq::filter);
        assert(texts(all@).len() == all.len());
        assert(w.take(0) =~= Seq::empty());
        assert(texts(kept@) =~= w.take(0).filter(pred));
    }
    while i < all.len()
        invariant
            i <= all.len(),
            w == texts(all@),
            pred == (|w: Seq<char>| !"@_"@.is_prefix_of(w)),
            texts(kept@) == w.take(i as int).filter(pred),
        decreases all.len() - i,
    {
        proof {
            reveal(Seq::filter);
            assert(w.take(i + 1).drop_last() =~= w.take(i as int));
            assert(w.take(i + 1).last() == all[i as int]@);
        }
        if !starts_with(all[i].as_str(), "@_") {
            let word: String = all[i].clone();
            proof {
                lemma_texts_push(kept@, word);
            }
            kept.push(word);
        }
        i += 1;
    }
    assert(w.take(i as int) =~= w);
    join(&kept, " ")
}

/// The text of a message's contents, which are JSON themselves.
pub open spec fn content_text(parsed_content: Option<Json>) -> Seq<char> {
    text_else(member_of(parsed_content, "text"@), Seq::empty())
}

/// Whether a message mentions anyone.
pub open spec fn has_mentions(msg: Json) -> bool {
    match as_list(member(msg, "mentions"@)) {
        Some(list) => list.len() > 0,
        None => false,
    }
}

/// The message that an event brings, for what its contents were read as;
/// nothing where it is not for the bot.
pub open spec fn message_in(m: FeishuModel, payload: Json, content: Option<Json>) -> Option<
    MessageModel,
> {
    let msg = member(payload, "message"@);
    let chat = as_text(member_of(msg, "chat_id"@));
    let id = as_text(member_of(msg, "message_id"@));
    let is_group = text_else(member_of(msg, "chat_type"@), ""@) == "group"@;
    let sender = text_else(
        member_of(member_of(member(payload, "sender"@), "sender_id"@), "open_id"@),
        ""@,
    );
    let text = unmentioned(content_text(content));
    if msg is None || chat is None || text_else(member_of(msg, "message_type"@), ""@) != "text"@ || (
    is_group && !m.group_reply_all && !has_mentions(msg->0)) || trimmed(text).len() == 0
        || !on_list(m.allow_from, sender) {
        None
    } else {
        Some(
            MessageModel {
                id: match id {
                    Some(i) => i,
                    None => Seq::empty(),
                },
                from: sender,
                from_name: None,
                text,
                images: Seq::empty(),
                files: Seq::empty(),
                voice: None,
                is_group,
                channel_id: chat,
                channel_name: None,
                reply_ctx: TargetModel::Feishu((chat->0, id)),
            },
        )
    }
}

/// The contents of a message in an event, which are JSON in a text.
pub open spec fn raw_content(payload: Json) -> Seq<char> {
    text_else(member_of(member(payload, "message"@), "content"@), ""@)
}

fn text_in(content: Option<&Value>) -> (r: String)
    ensures
        r@ == content_text(json_opt(content)),
{
    match text_of(at(content, "text")) {
        Some(t) => t.to_owned(),
        None => String::new(),
    }
}

impl FeishuPlatform {
    /// The message that an event brings.
    pub fn parse_incoming(&self, payload: &Value) -> (r: Option<IncomingMessage>)
        ensures
            ({
                let want = message_in(
                    self@,
                    json(*payload),
                    parsed(raw_content(json(*payload))),
                );
                match r {
                    Some(m) => want == Some(m@),
                    None => want is None,
                }
            }),
    {
        let content: String = text_or(at(at(Some(payload), "message"), "content"), "");
        match parse(content.as_str()) {
            Some(v) => self.parse_message(payload, Some(&v)),
            None => self.parse_message(payload, None),
        }
    }

    /// The message that an event brings, with its contents read already.
    pub fn parse_message(&self, payload: &Value, content: Option<&Value>) -> (r: Option<
        IncomingMessage,
    >)
        ensures
            match r {
                Some(m) => message_in(self@, json(*payload), json_opt(content)) == Some(m@),
                None => message_in(self@, json(*payload), json_opt(content)) is None,
            },
    {
        let msg: Option<&Value> = at(Some(payload), "message");
        let msg: &Value = match msg {
            Some(m) => m,
            None => {
                return None;
            },
        };
        let chat_id: &str = match text_of(at(Some(msg), "chat_id")) {
            Some(id) => id,
            None => {
                return None;
            },
        };
        let message_id: Option<String> = owned_text(at(Some(msg), "message_id"));
        let chat_type: String = text_or(at(Some(msg), "chat_type"), "");
        let msg_type: String = text_or(at(Some(msg), "message_type"), "");
        let sender_id: Option<&Value> = at(at(Some(payload), "sender"), "sender_id");
        let sender: String = text_or(at(sender_id, "open_id"), "");
        if !same(msg_type.as_str(), "text") {
            return None;
        }
        let is_group: bool = same(chat_type.as_str(), "group");
        if is_group && !self.group_reply_all {
            let mentioned: bool = match list_of(at(Some(msg), "mentions")) {
                Some(list) => list.len() > 0,
                None => false,
            };
            if !mentioned {
                return None;
            }
        }
        let raw: String = text_in(content);
        let text: String = strip_mention_tokens(raw.as_str());
        if trim(text.as_str()).is_empty() {
            return None;
        }
        if let Some(allow) = &self.allow_from {
            if !holds_text(allow, sender.as_str()) {
                return None;
            }
        }
        let images: Vec<ImageAttachment> = Vec::new();
        let files: Vec<FileAttachment> = Vec::new();
        assert(images_view(images@) =~= Seq::empty());
        assert(files_view(files@) =~= Seq::empty());
        let id: String = match &message_id {
            Some(i) => i.clone(),
            None => String::new(),
        };
        Some(
            IncomingMessage {
                id,
                from: sender,
                from_name: None,
                text,
                images,
                files,
                voice: None,
                is_group,
                channel_id: Some(chat_id.to_owned()),
                channel_name: None,
                reply_ctx: ReplyTarget::Feishu(
                    FeishuReplyCtx { chat_id: chat_id.to_owned(), message_id },
                ),
            },
        )
    }
}

// ---------------------------------------------------------------------------
// Cards
// ---------------------------------------------------------------------------

/// A card whose body is one Markdown element.
pub open spec fn card_json(markdown: Seq<char>) -> Json {
    object3(
        "schema"@,
        Json::Text("2.0"@),
        "config"@,
        object1("wide_screen_mode"@, Json::Bool(true)),
        "body"@,
        object1(
            "elements"@,
            Json::List(
                seq![
                    object2(
                        "tag"@,
                        Json::Text("markdown"@),
                        "content"@,
                        Json::Text(markdown),
                    ),
                ],
            ),
        ),
    )
}

/// A card whose body is one Markdown element.
pub fn build_card(markdown: &str) -> (r: Value)
    ensures
        json(r) == card_json(markdown@),
{
    let element: Value = make_object2(
        "tag",
        from_text("markdown"),
        "content",
        from_text(markdown),
    );
    let mut elements: Vec<Value> = Vec::new();
    elements.push(element);
    assert(json_list(elements@) =~= seq![json(element)]);
    make_object3(
        "schema",
        from_text("2.0"),
        "config",
        make_object1("wide_screen_mode", from_flag(true)),
        "body",
        make_object1("elements", from_list(elements)),
    )
}

/// The request for a card in a chat: the card is JSON in a text.
pub open spec fn card_message_json(chat_id: Seq<char>, markdown: Seq<char>) -> Json {
    object3(
        "receive_id"@,
        Json::Text(chat_id),
        "msg_type"@,
        Json::Text("interactive"@),
        "content"@,
        Json::Text(rendered(card_json(markdown))),
    )
}

/// The request for another card in the place of one.
pub open spec fn card_update_json(markdown: Seq<char>) -> Json {
    object1("content"@, Json::Text(rendered(card_json(markdown))))
}

/// The request for a reaction.
pub open spec fn reaction_json(emoji_type: Seq<char>) -> Json {
    object1("reaction_type"@, object1("emoji_type"@, Json::Text(emoji_type)))
}

/// The body of the request that sends a card to a chat; the card is JSON in a
/// text.
pub fn card_message(chat_id: &str, markdown: &str) -> (r: Value)
    ensures
        json(r) == card_message_json(chat_id@, markdown@),
{
    let card: String = render(&build_card(markdown));
    make_object3(
        "receive_id",
        from_text(chat_id),
        "msg_type",
        from_text("interactive"),
        "content",
        from_text(card.as_str()),
    )
}

/// The body of the request that puts another card in the place of one.
pub fn card_update(markdown: &str) -> (r: Value)
    ensures
        json(r) == card_update_json(markdown@),
{
    let card: String = render(&build_card(markdown));
    make_object1("content", from_text(card.as_str()))
}

/// The body of the request that adds a reaction to a message.
pub fn reaction_body(emoji_type: &str) -> (r: Value)
    ensures
        json(r) == reaction_json(emoji_type@),
{
    make_object1("reaction_type", make_object1("emoji_type", from_text(emoji_type)))
}

/// A member of the data of a response.
pub open spec fn data_member(response: Option<Json>, key: Seq<char>) -> Option<Seq<char>> {
    as_text(member_of(member_of(response, "data"@), key))
}

/// The id of the message in a response.
pub fn parse_message_id(body: &[u8]) -> (r: Option<String>)
    ensures
        text_opt(r) == data_member(parsed_bytes(body@), "message_id"@),
{
    match parse_bytes(body) {
        Some(v) => message_id_in(&v),
        None => None,
    }
}

/// The id of the message in a response that was read already.
pub fn message_id_in(response: &Value) -> (r: Option<String>)
    ensures
        text_opt(r) == data_member(Some(json(*response)), "message_id"@),
{
    owned_text(at(at(Some(response), "data"), "message_id"))
}

/// The id of the reaction in a response, or an error.
pub fn parse_reaction_id(body: &[u8]) -> (r: Result<String, String>)
    ensures
        match data_member(parsed_bytes(body@), "reaction_id"@) {
            Some(id) => r matches Ok(s) && s@ == id,
            None => r matches Err(e) && e@ == "feishu reaction: no reaction_id"@,
        },
{
    let id: Option<String> = match parse_bytes(body) {
        Some(v) => reaction_id_in(&v),
        None => None,
    };
    match id {
        Some(id) => Ok(id),
        None => Err("feishu reaction: no reaction_id".to_owned()),
    }
}

/// The id of the reaction in a response that was read already.
pub fn reaction_id_in(response: &Value) -> (r: Option<String>)
    ensures
        text_opt(r) == data_member(Some(json(*response)), "reaction_id"@),
{
    owned_text(at(at(Some(response), "data"), "reaction_id"))
}

/// Whether a response tells of success; Feishu does not tell by the status.
pub fn succeeded(body: &str) -> (r: bool)
    ensures
        r == occurs(body@, "\"code\":0"@),
{
    contains(body, "\"code\":0")
}

/// The error of a card that could not be sent.
pub fn send_error(body: &str) -> (r: String)
    ensures
        r@ == "feishu send failed: "@ + body@,
{
    let mut r: String = "feishu send failed: ".to_owned();
    r.append(body);
    r
}

/// The chat that a context leads to.
pub open spec fn chat_in(ctx: TargetModel) -> Option<Seq<char>> {
    match ctx {
        TargetModel::Feishu(c) => Some(c.0),
        _ => None,
    }
}

/// The message that a context leads to.
pub open spec fn message_in_ctx(ctx: TargetModel) -> Option<Seq<char>> {
    match ctx {
        TargetModel::Feishu(c) => c.1,
        _ => None,
    }
}

/// The chat of a context.
pub fn chat_id_of<C: ReplyCtx>(ctx: &C) -> (r: Result<String, String>)
    ensures
        match chat_in(ctx.target()@) {
            Some(chat) => r matches Ok(id) && id@ == chat,
            None => r matches Err(e) && e@ == "feishu: reply ctx is not a FeishuReplyCtx"@,
        },
{
    match ctx.as_any() {
        AnyCtx::Feishu(c) => Ok(c.chat_id.clone()),
        _ => Err("feishu: reply ctx is not a FeishuReplyCtx".to_owned()),
    }
}

/// The message that shows that the bot works on it.
pub fn message_to_react_to<C: ReplyCtx>(ctx: &C) -> (r: Result<String, String>)
    ensures
        match message_in_ctx(ctx.target()@) {
            Some(id) => r matches Ok(s) && s@ == id,
            None => r matches Err(e) && e@ == "feishu: no message_id to react to"@,
        },
{
    if let AnyCtx::Feishu(c) = ctx.as_any() {
        if let Some(id) = &c.message_id {
            return Ok(id.clone());
        }
    }
    Err("feishu: no message_id to react to".to_owned())
}

// ---------------------------------------------------------------------------
// Reconnecting
// ---------------------------------------------------------------------------

/// Seconds before the first new attempt, and at most.
pub const FIRST_BACKOFF_SECS: u64 = 5;

pub const MAX_BACKOFF_SECS: u64 = 60;

/// Seconds after which a connection counts as a healthy one.
pub const HEALTHY_SECS: u64 = 60;

/// The pauses between attempts to connect.
#[derive(Debug)]
pub struct StreamBackoff {
    secs: u64,
}

impl View for StreamBackoff {
    type V = int;

    closed spec fn view(&self) -> int {
        self.secs as int
    }
}

/// The pause after a connection ended, where `secs` is due after a failure: a
/// healthy one starts over.
pub open spec fn pause_after(secs: int, healthy: bool) -> int {
    if healthy {
        FIRST_BACKOFF_SECS as int
    } else {
        secs
    }
}

/// The pause after the next failure.
pub open spec fn longer(secs: int) -> int {
    if secs * 2 < MAX_BACKOFF_SECS {
        secs * 2
    } else {
        MAX_BACKOFF_SECS as int
    }
}

impl StreamBackoff {
    pub open spec fn well_formed(&self) -> bool {
        FIRST_BACKOFF_SECS <= self@ <= MAX_BACKOFF_SECS
    }

    pub fn new() -> (r: StreamBackoff)
        ensures
            r@ == FIRST_BACKOFF_SECS,
            r.well_formed(),
    {
        StreamBackoff { secs: FIRST_BACKOFF_SECS }
    }

    /// A connection could not be made: the seconds to wait.
    pub fn failed(&mut self) -> (r: u64)
        requires
            old(self).well_formed(),
        ensures
            final(self).well_formed(),
            r == old(self)@,
            final(self)@ == longer(old(self)@),
    {
        let r: u64 = self.secs;
        self.secs = if r * 2 < MAX_BACKOFF_SECS {
            r * 2
        } else {
            MAX_BACKOFF_SECS
        };
        r
    }

    /// A connection ended; `healthy` tells that it lasted for more than
    /// [`HEALTHY_SECS`]. Gives the seconds to wait.
    pub fn ended(&mut self, healthy: bool) -> (r: u64)
        requires
            old(self).well_formed(),
        ensures
            final(self).well_formed(),
            r == pause_after(old(self)@, healthy),
            final(self)@ == longer(r as int),
    {
        if healthy {
            self.secs = FIRST_BACKOFF_SECS;
        }
        self.failed()
    }
}

// ---------------------------------------------------------------------------
// Laws
// ---------------------------------------------------------------------------

/// The model's Markdown is in the card as it is.
pub proof fn law_card_holds_the_markdown(markdown: Seq<char>)
    ensures
        ({
            let elements = as_list(
                member_of(member(card_json(markdown), "body"@), "elements"@),
            )->0;
            &&& elements.len() == 1
            &&& as_text(member(elements[0], "content"@)) == Some(markdown)
        }),
{
    reveal_strlit("schema");
    reveal_strlit("config");
    reveal_strlit("body");
    reveal_strlit("tag");
    reveal_strlit("content");
    assert("body"@.len() != "schema"@.len());
}

/// In a group where only mentions count, a message without one is passed over.
pub proof fn law_group_needs_a_mention(m: FeishuModel, payload: Json, content: Option<Json>)
    requires
        !m.group_reply_all,
        text_else(member_of(member(payload, "message"@), "chat_type"@), ""@) == "group"@,
        member(payload, "message"@) is Some,
        !has_mentions(member(payload, "message"@)->0),
    ensures
        message_in(m, payload, content) is None,
{
}

/// What of a text is not white space.
pub open spec fn inked(s: Seq<char>) -> Seq<char>
    decreases s.len(),
{
    if s.len() == 0 {
        Seq::empty()
    } else if is_space(s[0]) {
        inked(s.skip(1))
    } else {
        seq![s[0]] + inked(s.skip(1))
    }
}

proof fn lemma_words_from(s: Seq<char>, i: int, word: Seq<char>)
    requires
        0 <= i <= s.len(),
        forall|k: int| 0 <= k < word.len() ==> !is_space(#[trigger] word[k]),
    ensures
        words_from(s, i, word).flatten() == word + inked(s.skip(i)),
        forall|k: int|
            0 <= k < words_from(s, i, word).len() ==> (#[trigger] words_from(s, i, word)[k]).len()
                > 0 && spaceless(words_from(s, i, word)[k]),
    decreases s.len() - i,
{
    let all = words_from(s, i, word);
    if i == s.len() {
        assert(s.skip(i) =~= Seq::<char>::empty());
        assert(inked(s.skip(i)) =~= Seq::<char>::empty());
        if word.len() > 0 {
            seq![word].lemma_flatten_one_element();
            assert(word + Seq::<char>::empty() =~= word);
        } else {
            assert(all.flatten() =~= Seq::<char>::empty());
            assert(word + Seq::<char>::empty() =~= Seq::<char>::empty());
        }
    } else {
        assert(s.skip(i).skip(1) =~= s.skip(i + 1));
        assert(s.skip(i)[0] == s[i]);
        if is_space(s[i]) {
            let rest = words_from(s, i + 1, Seq::empty());
            lemma_words_from(s, i + 1, Seq::empty());
            assert(Seq::<char>::empty() + inked(s.skip(i + 1)) =~= inked(s.skip(i + 1)));
            if word.len() > 0 {
                assert(all.drop_first() =~= rest);
                assert(all.first() == word);
                assert forall|k: int| 0 <= k < all.len() implies (#[trigger] all[k]).len() > 0
                    && spaceless(all[k]) by {
                    if k > 0 {
                        assert(all[k] == rest[k - 1]);
                    }
                }
            } else {
                assert(word + inked(s.skip(i)) =~= inked(s.skip(i + 1)));
            }
        } else {
            lemma_words_from(s, i + 1, word.push(s[i]));
            assert(word.push(s[i]) + inked(s.skip(i + 1)) =~= word + inked(s.skip(i)));
        }
    }
}

/// Whether a text has no white space in it.
pub open spec fn spaceless(s: Seq<char>) -> bool {
    forall|k: int| 0 <= k < s.len() ==> !is_space(#[trigger] s[k])
}

/// The words of a text hold all of it but white space, in its order; none is
/// empty and none has white space in it.
pub proof fn law_words_hold_the_text(s: Seq<char>)
    ensures
        words(s).flatten() == inked(s),
        forall|k: int|
            0 <= k < words(s).len() ==> (#[trigger] words(s)[k]).len() > 0 && spaceless(
                words(s)[k],
            ),
{
    lemma_words_from(s, 0, Seq::empty());
    assert(s.skip(0) =~= s);
    assert(Seq::<char>::empty() + inked(s) =~= inked(s));
}

proof fn lemma_inked_concat(a: Seq<char>, b: Seq<char>)
    ensures
        inked(a + b) == inked(a) + inked(b),
    decreases a.len(),
{
    if a.len() == 0 {
        assert(a + b =~= b);
        assert(inked(a) + inked(b) =~= inked(b));
    } else {
        assert((a + b).skip(1) =~= a.skip(1) + b);
        lemma_inked_concat(a.skip(1), b);
        assert(inked(a + b) =~= inked(a) + inked(b));
    }
}

proof fn lemma_inked_whole(s: Seq<char>)
    requires
        spaceless(s),
    ensures
        inked(s) == s,
    decreases s.len(),
{
    if s.len() > 0 {
        let t = s.skip(1);
        assert forall|k: int| 0 <= k < t.len() implies !is_space(#[trigger] t[k]) by {
            assert(t[k] == s[k + 1]);
        }
        lemma_inked_whole(t);
        assert(seq![s[0]] + t =~= s);
    } else {
        assert(inked(s) =~= s);
    }
}

proof fn lemma_inked_joined(ws: Seq<Seq<char>>)
    requires
        forall|k: int| 0 <= k < ws.len() ==> spaceless(#[trigger] ws[k]),
    ensures
        inked(joined(ws, " "@)) == ws.flatten(),
    decreases ws.len(),
{
    reveal_strlit(" ");
    if ws.len() == 0 {
        assert(inked(joined(ws, " "@)) =~= ws.flatten());
    } else if ws.len() == 1 {
        lemma_inked_whole(ws[0]);
        assert(ws =~= seq![ws[0]]);
        seq![ws[0]].lemma_flatten_one_element();
    } else {
        let front = ws.drop_last();
        assert forall|k: int| 0 <= k < front.len() implies spaceless(#[trigger] front[k]) by {
            assert(front[k] == ws[k]);
        }
        lemma_inked_joined(front);
        lemma_inked_whole(ws.last());
        lemma_inked_concat(joined(front, " "@) + " "@, ws.last());
        lemma_inked_concat(joined(front, " "@), " "@);
        assert(" "@.skip(1) =~= Seq::<char>::empty());
        assert(inked(Seq::<char>::empty()) =~= Seq::<char>::empty());
        assert(inked(" "@) =~= Seq::<char>::empty());
        assert(ws =~= front.push(ws.last()));
        front.lemma_flatten_push(ws.last());
        assert(inked(joined(front, " "@)) + Seq::<char>::empty() + ws.last() =~= front.flatten()
            + ws.last());
    }
}

/// Whether a word is the placeholder of a mention.
pub open spec fn is_placeholder(w: Seq<char>) -> bool {
    w.len() >= 2 && w[0] == '@' && w[1] == '_'
}

/// The text of a message keeps every word of it that is no placeholder of a
/// mention, in its order, and no placeholder.
pub proof fn law_only_placeholders_are_left_out(s: Seq<char>)
    ensures
        inked(unmentioned(s)) == words(s).filter(|w: Seq<char>| !is_placeholder(w)).flatten(),
        (forall|k: int| 0 <= k < words(s).len() ==> !is_placeholder(#[trigger] words(s)[k]))
            ==> inked(unmentioned(s)) == inked(s),
{
    reveal_strlit("@_");
    law_words_hold_the_text(s);
    let ws = words(s);
    let p = |w: Seq<char>| !"@_"@.is_prefix_of(w);
    let q = |w: Seq<char>| !is_placeholder(w);
    assert forall|w: Seq<char>| p(w) == #[trigger] q(w) by {
        if is_placeholder(w) {
            assert("@_"@ =~= w.take(2));
        }
        if "@_"@.is_prefix_of(w) {
            assert(w[0] == "@_"@[0] && w[1] == "@_"@[1]);
        }
    }
    assert(p =~= q);
    let kept = ws.filter(p);
    assert forall|k: int| 0 <= k < kept.len() implies spaceless(#[trigger] kept[k]) by {
        ws.lemma_filter_contains_rev(p, kept[k]);
        let j = choose|j: int| 0 <= j < ws.len() && ws[j] == kept[k];
        assert(spaceless(ws[j]));
    }
    lemma_inked_joined(kept);
    if forall|k: int| 0 <= k < ws.len() ==> !is_placeholder(#[trigger] ws[k]) {
        lemma_every_word_kept(ws, q);
    }
}

proof fn lemma_every_word_kept(ws: Seq<Seq<char>>, q: spec_fn(Seq<char>) -> bool)
    requires
        forall|k: int| 0 <= k < ws.len() ==> q(#[trigger] ws[k]),
    ensures
        ws.filter(q) == ws,
    decreases ws.len(),
{
    reveal(Seq::filter);
    if ws.len() > 0 {
        let front = ws.drop_last();
        assert forall|k: int| 0 <= k < front.len() implies q(#[trigger] front[k]) by {
            assert(front[k] == ws[k]);
        }
        lemma_every_word_kept(front, q);
        assert(q(ws[ws.len() - 1]));
        assert(ws =~= front.push(ws.last()));
    } else {
        assert(ws.filter(q) =~= ws);
    }
}

/// A message is taken over as it was sent: its sender, its chat, which is where
/// the reply goes, and whether that is a group. Only text is read, and only from
/// those on the list.
pub proof fn law_message_is_taken_over(m: FeishuModel, payload: Json, content: Option<Json>)
    ensures
        ({
            let msg = member(payload, "message"@);
            let sender = as_text(
                member_of(member_of(member(payload, "sender"@), "sender_id"@), "open_id"@),
            );
            let r = message_in(m, payload, content);
            &&& as_text(member_of(msg, "message_type"@)) != Some("text"@) ==> r is None
            &&& as_text(member_of(msg, "chat_id"@)) is None ==> r is None
            &&& m.allow_from is Some && sender is Some && !m.allow_from->0.contains(sender->0)
                ==> r is None
            &&& r is Some ==> r->0.channel_id == as_text(member_of(msg, "chat_id"@))
            &&& r is Some && sender is Some ==> r->0.from == sender->0
            &&& r is Some ==> (r->0.is_group <==> as_text(member_of(msg, "chat_type"@)) == Some(
                "group"@,
            ))
            &&& r is Some && as_text(member_of(msg, "message_id"@)) is Some ==> Some(r->0.id)
                == as_text(member_of(msg, "message_id"@))
            &&& r is Some ==> (r->0.reply_ctx matches TargetModel::Feishu(c) && Some(c.0)
                == r->0.channel_id && c.1 == as_text(member_of(msg, "message_id"@)))
            &&& r is Some ==> inked(r->0.text) == words(
                text_else(member_of(content, "text"@), Seq::empty()),
            ).filter(|w: Seq<char>| !is_placeholder(w)).flatten()
        }),
{
    reveal_strlit("");
    reveal_strlit("text");
    reveal_strlit("group");
    assert(""@.len() == 0 && "text"@.len() == 4 && "group"@.len() == 5);
    law_only_placeholders_are_left_out(content_text(content));
}

/// A direct message with a text is always heard from those on the list, and so is
/// a message in a group that mentions someone or where all are answered.
pub proof fn law_text_is_heard(m: FeishuModel, payload: Json, content: Option<Json>)
    requires
        m.allow_from is None,
        as_text(member_of(member(payload, "message"@), "chat_id"@)) is Some,
        as_text(member_of(member(payload, "message"@), "message_type"@)) == Some("text"@),
        trimmed(unmentioned(content_text(content))).len() > 0,
    ensures
        as_text(member_of(member(payload, "message"@), "chat_type"@)) != Some("group"@)
            ==> message_in(m, payload, content) is Some,
        m.group_reply_all ==> message_in(m, payload, content) is Some,
        as_list(member_of(member(payload, "message"@), "mentions"@)) is Some && as_list(
            member_of(member(payload, "message"@), "mentions"@),
        )->0.len() > 0 ==> message_in(m, payload, content) is Some,
{
    reveal_strlit("");
    reveal_strlit("group");
    assert(""@.len() == 0 && "group"@.len() == 5);
}

/// Pauses grow from failure to failure, at most to the double, up to a minute.
pub proof fn law_pauses_grow(secs: int)
    requires
        1 <= secs <= 60,
    ensures
        secs <= longer(secs) <= 2 * secs,
        longer(secs) <= 60,
        secs < 60 ==> secs < longer(secs),
        longer(secs) == 2 * secs || longer(secs) == 60,
        pause_after(secs, false) == secs,
        pause_after(secs, true) == 5,
{
}

/// A card goes to its chat as an interactive message, and both a card and the
/// one that takes its place are the rendering of a card with the text.
pub proof fn law_card_goes_to_its_chat(chat: Seq<char>, markdown: Seq<char>, emoji: Seq<char>)
    ensures
        ({
            let j = card_message_json(chat, markdown);
            let card = Json::Text(rendered(card_json(markdown)));
            &&& as_text(member(j, "receive_id"@)) == Some(chat)
            &&& as_text(member(j, "msg_type"@)) == Some("interactive"@)
            &&& member(j, "content"@) == Some(card)
            &&& member(card_update_json(markdown), "content"@) == Some(card)
        }),
        as_text(member_of(member(reaction_json(emoji), "reaction_type"@), "emoji_type"@)) == Some(
            emoji,
        ),
{
    reveal_strlit("receive_id");
    reveal_strlit("msg_type");
    reveal_strlit("content");
    assert("receive_id"@.len() == 10 && "msg_type"@.len() == 8 && "content"@.len() == 7);
}

/// An answer goes to the chat that its message came from, and the reaction to
/// that message.
pub proof fn law_answer_goes_back_to_the_chat(
    m: FeishuModel,
    payload: Json,
    content: Option<Json>,
)
    requires
        message_in(m, payload, content) is Some,
    ensures
        ({
            let msg = message_in(m, payload, content)->0;
            let raw = member(payload, "message"@);
            &&& chat_in(msg.reply_ctx) == Some(text_else(member_of(raw, "chat_id"@), ""@))
            &&& message_in_ctx(msg.reply_ctx) is Some ==> message_in_ctx(msg.reply_ctx)->0 == msg.id
        }),
{
}

/// An allow-list lets everyone in where it is a star or names nobody, and
/// otherwise names the users between its commas, whatever white space is around
/// them.
pub proof fn law_list_names_its_users(ids: Seq<Seq<char>>, user: Seq<char>)
    requires
        ids.len() > 0,
        forall|i: int| 0 <= i < ids.len() ==> !(#[trigger] ids[i]).contains(','),
        trimmed(joined(ids, ","@)) != "*"@,
        trimmed(joined(ids, ","@)).len() > 0,
    ensures
        user_list(None) is None,
        user_list(Some("*"@)) is None,
        user_list(Some(Seq::empty())) is None,
        user_list(Some(joined(ids, ","@))) is Some,
        user_list(Some(joined(ids, ","@)))->0.contains(user) <==> exists|i: int|
            0 <= i < ids.len() && trimmed(#[trigger] ids[i]) == user,
{
    reveal_strlit(",");
    reveal_strlit("*");
    assert(","@ =~= seq![',']);
    lemma_joined_split(ids, ',');
    let (a, b) = law_trimmed_stands_in_the_text("*"@);
    assert(!is_space('*'));
    if a.len() > 0 {
        assert("*"@[0] == a[0]);
    }
    if b.len() > 0 {
        assert("*"@[0] == b[b.len() - 1]);
    }
    assert(trimmed("*"@) =~= "*"@);
    let list = user_list(Some(joined(ids, ","@)))->0;
    if list.contains(user) {
        let i = choose|i: int| 0 <= i < list.len() && list[i] == user;
        assert(trimmed(ids[i]) == user);
    }
    if exists|i: int| 0 <= i < ids.len() && trimmed(#[trigger] ids[i]) == user {
        let i = choose|i: int| 0 <= i < ids.len() && trimmed(#[trigger] ids[i]) == user;
        assert(list[i] == user);
    }
}

/// What a response holds under its data is read from there, and only from there.
pub proof fn law_response_is_read(key: Seq<char>, id: Seq<char>, other: Seq<char>)
    requires
        other != key,
    ensures
        data_member(Some(object1("data"@, object1(key, Json::Text(id)))), key) == Some(id),
        data_member(Some(object1("data"@, object1(key, Json::Text(id)))), other) is None,
        key != "data"@ ==> data_member(Some(object1(key, Json::Text(id))), key) is None,
        data_member(None, key) is None,
{
}

/// The content of a message is read as it was sent; a message without one has an
/// empty one.
pub proof fn law_content_is_read(text: Seq<char>)
    ensures
        raw_content(object1("message"@, object1("content"@, Json::Text(text)))) == text,
        raw_content(Json::Null) == ""@,
{
}

} // verus!
