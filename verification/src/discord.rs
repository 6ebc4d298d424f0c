//! The Discord platform.
//!
//! Messages come over the gateway, a stream of JSON payloads; replies go over
//! the REST interface. A [`DiscordPlatform`] keeps what outlives a connection:
//! who the bot is, and from where a broken connection can be resumed.

use crate::chunks::{
    chunked, chunks, law_chunks_are_the_text, law_chunks_are_within_the_limit, strs,
};
use crate::control::{decided, reminder_buttons};
use crate::json::{
    as_flag, as_list, as_text, as_unsigned, at, flag_of, from_flag, from_list, from_signed,
    from_text, from_unsigned, json, json_list, json_opt, list_of, make_object1, make_object2,
    make_object3, member, member_of, null, object, object1, object2, object3, owned_text, parse,
    parsed, text_else, text_of, text_or, unsigned_of, with_member, Json,
};
use crate::message::{files_view, images_view, FileAttachment, ImageAttachment, IncomingMessage, MessageModel};
use crate::platform::{
    buttons_view, commands_view, AnyCtx, AnyHandle, BotCommand, Button, Capabilities, Platform,
    PlatformCapabilities, PreviewHandle, ReplyCtx, ReplyTarget, TargetModel,
};
use crate::rest::{cat3, cat5, make_post, post, requests_view, Method, Request, RequestModel};
use crate::routing::{allow_list, law_answers_are_unambiguous, on_list, parse_allow_list};
use crate::text::{
    alphanumeric, chars_of, clone_opt, decimal, decimal_of, find_char, first_of, holds_text,
    is_alphanumeric, law_nothing_to_replace, lemma_first_of, lemma_first_of_bounds, lemma_occurs_in,
    lemma_texts_push, list_opt, lowercased, occurs, occurs_at, prefix, replace, replaced, same,
    skip, starts_with, str_opt, take, text_opt, texts, to_lower, trim, trimmed,
};
use crate::turn::{permission_buttons, PermissionDecision};
use serde_json::Value;
use vstd::prelude::*;
use vstd::string::*;

verus! {

// ---------------------------------------------------------------------------
// Contexts
// ---------------------------------------------------------------------------

/// Routing context for a channel or a thread message.
#[derive(Debug)]
pub struct DiscordReplyCtx {
    pub channel_id: String,
    pub message_id: Option<String>,
    pub thread_id: Option<String>,
}

impl View for DiscordReplyCtx {
    type V = (Seq<char>, Option<Seq<char>>, Option<Seq<char>>);

    open spec fn view(&self) -> (Seq<char>, Option<Seq<char>>, Option<Seq<char>>) {
        (self.channel_id@, text_opt(self.message_id), text_opt(self.thread_id))
    }
}

/// The channel that replies go to: the thread, where there is one.
pub open spec fn channel_of(c: (Seq<char>, Option<Seq<char>>, Option<Seq<char>>)) -> Seq<char> {
    match c.2 {
        Some(thread) => thread,
        None => c.0,
    }
}

/// The channel that a context leads to.
pub open spec fn channel_in(ctx: TargetModel) -> Option<Seq<char>> {
    match ctx {
        TargetModel::Discord(c) => Some(channel_of(c)),
        TargetModel::Interaction(c) => Some(c.2),
        _ => None,
    }
}

impl DiscordReplyCtx {
    fn channel(&self) -> (r: &str)
        ensures
            r@ == channel_of(self@),
    {
        match &self.thread_id {
            Some(t) => t.as_str(),
            None => self.channel_id.as_str(),
        }
    }
}

impl ReplyCtx for DiscordReplyCtx {
    open spec fn key_hint(&self) -> Seq<char> {
        "discord:"@ + channel_of(self@)
    }

    open spec fn target(&self) -> ReplyTarget {
        ReplyTarget::Discord(*self)
    }

    fn as_any(&self) -> (r: AnyCtx<'_>) {
        AnyCtx::Discord(self)
    }

    fn session_key_hint(&self) -> (r: String) {
        let mut r: String = "discord:".to_owned();
        r.append(self.channel());
        r
    }

    fn clone_box(&self) -> (r: Box<ReplyTarget>) {
        let copy: DiscordReplyCtx = DiscordReplyCtx {
            channel_id: self.channel_id.clone(),
            message_id: clone_opt(&self.message_id),
            thread_id: clone_opt(&self.thread_id),
        };
        Box::new(ReplyTarget::Discord(copy))
    }
}

/// Routing context for a slash command or a button click.
#[derive(Debug)]
pub struct InteractionReplyCtx {
    pub interaction_id: String,
    pub interaction_token: String,
    pub channel_id: String,
    pub first_response_sent: bool,
}

impl View for InteractionReplyCtx {
    type V = (Seq<char>, Seq<char>, Seq<char>, bool);

    open spec fn view(&self) -> (Seq<char>, Seq<char>, Seq<char>, bool) {
        (
            self.interaction_id@,
            self.interaction_token@,
            self.channel_id@,
            self.first_response_sent,
        )
    }
}

impl ReplyCtx for InteractionReplyCtx {
    open spec fn key_hint(&self) -> Seq<char> {
        "discord:"@ + self.channel_id@
    }

    open spec fn target(&self) -> ReplyTarget {
        ReplyTarget::Interaction(*self)
    }

    fn as_any(&self) -> (r: AnyCtx<'_>) {
        AnyCtx::Interaction(self)
    }

    fn session_key_hint(&self) -> (r: String) {
        let mut r: String = "discord:".to_owned();
        r.append(self.channel_id.as_str());
        r
    }

    fn clone_box(&self) -> (r: Box<ReplyTarget>) {
        let copy: InteractionReplyCtx = InteractionReplyCtx {
            interaction_id: self.interaction_id.clone(),
            interaction_token: self.interaction_token.clone(),
            channel_id: self.channel_id.clone(),
            first_response_sent: self.first_response_sent,
        };
        Box::new(ReplyTarget::Interaction(copy))
    }
}

/// Handle of a sent message that can be edited or deleted in place.
#[derive(Debug)]
pub struct DiscordPreviewHandle {
    pub channel_id: String,
    pub message_id: String,
}

impl PreviewHandle for DiscordPreviewHandle {
    open spec fn handle(&self) -> AnyHandle<'_> {
        AnyHandle::Discord(self)
    }

    fn as_any(&self) -> (r: AnyHandle<'_>) {
        AnyHandle::Discord(self)
    }
}

// ---------------------------------------------------------------------------
// The platform
// ---------------------------------------------------------------------------

/// The base of the REST interface.
pub const DISCORD_API_BASE: &'static str = "https://discord.com/api/v10";

/// What the bot wants to hear of: guilds, guild messages and their contents.
pub const GATEWAY_INTENTS: u64 = 33281;

/// Options of a Discord platform.
#[derive(Debug)]
pub struct DiscordOptions {
    pub token: String,
    pub allow_from: Option<String>,
    /// The guild whose menu of commands is changed at once, and whose messages
    /// need no mention.
    pub guild_id: Option<String>,
    /// Respond to every message in a guild, without a mention.
    pub group_reply_all: bool,
    /// Give each thread a session of its own.
    pub thread_isolation: bool,
}

/// From where a broken connection can be resumed.
#[derive(Debug)]
pub struct ResumeState {
    pub session_id: String,
    pub resume_gateway_url: String,
}

impl View for ResumeState {
    type V = (Seq<char>, Seq<char>);

    open spec fn view(&self) -> (Seq<char>, Seq<char>) {
        (self.session_id@, self.resume_gateway_url@)
    }
}

/// The contents of a resume state that may be missing.
pub open spec fn resume_opt(s: Option<ResumeState>) -> Option<(Seq<char>, Seq<char>)> {
    match s {
        Some(r) => Some(r@),
        None => None,
    }
}

pub struct DiscordPlatform {
    token: String,
    allow_from: Option<Vec<String>>,
    guild_id: Option<String>,
    thread_isolation: bool,
    group_reply_all: bool,
    /// Who the bot is, once the gateway told.
    bot_user_id: Option<String>,
    resume_state: Option<ResumeState>,
    /// The last sequence number of the gateway; -1 for none.
    last_sequence: i64,
    /// The interactions that got their first response.
    answered: Vec<String>,
}

/// What a [`DiscordPlatform`] holds.
#[verifier::ext_equal]
pub struct DiscordModel {
    pub token: Seq<char>,
    pub allow_from: Option<Seq<Seq<char>>>,
    pub guild_id: Option<Seq<char>>,
    pub thread_isolation: bool,
    pub group_reply_all: bool,
    pub bot_user_id: Option<Seq<char>>,
    pub resume_state: Option<(Seq<char>, Seq<char>)>,
    pub last_sequence: int,
    pub answered: Seq<Seq<char>>,
}

impl View for DiscordPlatform {
    type V = DiscordModel;

    closed spec fn view(&self) -> DiscordModel {
        DiscordModel {
            token: self.token@,
            allow_from: list_opt(self.allow_from),
            guild_id: text_opt(self.guild_id),
            thread_isolation: self.thread_isolation,
            group_reply_all: self.group_reply_all,
            bot_user_id: text_opt(self.bot_user_id),
            resume_state: resume_opt(self.resume_state),
            last_sequence: self.last_sequence as int,
            answered: texts(self.answered@),
        }
    }
}

impl DiscordPlatform {
    pub fn new(opts: DiscordOptions) -> (r: Self)
        ensures
            r@ == (DiscordModel {
                token: opts.token@,
                allow_from: allow_list(text_opt(opts.allow_from)),
                guild_id: text_opt(opts.guild_id),
                thread_isolation: opts.thread_isolation,
                group_reply_all: opts.group_reply_all,
                bot_user_id: None,
                resume_state: None,
                last_sequence: -1,
                answered: Seq::empty(),
            }),
    {
        let allow_from: Option<Vec<String>> = parse_allow_list(&opts.allow_from);
        let r: DiscordPlatform = Self {
            token: opts.token,
            allow_from,
            guild_id: opts.guild_id,
            thread_isolation: opts.thread_isolation,
            group_reply_all: opts.group_reply_all,
            bot_user_id: None,
            resume_state: None,
            last_sequence: -1,
            answered: Vec::new(),
        };
        assert(texts(r.answered@) =~= Seq::empty());
        r
    }

    /// The header that requests are authorised by.
    pub fn authorization(&self) -> (r: String)
        ensures
            r@ == "Bot "@ + self@.token,
    {
        let mut r: String = "Bot ".to_owned();
        r.append(self.token.as_str());
        r
    }

    /// The bot's user id, once the gateway told it.
    pub fn bot_user_id(&self) -> (r: Option<String>)
        ensures
            text_opt(r) == self@.bot_user_id,
    {
        clone_opt(&self.bot_user_id)
    }

    /// The channel that replies to a context go to.
    pub fn resolve_channel_id<C: ReplyCtx>(ctx: &C) -> (r: Result<String, String>)
        ensures
            match channel_in(ctx.target()@) {
                Some(channel) => r matches Ok(id) && id@ == channel,
                None => r matches Err(e) && e@ == "discord: unsupported ReplyCtx type"@,
            },
    {
        match ctx.as_any() {
            AnyCtx::Discord(c) => Ok(c.channel().to_owned()),
            AnyCtx::Interaction(c) => Ok(c.channel_id.clone()),
            _ => Err("discord: unsupported ReplyCtx type".to_owned()),
        }
    }
}

impl Platform for DiscordPlatform {
    open spec fn platform_name(&self) -> Seq<char> {
        "discord"@
    }

    open spec fn markdown(&self) -> bool {
        false
    }

    fn name(&self) -> (r: &str) {
        "discord"
    }

    fn renders_markdown(&self) -> (r: bool) {
        false
    }
}

impl PlatformCapabilities for DiscordPlatform {
    open spec fn can(&self) -> Capabilities {
        Capabilities {
            message_updater: true,
            image_sender: true,
            file_sender: false,
            inline_button_sender: true,
            typing_indicator: true,
        }
    }

    fn as_message_updater(&self) -> (r: bool) {
        true
    }

    fn as_image_sender(&self) -> (r: bool) {
        true
    }

    fn as_file_sender(&self) -> (r: bool) {
        false
    }

    fn as_inline_button_sender(&self) -> (r: bool) {
        true
    }

    fn as_typing_indicator(&self) -> (r: bool) {
        true
    }
}

// ---------------------------------------------------------------------------
// Texts
// ---------------------------------------------------------------------------

/// Whether a text starts with a mention: `<@..>` or `<#..>`, up to the first
/// `>`.
pub open spec fn opens_mention(s: Seq<char>) -> bool {
    s.len() > 1 && s[0] == '<' && (s[1] == '@' || s[1] == '#') && first_of(s, '>') < s.len()
}

/// A text without its mentions, wherever they stand.
pub open spec fn stripped(s: Seq<char>) -> Seq<char>
    decreases s.len(),
    via stripped_decreases
{
    if s.len() == 0 {
        Seq::empty()
    } else if opens_mention(s) {
        stripped(s.skip(first_of(s, '>') + 1))
    } else {
        seq![s[0]] + stripped(s.skip(1))
    }
}

#[via_fn]
proof fn stripped_decreases(s: Seq<char>) {
    lemma_first_of_bounds(s, '>');
}

/// A text without mentions of users, roles and channels.
pub fn strip_mentions(text: &str) -> (r: String)
    ensures
        r@ == stripped(text@),
{
    let v: Vec<char> = chars_of(text);
    let mut r: String = String::new();
    let mut i: usize = 0;
    proof {
        assert(text@.skip(0) =~= text@);
        assert(r@ + stripped(text@) =~= stripped(text@));
    }
    while i < v.len()
        invariant
            i <= v.len(),
            v@ == text@,
            stripped(text@) == r@ + stripped(text@.skip(i as int)),
        decreases v.len() - i,
    {
        let ghost rest = text@.skip(i as int);
        assert(rest[0] == v[i as int]);
        if v.len() - i > 1 && v[i] == '<' && (v[i + 1] == '@' || v[i + 1] == '#') {
            assert(rest[1] == v[i + 1]);
            let end: usize = find_char(skip(text, i), '>');
            proof {
                lemma_first_of_bounds(rest, '>');
            }
            if end < v.len() - i {
                assert(rest.skip(end + 1) =~= text@.skip(i + end + 1));
                i = i + end + 1;
                continue ;
            }
        }
        proof {
            if rest.len() > 1 {
                assert(rest[1] == v[i + 1]);
            }
            assert(!opens_mention(rest));
            assert(rest.skip(1) =~= text@.skip(i + 1));
            let more = stripped(text@.skip(i + 1));
            assert(r@ + (seq![rest[0]] + more) =~= r@.push(v[i as int]) + more);
        }
        r.push(v[i]);
        i += 1;
    }
    proof {
        assert(text@.skip(i as int) =~= Seq::<char>::empty());
        assert(r@ + Seq::<char>::empty() =~= r@);
    }
    r
}

/// Whether a character is a control character.
pub open spec fn is_control(c: char) -> bool {
    c <= '\u{1f}' || '\u{7f}' <= c <= '\u{9f}'
}

/// A text without control characters.
pub open spec fn printable(s: Seq<char>) -> Seq<char> {
    s.filter(|c: char| !is_control(c))
}

fn without_controls(s: &str) -> (r: String)
    ensures
        r@ == printable(s@),
{
    let v: Vec<char> = chars_of(s);
    let ghost pred = |c: char| !is_control(c);
    let mut r: String = String::new();
    let mut i: usize = 0;
    proof {
        reveal(Seq::filter);
        assert(v@.take(0) =~= Seq::<char>::empty());
    }
    while i < v.len()
        invariant
            i <= v.len(),
            v@ == s@,
            pred == (|c: char| !is_control(c)),
            r@ == v@.take(i as int).filter(pred),
        decreases v.len() - i,
    {
        proof {
            reveal(Seq::filter);
            assert(v@.take(i + 1).drop_last() =~= v@.take(i as int));
            assert(v@.take(i + 1).last() == v[i as int]);
        }
        let c: char = v[i];
        if !(c <= '\u{1f}' || ('\u{7f}' <= c && c <= '\u{9f}')) {
            r.push(c);
        }
        i += 1;
    }
    assert(v@.take(i as int) =~= v@);
    r
}

/// The name of the thread for a message.
pub open spec fn thread_title(content: Seq<char>) -> Seq<char> {
    let t = trimmed(printable(stripped(content)));
    if t.len() == 0 {
        "session"@
    } else {
        prefix(t, 90)
    }
}

/// The name of the thread for a message.
pub fn thread_name(content: &str) -> (r: String)
    ensures
        r@ == thread_title(content@),
{
    let cleaned: String = strip_mentions(content);
    let plain: String = without_controls(cleaned.as_str());
    let t: &str = trim(plain.as_str());
    if t.is_empty() {
        "session".to_owned()
    } else {
        take(t, 90).to_owned()
    }
}

/// A message in chunks of at most `max_len` characters, cut behind line feeds
/// where it can be.
pub fn chunk_message<'a>(text: &'a str, max_len: usize) -> (r: Vec<&'a str>)
    ensures
        strs(r@) == chunks(text@, max_len as int),
{
    chunked(text, max_len)
}

/// The longest message in characters.
pub const MAX_MESSAGE: usize = 2000;

// ---------------------------------------------------------------------------
// Requests
// ---------------------------------------------------------------------------

/// The path of a channel's messages.
pub open spec fn messages_path(channel: Seq<char>) -> Seq<char> {
    "/channels/"@ + channel + "/messages"@
}

/// The path of a message.
pub open spec fn message_path(channel: Seq<char>, message: Seq<char>) -> Seq<char> {
    "/channels/"@ + channel + "/messages/"@ + message
}

/// The path that shows in a channel that the bot is typing.
pub open spec fn typing_at(channel: Seq<char>) -> Seq<char> {
    "/channels/"@ + channel + "/typing"@
}

/// The request that answers a click, which only the one who clicked sees;
/// nothing where its id does not name the interaction and its token.
pub open spec fn click_answer(callback_id: Seq<char>, text: Seq<char>) -> Option<RequestModel> {
    let n = first_of(callback_id, ':');
    if n < callback_id.len() {
        Some(
            post(
                "/interactions/"@ + callback_id.take(n) + "/"@ + callback_id.skip(n + 1)
                    + "/callback"@,
                object2(
                    "type"@,
                    Json::Number(4),
                    "data"@,
                    object2("content"@, Json::Text(text), "flags"@, Json::Number(64)),
                ),
            ),
        )
    } else {
        None
    }
}

/// A plain message.
pub open spec fn content_json(content: Seq<char>) -> Json {
    object1("content"@, Json::Text(content))
}

fn content_value(content: &str) -> (r: Value)
    ensures
        json(r) == content_json(content@),
{
    make_object1("content", from_text(content))
}

/// The requests that send a text to a channel: one for each chunk.
pub open spec fn channel_messages(channel: Seq<char>, parts: Seq<Seq<char>>) -> Seq<RequestModel> {
    parts.map_values(|p: Seq<char>| post(messages_path(channel), content_json(p)))
}

fn send_chunks(channel: &str, content: &str) -> (r: Vec<Request>)
    ensures
        requests_view(r@) == channel_messages(
            channel@,
            chunks(content@, MAX_MESSAGE as int),
        ),
{
    let parts: Vec<&str> = chunk_message(content, MAX_MESSAGE);
    let ghost all = chunks(content@, MAX_MESSAGE as int);
    let ghost want = channel_messages(channel@, all);
    let mut r: Vec<Request> = Vec::new();
    let mut i: usize = 0;
    proof {
        assert(strs(parts@).len() == parts.len());
        assert(requests_view(r@) =~= want.take(0));
    }
    while i < parts.len()
        invariant
            i <= parts.len(),
            strs(parts@) == all,
            all.len() == parts.len(),
            want == channel_messages(channel@, all),
            requests_view(r@) == want.take(i as int),
        decreases parts.len() - i,
    {
        let q: Request = make_post(
            cat3("/channels/", channel, "/messages"),
            content_value(parts[i]),
        );
        proof {
            assert(all[i as int] == strs(parts@)[i as int]);
            assert(requests_view(r@.push(q)) =~= requests_view(r@).push(q@));
            assert(want.take(i as int).push(q@) =~= want.take(i + 1));
        }
        r.push(q);
        i += 1;
    }
    assert(want.take(i as int) =~= want);
    r
}

/// The requests that a reply takes, and which interactions are answered
/// afterwards. The first reply to an interaction takes the place of the
/// deferred one, further ones follow it.
pub open spec fn reply_requests(m: DiscordModel, ctx: TargetModel, content: Seq<char>) -> Option<
    Seq<RequestModel>,
> {
    let app = match m.bot_user_id {
        Some(id) => id,
        None => Seq::empty(),
    };
    match ctx {
        TargetModel::Interaction(c) => Some(
            if !c.3 && !m.answered.contains(c.1) {
                Seq::empty().push(
                    RequestModel {
                        method: Method::Patch,
                        path: "/webhooks/"@ + app + "/"@ + c.1 + "/messages/@original"@,
                        body: Some(content_json(content)),
                    },
                )
            } else {
                Seq::empty().push(
                    post("/webhooks/"@ + app + "/"@ + c.1, content_json(content)),
                )
            },
        ),
        TargetModel::Discord(c) => Some(
            channel_messages(channel_of(c), chunks(content, MAX_MESSAGE as int)),
        ),
        _ => None,
    }
}

/// The state after a reply.
pub open spec fn replied(m: DiscordModel, ctx: TargetModel) -> DiscordModel {
    match ctx {
        TargetModel::Interaction(c) => if !c.3 && !m.answered.contains(c.1) {
            DiscordModel { answered: m.answered.push(c.1), ..m }
        } else {
            m
        },
        _ => m,
    }
}

/// A button of a message.
pub open spec fn button_json(i: int, b: (Seq<char>, Seq<char>)) -> Json {
    Json::Object(
        Map::empty().insert("type"@, Json::Number(2)).insert("style"@, Json::Number(1)).insert(
            "label"@,
            Json::Text(b.0),
        ).insert(
            "custom_id"@,
            Json::Text(
                if b.1.len() == 0 {
                    "btn_"@ + decimal(i as nat)
                } else {
                    b.1
                },
            ),
        ),
    )
}

/// A message with a row of buttons.
pub open spec fn buttons_json(text: Seq<char>, buttons: Seq<(Seq<char>, Seq<char>)>) -> Json {
    object2(
        "content"@,
        Json::Text(text),
        "components"@,
        Json::List(
            seq![
                object2(
                    "type"@,
                    Json::Number(1),
                    "components"@,
                    Json::List(Seq::new(buttons.len(), |i: int| button_json(i, buttons[i]))),
                ),
            ],
        ),
    )
}

fn buttons_value(text: &str, buttons: &Vec<Button>) -> (r: Value)
    ensures
        json(r) == buttons_json(text@, buttons_view(buttons@)),
{
    let ghost b = buttons_view(buttons@);
    let ghost want = Seq::new(b.len(), |i: int| button_json(i, b[i]));
    let mut row: Vec<Value> = Vec::new();
    let mut i: usize = 0;
    assert(json_list(row@) =~= want.take(0));
    while i < buttons.len()
        invariant
            i <= buttons.len(),
            b == buttons_view(buttons@),
            want == Seq::new(b.len(), |i: int| button_json(i, b[i])),
            json_list(row@) == want.take(i as int),
        decreases buttons.len() - i,
    {
        let id: String = if buttons[i].callback_data.as_str().is_empty() {
            let mut id: String = "btn_".to_owned();
            let index: String = decimal_of(i as u64);
            id.append(index.as_str());
            id
        } else {
            buttons[i].callback_data.clone()
        };
        let typed: Value = with_member(object(), "type", from_unsigned(2));
        let styled: Value = with_member(typed, "style", from_unsigned(1));
        let labelled: Value = with_member(styled, "label", from_text(buttons[i].text.as_str()));
        let v: Value = with_member(labelled, "custom_id", from_text(id.as_str()));
        proof {
            assert(b[i as int] == buttons[i as int]@);
            assert(json(v) == want[i as int]);
            assert(json_list(row@.push(v)) =~= json_list(row@).push(json(v)));
            assert(want.take(i as int).push(json(v)) =~= want.take(i + 1));
        }
        row.push(v);
        i += 1;
    }
    assert(want.take(i as int) =~= want);
    let mut rows: Vec<Value> = Vec::new();
    let action_row: Value = make_object2("type", from_unsigned(1), "components", from_list(row));
    rows.push(action_row);
    assert(json_list(rows@) =~= seq![json(action_row)]);
    make_object2("content", from_text(text), "components", from_list(rows))
}

/// A message that quotes another one, without a ping for its author.
pub open spec fn quoting_json(content: Seq<char>, message: Seq<char>) -> Json {
    object3(
        "content"@,
        Json::Text(content),
        "message_reference"@,
        object1("message_id"@, Json::Text(message)),
        "allowed_mentions"@,
        object1("replied_user"@, Json::Bool(false)),
    )
}

impl DiscordPlatform {
    /// Forgets that an interaction was answered, once its token is of no more
    /// use.
    pub fn forget_interaction(&mut self, token: &str)
        ensures
            final(self)@ == (DiscordModel {
                answered: old(self)@.answered.filter(|t: Seq<char>| t != token@),
                ..old(self)@
            }),
    {
        let ghost all = texts(self.answered@);
        let ghost other = |t: Seq<char>| t != token@;
        let mut kept: Vec<String> = Vec::new();
        let mut i: usize = 0;
        proof {
            reveal(Seq::filter);
            assert(all.take(0) =~= Seq::empty());
            assert(texts(kept@) =~= all.take(0).filter(other));
        }
        while i < self.answered.len()
            invariant
                i <= self.answered.len(),
                *self == *old(self),
                all == texts(self.answered@),
                other == (|t: Seq<char>| t != token@),
                texts(kept@) == all.take(i as int).filter(other),
            decreases self.answered.len() - i,
        {
            let t: String = self.answered[i].clone();
            proof {
                reveal(Seq::filter);
                assert(all.take(i + 1).drop_last() =~= all.take(i as int));
                assert(all.take(i + 1).last() == t@);
                lemma_texts_push(kept@, t);
            }
            if !same(t.as_str(), token) {
                kept.push(t);
            }
            i += 1;
        }
        assert(all.take(i as int) =~= all);
        self.answered = kept;
    }

    /// The requests that a reply takes, in order; an error where the context is
    /// another platform's.
    pub fn reply(&mut self, ctx: &ReplyTarget, content: &str) -> (r: Result<Vec<Request>, String>)
        ensures
            final(self)@ == replied(old(self)@, ctx@),
            match reply_requests(old(self)@, ctx@, content@) {
                Some(want) => r matches Ok(q) && requests_view(q@) == want,
                None => r matches Err(e) && e@ == "discord: unsupported ReplyCtx type"@,
            },
    {
        match ctx {
            ReplyTarget::Interaction(c) => {
                let app: String = match &self.bot_user_id {
                    Some(id) => id.clone(),
                    None => String::new(),
                };
                let token: &str = c.interaction_token.as_str();
                let mut path: String = cat3("/webhooks/", app.as_str(), "/");
                path.append(token);
                let first: bool = !c.first_response_sent && !holds_text(&self.answered, token);
                let q: Request = if first {
                    path.append("/messages/@original");
                    Request {
                        method: Method::Patch,
                        path,
                        body: Some(content_value(content)),
                    }
                } else {
                    make_post(path, content_value(content))
                };
                if first {
                    let t: String = token.to_owned();
                    proof {
                        lemma_texts_push(self.answered@, t);
                    }
                    self.answered.push(t);
                }
                let mut r: Vec<Request> = Vec::new();
                r.push(q);
                assert(requests_view(r@) =~= Seq::empty().push(q@));
                Ok(r)
            },
            ReplyTarget::Discord(c) => Ok(send_chunks(c.channel(), content)),
            _ => Err("discord: unsupported ReplyCtx type".to_owned()),
        }
    }

    /// What a reply that quotes the message takes: a request to try first, where
    /// there is something to quote, and the requests in its place where there
    /// is nothing or where that fails.
    pub fn reply_quoted(&mut self, ctx: &ReplyTarget, content: &str) -> (r: Result<
        (Option<Request>, Vec<Request>),
        String,
    >)
        ensures
            final(self)@ == replied(old(self)@, ctx@),
            match ctx@ {
                TargetModel::Discord(c) => {
                    &&& r matches Ok(q)
                    &&& (q.0 is Some <==> c.1 is Some)
                    &&& c.1 is Some ==> q.0->0@ == post(
                        messages_path(channel_of(c)),
                        quoting_json(content@, c.1->0),
                    )
                    &&& requests_view(q.1@) == Seq::empty().push(
                        post(messages_path(channel_of(c)), content_json(content@)),
                    )
                },
                TargetModel::Interaction(_) => r matches Ok(q) && q.0 is None && Some(
                    requests_view(q.1@),
                ) == reply_requests(old(self)@, ctx@, content@),
                _ => r matches Err(e) && e@ == "discord: unsupported ReplyCtx type"@,
            },
    {
        match ctx {
            ReplyTarget::Discord(c) => {
                let quoted: Option<Request> = Self::quoted_message(c, content);
                let plain: Request = Self::plain_message(c.channel(), content);
                let mut rest: Vec<Request> = Vec::new();
                rest.push(plain);
                assert(requests_view(rest@) =~= Seq::empty().push(plain@));
                Ok((quoted, rest))
            },
            _ => match self.reply(ctx, content) {
                Ok(q) => Ok((None, q)),
                Err(e) => Err(e),
            },
        }
    }

    /// The request that quotes the message of a context, where there is one.
    fn quoted_message(ctx: &DiscordReplyCtx, content: &str) -> (r: Option<Request>)
        ensures
            match (ctx@).1 {
                Some(mid) => r matches Some(q) && q@ == post(
                    messages_path(channel_of(ctx@)),
                    quoting_json(content@, mid),
                ),
                None => r is None,
            },
    {
        match &ctx.message_id {
            Some(mid) => {
                let body: Value = make_object3(
                    "content",
                    from_text(content),
                    "message_reference",
                    make_object1("message_id", from_text(mid.as_str())),
                    "allowed_mentions",
                    make_object1("replied_user", from_flag(false)),
                );
                Some(make_post(cat3("/channels/", ctx.channel(), "/messages"), body))
            },
            None => None,
        }
    }

    /// The request that sends a text in one message, for a preview among
    /// others.
    pub fn plain_message(channel: &str, content: &str) -> (r: Request)
        ensures
            r@ == post(messages_path(channel@), content_json(content@)),
    {
        make_post(cat3("/channels/", channel, "/messages"), content_value(content))
    }

    /// The handle of a message, by the response to its request.
    pub fn sent_handle(channel: String, response: &Value, what: &str) -> (r: Result<
        DiscordPreviewHandle,
        String,
    >)
        ensures
            match as_text(member(json(*response), "id"@)) {
                Some(id) => r matches Ok(h) && h.channel_id@ == channel@ && h.message_id@ == id,
                None => r matches Err(e) && e@ == "discord: no message id in "@ + what@
                    + " response"@,
            },
    {
        match text_of(at(Some(response), "id")) {
            Some(id) => Ok(
                DiscordPreviewHandle { channel_id: channel, message_id: id.to_owned() },
            ),
            None => Err(cat3("discord: no message id in ", what, " response")),
        }
    }

    /// The request that puts another text into a message.
    pub fn update_message(handle: &DiscordPreviewHandle, content: &str) -> (r: Request)
        ensures
            r@ == (RequestModel {
                method: Method::Patch,
                path: message_path(handle.channel_id@, handle.message_id@),
                body: Some(content_json(content@)),
            }),
    {
        let mut path: String = cat3("/channels/", handle.channel_id.as_str(), "/messages/");
        path.append(handle.message_id.as_str());
        Request { method: Method::Patch, path, body: Some(content_value(content)) }
    }

    /// The request that deletes a message.
    pub fn delete_message(handle: &DiscordPreviewHandle) -> (r: Request)
        ensures
            r@ == (RequestModel {
                method: Method::Delete,
                path: message_path(handle.channel_id@, handle.message_id@),
                body: None,
            }),
    {
        let mut path: String = cat3("/channels/", handle.channel_id.as_str(), "/messages/");
        path.append(handle.message_id.as_str());
        Request { method: Method::Delete, path, body: None }
    }

    /// The request that sends a message with buttons.
    pub fn message_with_buttons(channel: &str, text: &str, buttons: &Vec<Button>) -> (r: Request)
        ensures
            r@ == post(
                messages_path(channel@),
                buttons_json(text@, buttons_view(buttons@)),
            ),
    {
        make_post(cat3("/channels/", channel, "/messages"), buttons_value(text, buttons))
    }

    /// The request that answers a button click; its id is that of the
    /// interaction, a colon and the interaction's token.
    pub fn callback_answer(callback_id: &str, text: &str) -> (r: Result<Request, String>)
        ensures
            match click_answer(callback_id@, text@) {
                Some(want) => r matches Ok(q) && q@ == want,
                None => r matches Err(e) && e@
                    == "discord: invalid callback_id format, expected 'id:token'"@,
            },
    {
        let n: usize = find_char(callback_id, ':');
        if n == callback_id.unicode_len() {
            return Err("discord: invalid callback_id format, expected 'id:token'".to_owned());
        }
        let id: &str = callback_id.substring_char(0, n);
        let token: &str = skip(callback_id, n + 1);
        assert(id@ =~= callback_id@.take(n as int));
        let body: Value = make_object2(
            "type",
            from_unsigned(4),
            "data",
            make_object2("content", from_text(text), "flags", from_unsigned(64)),
        );
        Ok(make_post(cat5("/interactions/", id, "/", token, "/callback"), body))
    }

    /// The path that shows that the bot is typing.
    pub fn typing_path(channel: &str) -> (r: String)
        ensures
            r@ == typing_at(channel@),
    {
        cat3("/channels/", channel, "/typing")
    }
}

/// What a response of the REST interface comes to.
pub fn api_result(success: bool, status: &str, text: &str) -> (r: Result<Value, String>)
    ensures
        !success ==> (r matches Err(e) && e@ == "Discord API error "@ + status@ + ": "@ + text@),
        success && text@.len() == 0 ==> (r matches Ok(v) && json(v) == Json::Null),
        success && text@.len() > 0 ==> match parsed(text@) {
            Some(j) => r matches Ok(v) && json(v) == j,
            None => r matches Err(e) && e@ == "Failed to parse Discord API response"@,
        },
{
    if !success {
        let mut e: String = cat3("Discord API error ", status, ": ");
        e.append(text);
        return Err(e);
    }
    if text.is_empty() {
        return Ok(null());
    }
    match parse(text) {
        Some(v) => Ok(v),
        None => Err("Failed to parse Discord API response".to_owned()),
    }
}

// ---------------------------------------------------------------------------
// The menu of commands
// ---------------------------------------------------------------------------

/// A character as it stands in the name of a command.
pub open spec fn slash_char(c: char) -> char {
    if c == ':' || c == '_' {
        '-'
    } else {
        c
    }
}

/// A lowercase name as Discord takes it: letters, digits and hyphens, at most
/// 32 of them.
pub open spec fn slash_form(lower: Seq<char>) -> Seq<char> {
    prefix(
        lower.map_values(|c: char| slash_char(c)).filter(|c: char| alphanumeric(c) || c == '-'),
        32,
    )
}

/// The name of a command as Discord takes it.
pub open spec fn slash_name(name: Seq<char>) -> Seq<char> {
    slash_form(lowercased(name))
}

/// The name of a command as Discord takes it.
pub fn slash_command_name(name: &str) -> (r: String)
    ensures
        r@ == slash_name(name@),
{
    let lower: String = to_lower(name);
    fit_for_slash(lower.as_str())
}

/// A lowercase name as Discord takes it.
pub fn fit_for_slash(lower: &str) -> (r: String)
    ensures
        r@ == slash_form(lower@),
{
    let v: Vec<char> = chars_of(lower);
    let ghost mapped = v@.map_values(|c: char| slash_char(c));
    let ghost pred = |c: char| alphanumeric(c) || c == '-';
    let mut r: String = String::new();
    let mut i: usize = 0;
    proof {
        reveal(Seq::filter);
        assert(mapped.take(0) =~= Seq::<char>::empty());
    }
    while i < v.len()
        invariant
            i <= v.len(),
            mapped == v@.map_values(|c: char| slash_char(c)),
            pred == (|c: char| alphanumeric(c) || c == '-'),
            r@ == mapped.take(i as int).filter(pred),
        decreases v.len() - i,
    {
        proof {
            reveal(Seq::filter);
            assert(mapped.take(i + 1).drop_last() =~= mapped.take(i as int));
            assert(mapped.take(i + 1).last() == slash_char(v[i as int]));
        }
        let c: char = if v[i] == ':' || v[i] == '_' {
            '-'
        } else {
            v[i]
        };
        if is_alphanumeric(c) || c == '-' {
            r.push(c);
        }
        i += 1;
    }
    assert(mapped.take(i as int) =~= mapped);
    take(r.as_str(), 32).to_owned()
}

/// How often it is looked for who the bot is before the menu is given up.
pub const MENU_CHECKS: u32 = 30;

/// The request that registers the menu: for one guild, or for all.
pub open spec fn menu_request_for(
    m: DiscordModel,
    app_id: Seq<char>,
    commands: Seq<(Seq<char>, Seq<char>)>,
) -> RequestModel {
    RequestModel {
        method: Method::Put,
        path: "/applications/"@ + app_id + (match m.guild_id {
            Some(g) => "/guilds/"@ + g + "/commands"@,
            None => "/commands"@,
        }),
        body: Some(Json::List(slash_menu(commands))),
    }
}

/// A command of the menu, with one argument that may be left out.
pub open spec fn slash_json(name: Seq<char>, description: Seq<char>) -> Json {
    let d = prefix(description, 100);
    object3(
        "name"@,
        Json::Text(name),
        "description"@,
        Json::Text(
            if d.len() == 0 {
                "Command"@
            } else {
                d
            },
        ),
        "options"@,
        Json::List(
            seq![
                Json::Object(
                    Map::empty().insert("name"@, Json::Text("args"@)).insert(
                        "type"@,
                        Json::Number(3),
                    ).insert("description"@, Json::Text("optional arguments"@)).insert(
                        "required"@,
                        Json::Bool(false),
                    ),
                ),
            ],
        ),
    )
}

fn slash_value(name: &str, description: &str) -> (r: Value)
    ensures
        json(r) == slash_json(name@, description@),
{
    let d: &str = take(description, 100);
    let d: &str = if d.is_empty() {
        "Command"
    } else {
        d
    };
    let named: Value = with_member(object(), "name", from_text("args"));
    let typed: Value = with_member(named, "type", from_unsigned(3));
    let described: Value = with_member(typed, "description", from_text("optional arguments"));
    let option: Value = with_member(described, "required", from_flag(false));
    let mut options: Vec<Value> = Vec::new();
    options.push(option);
    assert(json_list(options@) =~= seq![json(option)]);
    make_object3(
        "name",
        from_text(name),
        "description",
        from_text(d),
        "options",
        from_list(options),
    )
}

/// The menu for a list of commands; those without a usable name are left out.
pub open spec fn slash_menu(commands: Seq<(Seq<char>, Seq<char>)>) -> Seq<Json>
    decreases commands.len(),
{
    if commands.len() == 0 {
        Seq::empty()
    } else {
        let c = commands.last();
        let name = slash_name(c.0);
        if name.len() == 0 {
            slash_menu(commands.drop_last())
        } else {
            slash_menu(commands.drop_last()).push(slash_json(name, c.1))
        }
    }
}

impl DiscordPlatform {
    /// The request that registers the menu once it is known who the bot is. Gives
    /// nothing where that is to be looked for again, and an error where it was
    /// looked for too often: `checks` counts this time too.
    pub fn menu_request(&self, commands: &Vec<BotCommand>, checks: u32) -> (r: Result<
        Option<Request>,
        String,
    >)
        ensures
            match self@.bot_user_id {
                Some(app_id) => r matches Ok(Some(q)) && q@ == menu_request_for(
                    self@,
                    app_id,
                    commands_view(commands@),
                ),
                None => if checks > MENU_CHECKS {
                    r matches Err(e) && e@
                        == "discord: timed out waiting for READY to register commands"@
                } else {
                    r matches Ok(None)
                },
            },
    {
        match &self.bot_user_id {
            Some(app_id) => Ok(Some(self.register_commands(app_id.as_str(), commands))),
            None => if checks > MENU_CHECKS {
                Err("discord: timed out waiting for READY to register commands".to_owned())
            } else {
                Ok(None)
            },
        }
    }

    /// The request that sets the menu of commands of the application: that of
    /// the guild, where one is set up.
    pub fn register_commands(&self, app_id: &str, commands: &Vec<BotCommand>) -> (r: Request)
        ensures
            r@ == menu_request_for(self@, app_id@, commands_view(commands@)),
    {
        let ghost all = commands_view(commands@);
        let mut menu: Vec<Value> = Vec::new();
        let mut i: usize = 0;
        proof {
            assert(all.take(0) =~= Seq::empty());
            assert(json_list(menu@) =~= Seq::empty());
        }
        while i < commands.len()
            invariant
                i <= commands.len(),
                all == commands_view(commands@),
                json_list(menu@) == slash_menu(all.take(i as int)),
            decreases commands.len() - i,
        {
            let name: String = slash_command_name(commands[i].name.as_str());
            proof {
                assert(all.take(i + 1).drop_last() =~= all.take(i as int));
                assert(all.take(i + 1).last() == commands[i as int]@);
            }
            if !name.as_str().is_empty() {
                let v: Value = slash_value(name.as_str(), commands[i].description.as_str());
                assert(json_list(menu@.push(v)) =~= json_list(menu@).push(json(v)));
                menu.push(v);
            }
            i += 1;
        }
        assert(all.take(i as int) =~= all);
        let mut path: String = "/applications/".to_owned();
        path.append(app_id);
        let tail: String = match &self.guild_id {
            Some(g) => cat3("/guilds/", g.as_str(), "/commands"),
            None => "/commands".to_owned(),
        };
        path.append(tail.as_str());
        Request { method: Method::Put, path, body: Some(from_list(menu)) }
    }
}

// ---------------------------------------------------------------------------
// Messages
// ---------------------------------------------------------------------------

/// Whether a message in a guild is meant for the bot: it mentions it, or comes
/// from the guild that was set up.
pub open spec fn addressed(
    data: Json,
    bot: Option<Seq<char>>,
    config_guild: Option<Seq<char>>,
) -> bool {
    ||| bot is Some && as_list(member(data, "mentions"@)) is Some && exists|i: int|
        0 <= i < as_list(member(data, "mentions"@))->0.len() && as_text(
            member(#[trigger] as_list(member(data, "mentions"@))->0[i], "id"@),
        ) == bot
    ||| config_guild is Some && as_text(member(data, "guild_id"@)) == config_guild
}

/// A text without mentions of the bot.
pub open spec fn without_bot(content: Seq<char>, bot: Option<Seq<char>>) -> Seq<char> {
    match bot {
        Some(id) => trimmed(
            replaced(
                replaced(content, "<@"@ + id + ">"@, Seq::empty()),
                "<@!"@ + id + ">"@,
                Seq::empty(),
            ),
        ),
        None => content,
    }
}

/// The message that a payload of the gateway brings; nothing where it is not
/// for the bot.
pub open spec fn message_in(
    data: Json,
    allow_from: Option<Seq<Seq<char>>>,
    bot: Option<Seq<char>>,
    config_guild: Option<Seq<char>>,
    reply_all: bool,
) -> Option<MessageModel> {
    let author = member(data, "author"@);
    let from = as_text(member_of(author, "id"@));
    let id = as_text(member(data, "id"@));
    let channel = as_text(member(data, "channel_id"@));
    let in_guild = as_text(member(data, "guild_id"@)) is Some;
    let content = text_else(member(data, "content"@), ""@);
    let text = without_bot(content, bot);
    if as_flag(member_of(author, "bot"@)) == Some(true) || from is None || id is None || !on_list(
        allow_from,
        from->0,
    ) || channel is None || (in_guild && !reply_all && !addressed(data, bot, config_guild))
        || content.len() == 0 || text.len() == 0 {
        None
    } else {
        Some(
            MessageModel {
                id: id->0,
                from: from->0,
                from_name: as_text(member_of(author, "username"@)),
                text,
                images: Seq::empty(),
                files: Seq::empty(),
                voice: None,
                is_group: in_guild,
                channel_id: channel,
                channel_name: as_text(member_of(member(data, "thread"@), "name"@)),
                reply_ctx: TargetModel::Discord((channel->0, id, None)),
            },
        )
    }
}

fn is_addressed(data: &Value, bot: Option<&str>, config_guild: Option<&str>) -> (r: bool)
    ensures
        r == addressed(json(*data), str_opt(bot), str_opt(config_guild)),
{
    if let Some(gid) = text_of(at(Some(data), "guild_id")) {
        if let Some(cfg) = config_guild {
            if same(gid, cfg) {
                return true;
            }
        }
    }
    let bot_id: &str = match bot {
        Some(b) => b,
        None => {
            return false;
        },
    };
    let mentions: &Vec<Value> = match list_of(at(Some(data), "mentions")) {
        Some(m) => m,
        None => {
            return false;
        },
    };
    let ghost all = json_list(mentions@);
    let mut i: usize = 0;
    while i < mentions.len()
        invariant
            i <= mentions.len(),
            all == json_list(mentions@),
            all.len() == mentions.len(),
            as_list(member(json(*data), "mentions"@)) == Some(all),
            str_opt(bot) == Some(bot_id@),
            forall|k: int|
                0 <= k < i ==> as_text(member(#[trigger] all[k], "id"@)) != Some(bot_id@),
        decreases mentions.len() - i,
    {
        assert(all[i as int] == json(mentions[i as int]));
        if let Some(id) = text_of(at(Some(&mentions[i]), "id")) {
            if same(id, bot_id) {
                assert(as_text(member(all[i as int], "id"@)) == Some(bot_id@));
                return true;
            }
        }
        i += 1;
    }
    false
}

fn clean_content(content: &str, bot: Option<&str>) -> (r: String)
    ensures
        r@ == without_bot(content@, str_opt(bot)),
{
    match bot {
        Some(id) => {
            let mention: String = cat3("<@", id, ">");
            let nickname: String = cat3("<@!", id, ">");
            proof {
                reveal_strlit("<@");
                reveal_strlit("<@!");
                reveal_strlit("");
                assert(""@ =~= Seq::<char>::empty());
            }
            let once: String = replace(content, mention.as_str(), "");
            let twice: String = replace(once.as_str(), nickname.as_str(), "");
            trim(twice.as_str()).to_owned()
        },
        None => content.to_owned(),
    }
}

/// The message that a `MESSAGE_CREATE` payload brings; nothing where it is
/// from a bot, from someone who is not let in, or not meant for the bot.
pub fn parse_message_create(
    data: &Value,
    allow_from: &Option<Vec<String>>,
    bot_user_id: Option<&str>,
    config_guild_id: Option<&str>,
    group_reply_all: bool,
) -> (r: Option<IncomingMessage>)
    ensures
        match r {
            Some(m) => message_in(
                json(*data),
                list_opt(*allow_from),
                str_opt(bot_user_id),
                str_opt(config_guild_id),
                group_reply_all,
            ) == Some(m@),
            None => message_in(
                json(*data),
                list_opt(*allow_from),
                str_opt(bot_user_id),
                str_opt(config_guild_id),
                group_reply_all,
            ) is None,
        },
{
    let author: Option<&Value> = at(Some(data), "author");
    if let Some(is_bot) = flag_of(at(author, "bot")) {
        if is_bot {
            return None;
        }
    }
    let author_id: &str = match text_of(at(author, "id")) {
        Some(id) => id,
        None => {
            return None;
        },
    };
    let message_id: &str = match text_of(at(Some(data), "id")) {
        Some(id) => id,
        None => {
            return None;
        },
    };
    if let Some(allowed) = allow_from {
        if !holds_text(allowed, author_id) {
            return None;
        }
    }
    let content: String = text_or(at(Some(data), "content"), "");
    let channel_id: &str = match text_of(at(Some(data), "channel_id")) {
        Some(id) => id,
        None => {
            return None;
        },
    };
    let in_guild: bool = text_of(at(Some(data), "guild_id")).is_some();
    if in_guild && !group_reply_all && !is_addressed(data, bot_user_id, config_guild_id) {
        return None;
    }
    if content.as_str().is_empty() {
        return None;
    }
    let text: String = clean_content(content.as_str(), bot_user_id);
    if text.as_str().is_empty() {
        return None;
    }
    let images: Vec<ImageAttachment> = Vec::new();
    let files: Vec<FileAttachment> = Vec::new();
    assert(images_view(images@) =~= Seq::empty());
    assert(files_view(files@) =~= Seq::empty());
    Some(
        IncomingMessage {
            id: message_id.to_owned(),
            from: author_id.to_owned(),
            from_name: owned_text(at(author, "username")),
            text,
            images,
            files,
            voice: None,
            is_group: in_guild,
            channel_id: Some(channel_id.to_owned()),
            channel_name: owned_text(at(at(Some(data), "thread"), "name")),
            reply_ctx: ReplyTarget::Discord(
                DiscordReplyCtx {
                    channel_id: channel_id.to_owned(),
                    message_id: Some(message_id.to_owned()),
                    thread_id: None,
                },
            ),
        },
    )
}

/// The request for a thread on a message; nothing for a direct message.
pub open spec fn thread_request_for(data: Json) -> Option<RequestModel> {
    let channel = text_else(member(data, "channel_id"@), ""@);
    let id = text_else(member(data, "id"@), ""@);
    if as_text(member(data, "guild_id"@)) is None || channel.len() == 0 || id.len() == 0 {
        None
    } else {
        Some(
            post(
                "/channels/"@ + channel + "/messages/"@ + id + "/threads"@,
                object2(
                    "name"@,
                    Json::Text(thread_title(text_else(member(data, "content"@), ""@))),
                    "auto_archive_duration"@,
                    Json::Number(1440),
                ),
            ),
        )
    }
}

/// The contents of a request that may be missing.
pub open spec fn request_opt(q: Option<Request>) -> Option<RequestModel> {
    match q {
        Some(r) => Some(r@),
        None => None,
    }
}

/// The request for a thread on a message.
pub fn thread_request(data: &Value) -> (r: Option<Request>)
    ensures
        request_opt(r) == thread_request_for(json(*data)),
{
    if text_of(at(Some(data), "guild_id")).is_none() {
        return None;
    }
    let channel: String = text_or(at(Some(data), "channel_id"), "");
    let id: String = text_or(at(Some(data), "id"), "");
    if channel.as_str().is_empty() || id.as_str().is_empty() {
        return None;
    }
    let content: String = text_or(at(Some(data), "content"), "");
    let name: String = thread_name(content.as_str());
    let body: Value = make_object2(
        "name",
        from_text(name.as_str()),
        "auto_archive_duration",
        from_unsigned(1440),
    );
    Some(make_post(cat5("/channels/", channel.as_str(), "/messages/", id.as_str(), "/threads"), body))
}

/// A message moved to the thread that was made for it; where there is no
/// thread, it stays where it was.
pub open spec fn threaded(m: MessageModel, thread: Json) -> MessageModel {
    match as_text(member(thread, "id"@)) {
        Some(id) => MessageModel {
            reply_ctx: TargetModel::Discord((id, Some(m.id), Some(id))),
            channel_id: Some(id),
            channel_name: as_text(member(thread, "name"@)),
            ..m
        },
        None => m,
    }
}

/// Moves a message to the thread that was made for it.
pub fn move_to_thread(msg: IncomingMessage, thread: &Value) -> (r: IncomingMessage)
    ensures
        r@ == threaded(msg@, json(*thread)),
{
    match text_of(at(Some(thread), "id")) {
        Some(id) => {
            let mut m: IncomingMessage = msg;
            m.reply_ctx = ReplyTarget::Discord(
                DiscordReplyCtx {
                    channel_id: id.to_owned(),
                    message_id: Some(m.id.clone()),
                    thread_id: Some(id.to_owned()),
                },
            );
            m.channel_id = Some(id.to_owned());
            m.channel_name = owned_text(at(Some(thread), "name"));
            m
        },
        None => msg,
    }
}

// ---------------------------------------------------------------------------
// Interactions
// ---------------------------------------------------------------------------

/// What a button click says; nothing for a button that is not known.
pub open spec fn click_text(custom_id: Seq<char>) -> Option<Seq<char>> {
    if "perm_approve"@.is_prefix_of(custom_id) {
        Some("allow"@)
    } else if "perm_allow_all"@.is_prefix_of(custom_id) {
        Some("allow all"@)
    } else if "perm_deny"@.is_prefix_of(custom_id) {
        Some("deny"@)
    } else if "perm_text:"@.is_prefix_of(custom_id) {
        let rest = custom_id.skip(10);
        Some(
            if rest == "allow_all"@ {
                "allow all"@
            } else {
                rest
            },
        )
    } else if "perm_opt:"@.is_prefix_of(custom_id) {
        Some("allow"@)
    } else {
        None
    }
}

/// What a button click says.
pub fn text_of_click(custom_id: &str) -> (r: Option<String>)
    ensures
        text_opt(r) == click_text(custom_id@),
{
    if starts_with(custom_id, "perm_approve") {
        Some("allow".to_owned())
    } else if starts_with(custom_id, "perm_allow_all") {
        Some("allow all".to_owned())
    } else if starts_with(custom_id, "perm_deny") {
        Some("deny".to_owned())
    } else if starts_with(custom_id, "perm_text:") {
        proof {
            reveal_strlit("perm_text:");
        }
        let rest: &str = skip(custom_id, 10);
        if same(rest, "allow_all") {
            Some("allow all".to_owned())
        } else {
            Some(rest.to_owned())
        }
    } else if starts_with(custom_id, "perm_opt:") {
        Some("allow".to_owned())
    } else {
        None
    }
}

/// `start`, and behind it the texts among the values of a command's options.
pub open spec fn with_options(start: Seq<char>, options: Seq<Json>) -> Seq<char>
    decreases options.len(),
{
    if options.len() == 0 {
        start
    } else {
        let before = with_options(start, options.drop_last());
        match as_text(member(options.last(), "value"@)) {
            Some(v) => before + " "@ + v,
            None => before,
        }
    }
}

/// The text of a slash command.
pub open spec fn command_text(name: Seq<char>, options: Option<Seq<Json>>) -> Seq<char> {
    match options {
        Some(o) => with_options("/"@ + name, o),
        None => "/"@ + name,
    }
}

fn text_of_command(name: &str, options: Option<&Vec<Value>>) -> (r: String)
    ensures
        r@ == command_text(
            name@,
            match options {
                Some(o) => Some(json_list(o@)),
                None => None,
            },
        ),
{
    let mut r: String = "/".to_owned();
    r.append(name);
    if let Some(options) = options {
        let ghost start = r@;
        let ghost all = json_list(options@);
        let mut i: usize = 0;
        assert(all.take(0) =~= Seq::empty());
        while i < options.len()
            invariant
                i <= options.len(),
                all == json_list(options@),
                r@ == with_options(start, all.take(i as int)),
            decreases options.len() - i,
        {
            proof {
                assert(all.take(i + 1).drop_last() =~= all.take(i as int));
                assert(all.take(i + 1).last() == json(options[i as int]));
            }
            if let Some(v) = text_of(at(Some(&options[i]), "value")) {
                r.append(" ");
                r.append(v);
            }
            i += 1;
        }
        assert(all.take(i as int) =~= all);
    }
    r
}

/// What an interaction comes to: how it is acknowledged, and the message that
/// it stands for.
pub struct InteractionModel {
    pub ack: Option<RequestModel>,
    pub message: Option<MessageModel>,
}

/// What an interaction comes to.
pub struct Interaction {
    pub ack: Option<Request>,
    pub message: Option<IncomingMessage>,
}

impl View for Interaction {
    type V = InteractionModel;

    open spec fn view(&self) -> InteractionModel {
        InteractionModel {
            ack: request_opt(self.ack),
            message: match self.message {
                Some(m) => Some(m@),
                None => None,
            },
        }
    }
}

/// The acknowledgement of an interaction.
pub open spec fn ack_request(id: Seq<char>, token: Seq<char>, kind: int) -> RequestModel {
    post(
        "/interactions/"@ + id + "/"@ + token + "/callback"@,
        object1("type"@, Json::Number(kind)),
    )
}

/// The message that an interaction stands for.
pub open spec fn interaction_message(
    id: Seq<char>,
    token: Seq<char>,
    channel: Seq<char>,
    from: Seq<char>,
    text: Seq<char>,
) -> MessageModel {
    MessageModel {
        id,
        from,
        from_name: None,
        text,
        images: Seq::empty(),
        files: Seq::empty(),
        voice: None,
        is_group: true,
        channel_id: Some(channel),
        channel_name: None,
        reply_ctx: TargetModel::Interaction((id, token, channel, false)),
    }
}

/// Who an interaction comes from: a member of a guild, or a user.
pub open spec fn interaction_author(data: Json) -> Option<Seq<char>> {
    let user = as_text(member_of(member_of(member(data, "member"@), "user"@), "id"@));
    if user is Some {
        user
    } else {
        as_text(member_of(member(data, "user"@), "id"@))
    }
}

/// What an interaction comes to: a slash command or a button click, else
/// nothing. A button that is not known is acknowledged all the same.
pub open spec fn interaction_in(data: Json) -> InteractionModel {
    let none = InteractionModel { ack: None, message: None };
    let kind = as_unsigned(member(data, "type"@));
    let id = as_text(member(data, "id"@));
    let token = as_text(member(data, "token"@));
    let channel = as_text(member(data, "channel_id"@));
    let from = interaction_author(data);
    let cmd = member(data, "data"@);
    if (kind != Some(2u64) && kind != Some(3u64)) || id is None || token is None || channel is None
        || from is None || cmd is None {
        none
    } else if kind == Some(3u64) {
        match as_text(member(cmd->0, "custom_id"@)) {
            None => none,
            Some(custom) => InteractionModel {
                ack: Some(ack_request(id->0, token->0, 6)),
                message: match click_text(custom) {
                    Some(text) => Some(
                        interaction_message(id->0, token->0, channel->0, from->0, text),
                    ),
                    None => None,
                },
            },
        }
    } else {
        match as_text(member(cmd->0, "name"@)) {
            None => none,
            Some(name) => InteractionModel {
                ack: Some(ack_request(id->0, token->0, 5)),
                message: Some(
                    interaction_message(
                        id->0,
                        token->0,
                        channel->0,
                        from->0,
                        command_text(name, as_list(member(cmd->0, "options"@))),
                    ),
                ),
            },
        }
    }
}

fn make_interaction_message(id: &str, token: &str, channel: &str, from: &str, text: String) -> (r:
    IncomingMessage)
    ensures
        r@ == interaction_message(id@, token@, channel@, from@, text@),
{
    let images: Vec<ImageAttachment> = Vec::new();
    let files: Vec<FileAttachment> = Vec::new();
    assert(images_view(images@) =~= Seq::empty());
    assert(files_view(files@) =~= Seq::empty());
    IncomingMessage {
        id: id.to_owned(),
        from: from.to_owned(),
        from_name: None,
        text,
        images,
        files,
        voice: None,
        is_group: true,
        channel_id: Some(channel.to_owned()),
        channel_name: None,
        reply_ctx: ReplyTarget::Interaction(
            InteractionReplyCtx {
                interaction_id: id.to_owned(),
                interaction_token: token.to_owned(),
                channel_id: channel.to_owned(),
                first_response_sent: false,
            },
        ),
    }
}

fn acknowledge(id: &str, token: &str, kind: u64) -> (r: Request)
    ensures
        r@ == ack_request(id@, token@, kind as int),
{
    make_post(
        cat5("/interactions/", id, "/", token, "/callback"),
        make_object1("type", from_unsigned(kind)),
    )
}

/// What an `INTERACTION_CREATE` payload comes to.
pub fn parse_interaction(data: &Value) -> (r: Interaction)
    ensures
        r@ == interaction_in(json(*data)),
{
    let kind: Option<u64> = unsigned_of(at(Some(data), "type"));
    let kind: u64 = match kind {
        Some(k) => k,
        None => 0,
    };
    if kind != 2 && kind != 3 {
        return Interaction { ack: None, message: None };
    }
    let user: Option<&Value> = at(at(Some(data), "member"), "user");
    let from: Option<&str> = match text_of(at(user, "id")) {
        Some(id) => Some(id),
        None => text_of(at(at(Some(data), "user"), "id")),
    };
    match (
        text_of(at(Some(data), "id")),
        text_of(at(Some(data), "token")),
        text_of(at(Some(data), "channel_id")),
        from,
        at(Some(data), "data"),
    ) {
        (Some(id), Some(token), Some(channel), Some(from), Some(cmd)) => {
            if kind == 3 {
                match text_of(at(Some(cmd), "custom_id")) {
                    None => Interaction { ack: None, message: None },
                    Some(custom) => Interaction {
                        ack: Some(acknowledge(id, token, 6)),
                        message: match text_of_click(custom) {
                            Some(text) => Some(
                                make_interaction_message(id, token, channel, from, text),
                            ),
                            None => None,
                        },
                    },
                }
            } else {
                match text_of(at(Some(cmd), "name")) {
                    None => Interaction { ack: None, message: None },
                    Some(name) => {
                        let text: String = text_of_command(
                            name,
                            list_of(at(Some(cmd), "options")),
                        );
                        Interaction {
                            ack: Some(acknowledge(id, token, 5)),
                            message: Some(
                                make_interaction_message(id, token, channel, from, text),
                            ),
                        }
                    },
                }
            }
        },
        _ => Interaction { ack: None, message: None },
    }
}

// ---------------------------------------------------------------------------
// The gateway
// ---------------------------------------------------------------------------

/// For how long a message is remembered, in nanoseconds: two minutes.
pub const DEDUP_TTL: u64 = 120_000_000_000;

/// The heartbeat interval where the gateway names none, in milliseconds.
pub const DEFAULT_INTERVAL_MS: u64 = 41250;

/// What is kept for as long as a connection lasts.
pub struct Connection {
    /// The session was opened or resumed.
    reached_ready: bool,
    /// A heartbeat waits for its acknowledgement.
    ack_pending: bool,
    /// The messages of late, with the times at which they came.
    seen: Vec<(String, u64)>,
}

/// What a [`Connection`] holds.
#[verifier::ext_equal]
pub struct ConnectionModel {
    pub reached_ready: bool,
    pub ack_pending: bool,
    pub seen: Seq<(Seq<char>, u64)>,
}

/// The contents of the messages of late.
pub open spec fn seen_view(v: Seq<(String, u64)>) -> Seq<(Seq<char>, u64)> {
    v.map_values(|e: (String, u64)| (e.0@, e.1))
}

impl View for Connection {
    type V = ConnectionModel;

    closed spec fn view(&self) -> ConnectionModel {
        ConnectionModel {
            reached_ready: self.reached_ready,
            ack_pending: self.ack_pending,
            seen: seen_view(self.seen@),
        }
    }
}

/// Whether a message came lately.
pub open spec fn came_before(seen: Seq<(Seq<char>, u64)>, id: Seq<char>) -> bool {
    exists|i: int| 0 <= i < seen.len() && (#[trigger] seen[i]).0 == id
}

/// Whether a message came too long ago to be remembered.
pub open spec fn forgotten(at: u64, now: u64) -> bool {
    at + DEDUP_TTL < now
}

/// The messages to remember once another one came.
pub open spec fn noted(seen: Seq<(Seq<char>, u64)>, id: Seq<char>, now: u64) -> Seq<
    (Seq<char>, u64),
> {
    seen.push((id, now)).filter(|e: (Seq<char>, u64)| !forgotten(e.1, now))
}

impl Connection {
    /// A connection that was just made.
    pub fn new() -> (r: Connection)
        ensures
            r@ == (ConnectionModel {
                reached_ready: false,
                ack_pending: false,
                seen: Seq::empty(),
            }),
    {
        let r: Connection = Connection {
            reached_ready: false,
            ack_pending: false,
            seen: Vec::new(),
        };
        assert(seen_view(r.seen@) =~= Seq::empty());
        r
    }

    /// Whether the session was opened or resumed on this connection.
    pub fn reached_ready(&self) -> (r: bool)
        ensures
            r == self@.reached_ready,
    {
        self.reached_ready
    }

    fn came(&self, id: &str) -> (r: bool)
        ensures
            r == came_before(self@.seen, id@),
    {
        let ghost all = self@.seen;
        let mut i: usize = 0;
        while i < self.seen.len()
            invariant
                i <= self.seen.len(),
                all == self@.seen,
                forall|k: int| 0 <= k < i ==> (#[trigger] all[k]).0 != id@,
            decreases self.seen.len() - i,
        {
            assert(all[i as int].0 == self.seen[i as int].0@);
            if same(self.seen[i].0.as_str(), id) {
                return true;
            }
            i += 1;
        }
        false
    }

    fn note(self, id: &str, now: u64) -> (r: Connection)
        ensures
            r@ == (ConnectionModel { seen: noted(self@.seen, id@, now), ..self@ }),
    {
        let mut all: Vec<(String, u64)> = self.seen;
        let ghost before = seen_view(all@);
        let ghost pred = |e: (Seq<char>, u64)| !forgotten(e.1, now);
        all.push((id.to_owned(), now));
        let ghost v = before.push((id@, now));
        assert(seen_view(all@) =~= v);
        let mut kept: Vec<(String, u64)> = Vec::new();
        let mut i: usize = 0;
        proof {
            reveal(Seq::filter);
            assert(v.take(0) =~= Seq::empty());
            assert(seen_view(kept@) =~= v.take(0).filter(pred));
        }
        while i < all.len()
            invariant
                i <= all.len(),
                v == seen_view(all@),
                pred == (|e: (Seq<char>, u64)| !forgotten(e.1, now)),
                seen_view(kept@) == v.take(i as int).filter(pred),
            decreases all.len() - i,
        {
            let at: u64 = all[i].1;
            proof {
                reveal(Seq::filter);
                assert(v.take(i + 1).drop_last() =~= v.take(i as int));
                assert(v.take(i + 1).last() == (all[i as int].0@, at));
            }
            if !(now > at && now - at > DEDUP_TTL) {
                let e: (String, u64) = (all[i].0.clone(), at);
                assert(seen_view(kept@.push(e)) =~= seen_view(kept@).push((e.0@, e.1)));
                kept.push(e);
            }
            i += 1;
        }
        assert(v.take(i as int) =~= v);
        Connection {
            reached_ready: self.reached_ready,
            ack_pending: self.ack_pending,
            seen: kept,
        }
    }
}

/// What a payload of the gateway asks for.
pub enum Effect {
    Nothing,
    /// The connection is to be given up.
    Close,
    /// A payload to send.
    Send(Value),
    /// A greeting to answer, and the interval of heartbeats in milliseconds.
    Greet(Value, u64),
    /// A message for the engine, and the request for a thread for it.
    Deliver(IncomingMessage, Option<Request>),
    Interact(Interaction),
}

/// What an [`Effect`] holds.
pub enum EffectModel {
    Nothing,
    Close,
    Send(Json),
    Greet(Json, u64),
    Deliver(MessageModel, Option<RequestModel>),
    Interact(InteractionModel),
}

impl View for Effect {
    type V = EffectModel;

    open spec fn view(&self) -> EffectModel {
        match *self {
            Effect::Nothing => EffectModel::Nothing,
            Effect::Close => EffectModel::Close,
            Effect::Send(v) => EffectModel::Send(json(v)),
            Effect::Greet(v, n) => EffectModel::Greet(json(v), n),
            Effect::Deliver(m, q) => EffectModel::Deliver(m@, request_opt(q)),
            Effect::Interact(i) => EffectModel::Interact(i@),
        }
    }
}

/// The state of the gateway: what outlives the connection, and what does not.
pub struct GatewayModel {
    pub platform: DiscordModel,
    pub connection: ConnectionModel,
}

/// A heartbeat: it carries the last sequence number, where there is one.
pub open spec fn heartbeat_json(sequence: int) -> Json {
    object2(
        "op"@,
        Json::Number(1),
        "d"@,
        if sequence >= 0 {
            Json::Number(sequence)
        } else {
            Json::Null
        },
    )
}

/// The answer to the gateway's greeting: the session is resumed where it can
/// be, else a new one is opened.
pub open spec fn greeting_json(m: DiscordModel) -> Json {
    match m.resume_state {
        Some(r) => object2(
            "op"@,
            Json::Number(6),
            "d"@,
            object3(
                "token"@,
                Json::Text(m.token),
                "session_id"@,
                Json::Text(r.0),
                "seq"@,
                Json::Number(m.last_sequence),
            ),
        ),
        None => object2(
            "op"@,
            Json::Number(2),
            "d"@,
            object3(
                "token"@,
                Json::Text(m.token),
                "intents"@,
                Json::Number(GATEWAY_INTENTS as int),
                "properties"@,
                object3(
                    "os"@,
                    Json::Text("linux"@),
                    "browser"@,
                    Json::Text("agentbridge"@),
                    "device"@,
                    Json::Text("agentbridge"@),
                ),
            ),
        ),
    }
}

/// A sequence number in the range of 64 bits with a sign.
pub open spec fn as_sequence(n: u64) -> int {
    if n <= i64::MAX {
        n as int
    } else {
        n - 0x1_0000_0000_0000_0000
    }
}

/// The state with the sequence number of a payload.
pub open spec fn sequenced(m: DiscordModel, payload: Json) -> DiscordModel {
    match as_unsigned(member(payload, "s"@)) {
        Some(n) => DiscordModel { last_sequence: as_sequence(n), ..m },
        None => m,
    }
}

/// The session is open: who the bot is, and from where it can be resumed.
pub open spec fn on_ready(g: GatewayModel, data: Option<Json>) -> GatewayModel {
    let bot = as_text(member_of(member_of(data, "user"@), "id"@));
    let sid = as_text(member_of(data, "session_id"@));
    let url = as_text(member_of(data, "resume_gateway_url"@));
    GatewayModel {
        platform: DiscordModel {
            bot_user_id: if bot is Some {
                bot
            } else {
                g.platform.bot_user_id
            },
            resume_state: if sid is Some && url is Some {
                Some((sid->0, url->0))
            } else {
                g.platform.resume_state
            },
            ..g.platform
        },
        connection: ConnectionModel { reached_ready: true, ..g.connection },
    }
}

/// A message came: one that came before is dropped.
pub open spec fn on_message(g: GatewayModel, data: Json, now: u64) -> (GatewayModel, EffectModel) {
    let id = as_text(member(data, "id"@));
    if id is Some && came_before(g.connection.seen, id->0) {
        (g, EffectModel::Nothing)
    } else {
        let after = if id is Some {
            GatewayModel {
                connection: ConnectionModel {
                    seen: noted(g.connection.seen, id->0, now),
                    ..g.connection
                },
                ..g
            }
        } else {
            g
        };
        let p = g.platform;
        (
            after,
            match message_in(data, p.allow_from, p.bot_user_id, p.guild_id, p.group_reply_all) {
                Some(m) => EffectModel::Deliver(
                    m,
                    if p.thread_isolation {
                        thread_request_for(data)
                    } else {
                        None
                    },
                ),
                None => EffectModel::Nothing,
            },
        )
    }
}

/// Something that has to do with the session.
pub open spec fn on_dispatch(g: GatewayModel, payload: Json, now: u64) -> (
    GatewayModel,
    EffectModel,
) {
    let name = text_else(member(payload, "t"@), ""@);
    let data = member(payload, "d"@);
    if name == "READY"@ {
        (on_ready(g, data), EffectModel::Nothing)
    } else if name == "RESUMED"@ {
        (
            GatewayModel {
                connection: ConnectionModel { reached_ready: true, ..g.connection },
                ..g
            },
            EffectModel::Nothing,
        )
    } else if name == "MESSAGE_CREATE"@ && data is Some {
        on_message(g, data->0, now)
    } else if name == "INTERACTION_CREATE"@ && data is Some {
        (g, EffectModel::Interact(interaction_in(data->0)))
    } else {
        (g, EffectModel::Nothing)
    }
}

/// What a payload does to the state, and what it asks for.
pub open spec fn on_payload(before: GatewayModel, payload: Json, now: u64) -> (
    GatewayModel,
    EffectModel,
) {
    let g = GatewayModel { platform: sequenced(before.platform, payload), ..before };
    let op = match as_unsigned(member(payload, "op"@)) {
        Some(n) => n,
        None => 0,
    };
    if op == 0 {
        on_dispatch(g, payload, now)
    } else if op == 10 {
        let interval = as_unsigned(
            member_of(member(payload, "d"@), "heartbeat_interval"@),
        );
        (
            g,
            EffectModel::Greet(
                greeting_json(g.platform),
                match interval {
                    Some(n) => n,
                    None => DEFAULT_INTERVAL_MS,
                },
            ),
        )
    } else if op == 11 {
        (
            GatewayModel {
                connection: ConnectionModel { ack_pending: false, ..g.connection },
                ..g
            },
            EffectModel::Nothing,
        )
    } else if op == 7 {
        (g, EffectModel::Close)
    } else if op == 9 {
        if as_flag(member(payload, "d"@)) == Some(true) {
            (g, EffectModel::Close)
        } else {
            (
                GatewayModel {
                    platform: DiscordModel { resume_state: None, last_sequence: -1, ..g.platform },
                    ..g
                },
                EffectModel::Close,
            )
        }
    } else if op == 1 {
        (g, EffectModel::Send(heartbeat_json(g.platform.last_sequence)))
    } else {
        (g, EffectModel::Nothing)
    }
}

fn heartbeat(sequence: i64) -> (r: Value)
    ensures
        json(r) == heartbeat_json(sequence as int),
{
    let d: Value = if sequence >= 0 {
        from_signed(sequence)
    } else {
        null()
    };
    make_object2("op", from_unsigned(1), "d", d)
}

/// What a heartbeat that is due does to a connection, and whether it is dead.
pub open spec fn next_beat(c: ConnectionModel) -> (ConnectionModel, bool) {
    if c.ack_pending {
        (c, true)
    } else {
        (ConnectionModel { ack_pending: true, ..c }, false)
    }
}

/// The pause before a heartbeat: half the interval before the first one.
pub open spec fn pause_before_beat(interval_ms: u64, first: bool) -> u64 {
    if first {
        interval_ms / 2
    } else {
        interval_ms
    }
}

/// How long to wait for a heartbeat, in milliseconds: the first one comes after
/// half the interval.
pub fn beat_wait(interval_ms: u64, first: bool) -> (r: u64)
    ensures
        r == pause_before_beat(interval_ms, first),
{
    if first {
        interval_ms / 2
    } else {
        interval_ms
    }
}

/// What a heartbeat that is due comes to.
pub enum Beat {
    /// The one before was never acknowledged: the connection is dead.
    Dead,
    Send(Value),
}

impl DiscordPlatform {
    fn greeting(&self) -> (r: Value)
        ensures
            json(r) == greeting_json(self@),
    {
        match &self.resume_state {
            Some(state) => {
                let d: Value = make_object3(
                    "token",
                    from_text(self.token.as_str()),
                    "session_id",
                    from_text(state.session_id.as_str()),
                    "seq",
                    from_signed(self.last_sequence),
                );
                make_object2("op", from_unsigned(6), "d", d)
            },
            None => {
                let properties: Value = make_object3(
                    "os",
                    from_text("linux"),
                    "browser",
                    from_text("agentbridge"),
                    "device",
                    from_text("agentbridge"),
                );
                let d: Value = make_object3(
                    "token",
                    from_text(self.token.as_str()),
                    "intents",
                    from_unsigned(GATEWAY_INTENTS),
                    "properties",
                    properties,
                );
                make_object2("op", from_unsigned(2), "d", d)
            },
        }
    }

    fn ready(self, connection: Connection, data: Option<&Value>) -> (r: (
        DiscordPlatform,
        Connection,
    ))
        ensures
            ({
                let g = on_ready(
                    GatewayModel { platform: self@, connection: connection@ },
                    json_opt(data),
                );
                &&& r.0@ == g.platform
                &&& r.1@ == g.connection
            }),
    {
        let mut p: DiscordPlatform = self;
        let mut c: Connection = connection;
        c.reached_ready = true;
        if let Some(id) = text_of(at(at(data, "user"), "id")) {
            p.bot_user_id = Some(id.to_owned());
        }
        let sid: Option<&str> = text_of(at(data, "session_id"));
        let url: Option<&str> = text_of(at(data, "resume_gateway_url"));
        if let Some(sid) = sid {
            if let Some(url) = url {
                p.resume_state = Some(
                    ResumeState {
                        session_id: sid.to_owned(),
                        resume_gateway_url: url.to_owned(),
                    },
                );
            }
        }
        (p, c)
    }

    fn message(self, connection: Connection, data: &Value, now: u64) -> (r: (
        DiscordPlatform,
        Connection,
        Effect,
    ))
        ensures
            ({
                let (g, e) = on_message(
                    GatewayModel { platform: self@, connection: connection@ },
                    json(*data),
                    now,
                );
                &&& r.0@ == g.platform
                &&& r.1@ == g.connection
                &&& r.2@ == e
            }),
    {
        let mut c: Connection = connection;
        if let Some(id) = text_of(at(Some(data), "id")) {
            if c.came(id) {
                return (self, c, Effect::Nothing);
            }
            c = c.note(id, now);
        }
        let bot: Option<&str> = match &self.bot_user_id {
            Some(id) => Some(id.as_str()),
            None => None,
        };
        let guild: Option<&str> = match &self.guild_id {
            Some(id) => Some(id.as_str()),
            None => None,
        };
        match parse_message_create(data, &self.allow_from, bot, guild, self.group_reply_all) {
            Some(m) => {
                let thread: Option<Request> = if self.thread_isolation {
                    thread_request(data)
                } else {
                    None
                };
                (self, c, Effect::Deliver(m, thread))
            },
            None => (self, c, Effect::Nothing),
        }
    }

    fn dispatched(self, connection: Connection, payload: &Value, now: u64) -> (r: (
        DiscordPlatform,
        Connection,
        Effect,
    ))
        ensures
            ({
                let (g, e) = on_dispatch(
                    GatewayModel { platform: self@, connection: connection@ },
                    json(*payload),
                    now,
                );
                &&& r.0@ == g.platform
                &&& r.1@ == g.connection
                &&& r.2@ == e
            }),
    {
        let name: String = text_or(at(Some(payload), "t"), "");
        let name: &str = name.as_str();
        let data: Option<&Value> = at(Some(payload), "d");
        if same(name, "READY") {
            let (p, c): (DiscordPlatform, Connection) = self.ready(connection, data);
            return (p, c, Effect::Nothing);
        }
        if same(name, "RESUMED") {
            let mut c: Connection = connection;
            c.reached_ready = true;
            return (self, c, Effect::Nothing);
        }
        if let Some(d) = data {
            if same(name, "MESSAGE_CREATE") {
                return self.message(connection, d, now);
            }
            if same(name, "INTERACTION_CREATE") {
                return (self, connection, Effect::Interact(parse_interaction(d)));
            }
        }
        (self, connection, Effect::Nothing)
    }

    /// Takes a payload of the gateway at a time in nanoseconds; gives the state
    /// afterwards and what the payload asks for.
    pub fn on_payload(self, connection: Connection, payload: &Value, now: u64) -> (r: (
        DiscordPlatform,
        Connection,
        Effect,
    ))
        ensures
            ({
                let (g, e) = on_payload(
                    GatewayModel { platform: self@, connection: connection@ },
                    json(*payload),
                    now,
                );
                &&& r.0@ == g.platform
                &&& r.1@ == g.connection
                &&& r.2@ == e
            }),
    {
        let mut p: DiscordPlatform = self;
        let mut c: Connection = connection;
        if let Some(n) = unsigned_of(at(Some(payload), "s")) {
            p.last_sequence = to_sequence(n);
        }
        let op: u64 = match unsigned_of(at(Some(payload), "op")) {
            Some(n) => n,
            None => 0,
        };
        if op == 0 {
            p.dispatched(c, payload, now)
        } else if op == 10 {
            let interval: u64 = match unsigned_of(
                at(at(Some(payload), "d"), "heartbeat_interval"),
            ) {
                Some(n) => n,
                None => DEFAULT_INTERVAL_MS,
            };
            let greeting: Value = p.greeting();
            (p, c, Effect::Greet(greeting, interval))
        } else if op == 11 {
            c.ack_pending = false;
            (p, c, Effect::Nothing)
        } else if op == 7 {
            (p, c, Effect::Close)
        } else if op == 9 {
            let resumable: bool = match flag_of(at(Some(payload), "d")) {
                Some(b) => b,
                None => false,
            };
            if !resumable {
                p.resume_state = None;
                p.last_sequence = -1;
            }
            (p, c, Effect::Close)
        } else if op == 1 {
            let beat: Value = heartbeat(p.last_sequence);
            (p, c, Effect::Send(beat))
        } else {
            (p, c, Effect::Nothing)
        }
    }

    /// Takes a text of the gateway; one that is no JSON is passed over.
    pub fn on_text(self, connection: Connection, text: &str, now: u64) -> (r: (
        DiscordPlatform,
        Connection,
        Effect,
    ))
        ensures
            match parsed(text@) {
                Some(payload) => {
                    let (g, e) = on_payload(
                        GatewayModel { platform: self@, connection: connection@ },
                        payload,
                        now,
                    );
                    &&& r.0@ == g.platform
                    &&& r.1@ == g.connection
                    &&& r.2@ == e
                },
                None => r.0@ == self@ && r.1@ == connection@ && r.2@ == EffectModel::Nothing,
            },
    {
        match parse(text) {
            Some(payload) => self.on_payload(connection, &payload, now),
            None => (self, connection, Effect::Nothing),
        }
    }

    /// A heartbeat is due.
    pub fn beat(&self, connection: Connection) -> (r: (Connection, Beat))
        ensures
            r.0@ == next_beat(connection@).0,
            if next_beat(connection@).1 {
                r.1 is Dead
            } else {
                r.1 matches Beat::Send(v) && json(v) == heartbeat_json(self@.last_sequence)
            },
    {
        if connection.ack_pending {
            return (connection, Beat::Dead);
        }
        let mut c: Connection = connection;
        c.ack_pending = true;
        (c, Beat::Send(heartbeat(self.last_sequence)))
    }

    /// Where to connect to: where the session can be resumed; nothing where a
    /// new one is to be opened.
    pub fn resume_url(&self) -> (r: Option<String>)
        ensures
            text_opt(r) == match self@.resume_state {
                Some(s) => Some(gateway_at(s.1)),
                None => None,
            },
    {
        match &self.resume_state {
            Some(s) => {
                let mut r: String = s.resume_gateway_url.clone();
                r.append("/?v=10&encoding=json");
                Some(r)
            },
            None => None,
        }
    }
}

fn to_sequence(n: u64) -> (r: i64)
    ensures
        r == as_sequence(n),
{
    if n <= 0x7fff_ffff_ffff_ffff {
        n as i64
    } else {
        let below: u64 = 0xffff_ffff_ffff_ffff - n;
        -1 - (below as i64)
    }
}

/// The address of a gateway, with the version and the encoding to speak.
pub open spec fn gateway_at(url: Seq<char>) -> Seq<char> {
    url + "/?v=10&encoding=json"@
}

/// Where to connect to for a new session, by what the REST interface says.
pub fn gateway_url(body: &Value) -> (r: Result<String, String>)
    ensures
        match as_text(member(json(*body), "url"@)) {
            Some(url) => r matches Ok(u) && u@ == gateway_at(url),
            None => r matches Err(e) && e@ == "No gateway URL in response"@,
        },
{
    match text_of(at(Some(body), "url")) {
        Some(url) => {
            let mut r: String = url.to_owned();
            r.append("/?v=10&encoding=json");
            Ok(r)
        },
        None => Err("No gateway URL in response".to_owned()),
    }
}

// ---------------------------------------------------------------------------
// Reconnecting
// ---------------------------------------------------------------------------

/// The longest pause before another attempt, in seconds.
pub const MAX_BACKOFF_SECS: u64 = 30;

/// The pause after the next failure.
pub fn next_backoff(current: u64) -> (r: u64)
    requires
        current <= u64::MAX / 2,
    ensures
        r == doubled(current as int),
{
    if current * 2 < MAX_BACKOFF_SECS {
        current * 2
    } else {
        MAX_BACKOFF_SECS
    }
}

/// A pause in milliseconds that is up to a fifth shorter or longer than the
/// given seconds, by some number of nanoseconds.
pub open spec fn jittered(secs: int, nanos: int) -> int {
    let base = secs * 1000;
    let range = base / 5;
    if range > 0 {
        base + nanos % (range * 2) - range
    } else {
        base
    }
}

/// A pause in milliseconds around the given seconds, so that many bots do not
/// come back at the same time.
pub fn jittered_ms(secs: u64, nanos: u64) -> (r: u64)
    requires
        secs <= 7_000_000_000_000_000,
    ensures
        r == jittered(secs as int, nanos as int),
{
    let base: u64 = secs * 1000;
    let range: u64 = base / 5;
    if range > 0 {
        let offset: u64 = nanos % (range * 2);
        base - range + offset
    } else {
        base
    }
}

/// The pauses between attempts to connect.
#[derive(Debug)]
pub struct Backoff {
    secs: u64,
}

impl View for Backoff {
    type V = int;

    closed spec fn view(&self) -> int {
        self.secs as int
    }
}

/// The pause after a connection ended, where `secs` is due after a failure: one
/// that reached its session starts over.
pub open spec fn pause_after(secs: int, reached_ready: bool) -> int {
    if reached_ready {
        1
    } else {
        secs
    }
}

/// The pause after the next failure.
pub open spec fn doubled(secs: int) -> int {
    if secs * 2 < MAX_BACKOFF_SECS {
        secs * 2
    } else {
        MAX_BACKOFF_SECS as int
    }
}

impl Backoff {
    pub open spec fn well_formed(&self) -> bool {
        1 <= self@ <= MAX_BACKOFF_SECS
    }

    pub fn new() -> (r: Backoff)
        ensures
            r@ == 1,
            r.well_formed(),
    {
        Backoff { secs: 1 }
    }

    /// An attempt failed: the seconds to wait before the next one.
    pub fn failed(&mut self) -> (r: u64)
        requires
            old(self).well_formed(),
        ensures
            final(self).well_formed(),
            r == old(self)@,
            final(self)@ == doubled(old(self)@),
    {
        let r: u64 = self.secs;
        self.secs = next_backoff(r);
        r
    }

    /// A connection ended: the seconds to wait before the next one. Only one
    /// that reached its session starts over with short pauses.
    pub fn disconnected(&mut self, reached_ready: bool) -> (r: u64)
        requires
            old(self).well_formed(),
        ensures
            final(self).well_formed(),
            r == pause_after(old(self)@, reached_ready),
            final(self)@ == doubled(r as int),
    {
        if reached_ready {
            self.secs = 1;
        }
        self.failed()
    }
}

// ---------------------------------------------------------------------------
// Laws
// ---------------------------------------------------------------------------

/// A session that was told of is resumed by the next greeting, with the last
/// sequence number, until the gateway declares it invalid.
pub proof fn law_session_is_resumed(m: DiscordModel, sid: Seq<char>, url: Seq<char>)
    requires
        m.resume_state == Some((sid, url)),
    ensures
        member(greeting_json(m), "op"@) == Some(Json::Number(6)),
        member_of(member(greeting_json(m), "d"@), "session_id"@) == Some(Json::Text(sid)),
        member_of(member(greeting_json(m), "d"@), "seq"@) == Some(
            Json::Number(m.last_sequence),
        ),
{
    reveal_strlit("op");
    reveal_strlit("d");
    reveal_strlit("token");
    reveal_strlit("session_id");
    reveal_strlit("seq");
    assert("op"@.len() != "d"@.len());
    assert("session_id"@.len() != "seq"@.len());
}

/// A payload other than an invalid session never loses what the session can be
/// resumed from.
pub proof fn law_resume_state_lasts(g: GatewayModel, payload: Json, now: u64)
    requires
        g.platform.resume_state is Some,
        as_unsigned(member(payload, "op"@)) != Some(9u64),
    ensures
        on_payload(g, payload, now).0.platform.resume_state is Some,
{
}

/// A session that the gateway declared invalid for good is not resumed: the
/// next greeting opens a new one.
pub proof fn law_invalid_session_starts_over(g: GatewayModel, payload: Json, now: u64)
    requires
        as_unsigned(member(payload, "op"@)) == Some(9u64),
        as_flag(member(payload, "d"@)) != Some(true),
    ensures
        on_payload(g, payload, now).0.platform.resume_state is None,
        on_payload(g, payload, now).0.platform.last_sequence == -1,
        on_payload(g, payload, now).1 == EffectModel::Close,
{
}

/// A message is delivered once: right after it came, the same one is dropped.
pub proof fn law_message_is_delivered_once(g: GatewayModel, data: Json, now: u64)
    requires
        as_text(member(data, "id"@)) is Some,
    ensures
        on_message(on_message(g, data, now).0, data, now).1 == EffectModel::Nothing,
{
    let id = as_text(member(data, "id"@))->0;
    let seen = g.connection.seen;
    if !came_before(seen, id) {
        let v = seen.push((id, now));
        let pred = |e: (Seq<char>, u64)| !forgotten(e.1, now);
        assert(v.drop_last() =~= seen);
        reveal(Seq::filter);
        let kept = v.filter(pred);
        assert(kept == seen.filter(pred).push((id, now)));
        assert(kept[kept.len() - 1].0 == id);
        assert(came_before(noted(seen, id, now), id));
    }
}

/// A heartbeat without an acknowledgement is noticed by the next one; one that
/// is acknowledged in between is not.
pub proof fn law_missed_heartbeat_is_noticed(g: GatewayModel, payload: Json, now: u64)
    requires
        as_unsigned(member(payload, "op"@)) == Some(11u64),
    ensures
        next_beat(next_beat(g.connection).0).1,
        ({
            let sent = GatewayModel { connection: next_beat(g.connection).0, ..g };
            !next_beat(on_payload(sent, payload, now).0.connection).1
        }),
{
}

/// A pause is within a fifth of what was asked for.
pub proof fn law_jitter_is_bounded(secs: int, nanos: int)
    requires
        secs >= 0,
        nanos >= 0,
    ensures
        secs * 1000 - secs * 200 <= jittered(secs, nanos) <= secs * 1000 + secs * 200,
{
    let base = secs * 1000;
    let range = base / 5;
    assert(range == secs * 200);
    if range > 0 {
        assert(0 <= nanos % (range * 2) < range * 2) by (nonlinear_arith)
            requires
                range > 0,
                nanos >= 0,
        ;
    }
}

/// A thread's replies go to the thread, and so does its session.
pub proof fn law_thread_takes_the_conversation(m: MessageModel, thread: Json)
    requires
        as_text(member(thread, "id"@)) is Some,
    ensures
        ({
            let id = as_text(member(thread, "id"@))->0;
            let t = threaded(m, thread);
            &&& t.channel_id == Some(id)
            &&& t.reply_ctx matches TargetModel::Discord(c) && channel_of(c) == id
            &&& t.text == m.text && t.from == m.from && t.id == m.id
        }),
{
}

/// The first reply to an interaction takes the place of the deferred one; the
/// next one follows it.
pub proof fn law_interaction_is_answered_in_place_once(
    m: DiscordModel,
    c: (Seq<char>, Seq<char>, Seq<char>, bool),
    content: Seq<char>,
)
    requires
        !c.3,
        !m.answered.contains(c.1),
    ensures
        reply_requests(m, TargetModel::Interaction(c), content)->0[0].method == Method::Patch,
        reply_requests(
            replied(m, TargetModel::Interaction(c)),
            TargetModel::Interaction(c),
            content,
        )->0[0].method == Method::Post,
{
    let after = replied(m, TargetModel::Interaction(c));
    assert(after.answered[after.answered.len() - 1] == c.1);
}

/// Whether `<@` or `<#` stands nowhere in a text.
pub open spec fn mentions_nothing(s: Seq<char>) -> bool {
    forall|i: int|
        0 <= i < s.len() - 1 && #[trigger] s[i] == '<' ==> s[i + 1] != '@' && s[i + 1] != '#'
}

/// A mention is stripped wherever it stands, whatever the text before it holds
/// that is no mention; that text stays, a stray `<` too.
pub proof fn law_mention_is_stripped(
    before: Seq<char>,
    kind: char,
    inside: Seq<char>,
    after: Seq<char>,
)
    requires
        mentions_nothing(before),
        kind == '@' || kind == '#',
        !inside.contains('>'),
    ensures
        stripped(before + seq!['<', kind] + inside + seq!['>'] + after) == before + stripped(after),
    decreases before.len(),
{
    let mention = seq!['<', kind] + inside + seq!['>'];
    let s = before + seq!['<', kind] + inside + seq!['>'] + after;
    assert(s =~= before + mention + after);
    if before.len() == 0 {
        let n = mention.len() - 1;
        lemma_first_of_bounds(s, '>');
        let k = first_of(s, '>');
        assert(s[n] == '>');
        if k < n {
            if k >= 2 {
                assert(s[k] == inside[k - 2]);
            }
            assert(false);
        }
        assert(s.skip(n + 1) =~= after);
        assert(before + stripped(after) =~= stripped(after));
    } else {
        let t = before.skip(1);
        assert(s[0] == before[0]);
        assert(s[1] == if t.len() > 0 { before[1] } else { '<' });
        assert forall|i: int| 0 <= i < t.len() - 1 && #[trigger] t[i] == '<' implies t[i + 1] != '@'
            && t[i + 1] != '#' by {
            assert(before[i + 1] == '<');
        }
        law_mention_is_stripped(t, kind, inside, after);
        assert(s.skip(1) =~= t + seq!['<', kind] + inside + seq!['>'] + after);
        assert(seq![s[0]] + (t + stripped(after)) =~= before + stripped(after));
    }
}

/// A text that mentions nothing stays as it is.
pub proof fn law_plain_text_is_unchanged(s: Seq<char>)
    requires
        mentions_nothing(s),
    ensures
        stripped(s) == s,
    decreases s.len(),
{
    if s.len() > 0 {
        let t = s.skip(1);
        assert forall|i: int| 0 <= i < t.len() - 1 && #[trigger] t[i] == '<' implies t[i + 1] != '@'
            && t[i + 1] != '#' by {
            assert(s[i + 1] == '<');
        }
        law_plain_text_is_unchanged(t);
        assert(seq![s[0]] + t =~= s);
    } else {
        assert(s =~= Seq::empty());
    }
}

/// Whether a click on a button with this data is read as a decision.
pub open spec fn clicks_as(data: Seq<char>, decision: PermissionDecision) -> bool {
    click_text(data) is Some && decided(click_text(data)->0) == Some(decision)
}

/// A click means what its button says. Of the buttons for a request without
/// options of its own, one each is labelled 👍 放行, 🚫 拦截 and ⚡ 全部放行, and
/// there is no other; a click on them is read as an answer that allows the
/// request, that denies it and that allows everything.
pub proof fn law_click_means_what_its_button_says(request_id: Seq<char>)
    ensures
        ({
            let b = permission_buttons(request_id, Seq::empty());
            &&& b.len() == 3
            &&& exists|i: int| 0 <= i < 3 && (#[trigger] b[i]).0 == "👍 放行"@
            &&& exists|i: int| 0 <= i < 3 && (#[trigger] b[i]).0 == "🚫 拦截"@
            &&& exists|i: int| 0 <= i < 3 && (#[trigger] b[i]).0 == "⚡ 全部放行"@
            &&& forall|i: int|
                0 <= i < 3 && (#[trigger] b[i]).0 == "👍 放行"@ ==> clicks_as(
                    b[i].1,
                    PermissionDecision::Allow,
                )
            &&& forall|i: int|
                0 <= i < 3 && (#[trigger] b[i]).0 == "🚫 拦截"@ ==> clicks_as(
                    b[i].1,
                    PermissionDecision::Deny,
                )
            &&& forall|i: int|
                0 <= i < 3 && (#[trigger] b[i]).0 == "⚡ 全部放行"@ ==> clicks_as(
                    b[i].1,
                    PermissionDecision::AllowAll,
                )
            &&& forall|i: int| 0 <= i < 3 ==> request_id.is_suffix_of((#[trigger] b[i]).1)
        }),
{
    let b = permission_buttons(request_id, Seq::empty());
    reveal_strlit("👍 放行");
    reveal_strlit("🚫 拦截");
    reveal_strlit("⚡ 全部放行");
    assert(b[0].0.len() == 4 && b[1].0.len() == 4 && b[2].0.len() == 6);
    assert("👍 放行"@[0] != "🚫 拦截"@[0]);
    reveal_strlit("perm_approve");
    reveal_strlit("perm_approve:");
    reveal_strlit("perm_allow_all");
    reveal_strlit("perm_allow_all:");
    reveal_strlit("perm_deny");
    reveal_strlit("perm_deny:");
    let approve = "perm_approve:"@ + request_id;
    let deny = "perm_deny:"@ + request_id;
    let all = "perm_allow_all:"@ + request_id;
    assert("perm_approve"@ =~= approve.take(12));
    assert("perm_deny"@ =~= deny.take(9));
    assert("perm_allow_all"@ =~= all.take(14));
    assert(deny[5] == 'd' && all[6] == 'l');
    assert(!"perm_approve"@.is_prefix_of(deny)) by {
        assert("perm_approve"@[5] == 'a');
    }
    assert(!"perm_allow_all"@.is_prefix_of(deny)) by {
        assert("perm_allow_all"@[5] == 'a');
    }
    assert(!"perm_approve"@.is_prefix_of(all)) by {
        assert("perm_approve"@[6] == 'p');
    }
    law_answers_are_unambiguous("allow"@);
    law_answers_are_unambiguous("deny"@);
    law_answers_are_unambiguous("allow all"@);
    assert(request_id =~= approve.skip(13));
    assert(request_id =~= deny.skip(10));
    assert(request_id =~= all.skip(15));
    assert(b[0].1 == approve && b[1].1 == deny && b[2].1 == all);
}

/// The buttons of a request with options of its own are those options, in their
/// order: each has the option's label, and its data names the request and the
/// option. A click on one lets the request go on.
pub proof fn law_options_become_buttons(
    request_id: Seq<char>,
    options: Seq<(Seq<char>, Seq<char>)>,
    i: int,
)
    requires
        0 <= i < options.len(),
    ensures
        ({
            let b = permission_buttons(request_id, options);
            &&& b.len() == options.len()
            &&& b[i].0 == options[i].1
            &&& options[i].0.is_suffix_of(b[i].1)
            &&& occurs(b[i].1, request_id)
            &&& clicks_as(b[i].1, PermissionDecision::Allow)
        }),
{
    let b = permission_buttons(request_id, options);
    let data = "perm_opt:"@ + request_id + ":"@ + options[i].0;
    assert(b[i].1 == data);
    reveal_strlit("perm_opt:");
    reveal_strlit("perm_approve");
    reveal_strlit("perm_allow_all");
    reveal_strlit("perm_deny");
    reveal_strlit("perm_text:");
    assert("perm_opt:"@ =~= data.take(9));
    assert(data[5] == 'o');
    assert(!"perm_approve"@.is_prefix_of(data)) by {
        assert("perm_approve"@[5] == 'a');
    }
    assert(!"perm_allow_all"@.is_prefix_of(data)) by {
        assert("perm_allow_all"@[5] == 'a');
    }
    assert(!"perm_deny"@.is_prefix_of(data)) by {
        assert("perm_deny"@[5] == 'd');
    }
    assert(!"perm_text:"@.is_prefix_of(data)) by {
        assert("perm_text:"@[5] == 't');
    }
    law_answers_are_unambiguous("allow"@);
    assert(options[i].0 =~= data.skip(data.len() - options[i].0.len()));
    assert(data.subrange(9, (9 + request_id.len()) as int) =~= request_id);
    assert(occurs_at(data, request_id, 9));
}

/// Who is heard: no bot, nobody who is not on the list, and in a guild only who
/// addresses the bot, unless all are answered. A direct message with a text is
/// always heard, and so is a message in a guild that mentions the bot or comes
/// from the guild that was set up.
pub proof fn law_who_is_heard(
    data: Json,
    list: Option<Seq<Seq<char>>>,
    bot: Option<Seq<char>>,
    guild: Option<Seq<char>>,
    reply_all: bool,
)
    ensures
        ({
            let author = member(data, "author"@);
            let from = as_text(member_of(author, "id"@));
            let content = as_text(member(data, "content"@));
            let in_guild = as_text(member(data, "guild_id"@));
            let mentions = as_list(member(data, "mentions"@));
            let complete = from is Some && as_text(member(data, "id"@)) is Some && as_text(
                member(data, "channel_id"@),
            ) is Some && content is Some && content->0.len() > 0 && bot is None;
            let r = message_in(data, list, bot, guild, reply_all);
            &&& as_flag(member_of(author, "bot"@)) == Some(true) ==> r is None
            &&& list is Some && from is Some && !list->0.contains(from->0) ==> r is None
            &&& in_guild is Some && !reply_all && guild is None && mentions is None ==> r is None
            &&& in_guild is Some && !reply_all && guild is None && bot is None ==> r is None
            &&& complete && as_flag(member_of(author, "bot"@)) != Some(true) && (list is None
                || list->0.contains(from->0)) && (in_guild is None || reply_all || in_guild == guild)
                ==> r is Some
        }),
{
}

/// A message that mentions the bot in a guild is heard, though not all are
/// answered.
pub proof fn law_mention_addresses_the_bot(
    data: Json,
    bot: Seq<char>,
    guild: Option<Seq<char>>,
    mentions: Seq<Json>,
    i: int,
)
    requires
        as_list(member(data, "mentions"@)) == Some(mentions),
        0 <= i < mentions.len(),
        as_text(member(mentions[i], "id"@)) == Some(bot),
    ensures
        addressed(data, Some(bot), guild),
{
    assert(as_text(member(as_list(member(data, "mentions"@))->0[i], "id"@)) == Some(bot));
}

/// A message is taken over as it was sent: its author, its channel, where the
/// reply goes, and its text where it does not mention the bot. It is of a group
/// exactly where it stands in a guild.
pub proof fn law_message_is_taken_over(
    data: Json,
    list: Option<Seq<Seq<char>>>,
    bot: Option<Seq<char>>,
    guild: Option<Seq<char>>,
    reply_all: bool,
)
    requires
        message_in(data, list, bot, guild, reply_all) is Some,
    ensures
        ({
            let r = message_in(data, list, bot, guild, reply_all)->0;
            let content = as_text(member(data, "content"@))->0;
            &&& Some(r.from) == as_text(member_of(member(data, "author"@), "id"@))
            &&& Some(r.id) == as_text(member(data, "id"@))
            &&& r.channel_id == as_text(member(data, "channel_id"@))
            &&& r.is_group <==> as_text(member(data, "guild_id"@)) is Some
            &&& as_text(member(data, "content"@)) is Some
            &&& bot is None ==> r.text == content
            &&& bot is Some && !occurs(content, "<@"@ + bot->0 + ">"@) && !occurs(
                content,
                "<@!"@ + bot->0 + ">"@,
            ) ==> r.text == trimmed(content)
            &&& r.text.len() > 0
            &&& r.reply_ctx matches TargetModel::Discord(c) && Some(channel_of(c)) == r.channel_id
                && c.1 == Some(r.id)
        }),
{
    reveal_strlit("");
    assert(""@.len() == 0);
    let content = text_else(member(data, "content"@), ""@);
    if bot is Some && !occurs(content, "<@"@ + bot->0 + ">"@) && !occurs(
        content,
        "<@!"@ + bot->0 + ">"@,
    ) {
        law_nothing_to_replace(content, "<@"@ + bot->0 + ">"@, Seq::empty());
        law_nothing_to_replace(content, "<@!"@ + bot->0 + ">"@, Seq::empty());
    }
}

/// The mention that a message to the bot starts with is left out of its text.
pub proof fn law_mention_of_the_bot_is_left_out(bot: Seq<char>, rest: Seq<char>)
    requires
        !occurs(rest, "<@"@ + bot + ">"@),
        !occurs(rest, "<@!"@ + bot + ">"@),
    ensures
        without_bot("<@"@ + bot + ">"@ + rest, Some(bot)) == trimmed(rest),
{
    let p = "<@"@ + bot + ">"@;
    let q = "<@!"@ + bot + ">"@;
    let s = p + rest;
    reveal_strlit("<@");
    assert(s.subrange(0, p.len() as int) =~= p);
    assert(occurs_at(s, p, 0));
    assert(s.skip(p.len() as int) =~= rest);
    law_nothing_to_replace(rest, p, Seq::empty());
    assert(replaced(s, p, Seq::empty()) =~= rest);
    law_nothing_to_replace(rest, q, Seq::empty());
    assert(s =~= "<@"@ + bot + ">"@ + rest);
}

/// The name of a thread tells what it is about: it is the start of the message,
/// where that mentions nothing and has no control characters, of at most ninety
/// characters; it is never empty.
pub proof fn law_thread_is_named_by_its_message(content: Seq<char>)
    ensures
        0 < thread_title(content).len() <= 90,
        mentions_nothing(content) && (forall|i: int|
            0 <= i < content.len() ==> ' ' <= #[trigger] content[i] <= '~') && trimmed(
            content,
        ).len() > 0 ==> thread_title(content).is_prefix_of(trimmed(content)),
{
    reveal_strlit("session");
    if mentions_nothing(content) && (forall|i: int|
        0 <= i < content.len() ==> ' ' <= #[trigger] content[i] <= '~') {
        law_plain_text_is_unchanged(content);
        lemma_all_printable(content);
    }
}

proof fn lemma_all_printable(s: Seq<char>)
    requires
        forall|i: int| 0 <= i < s.len() ==> ' ' <= #[trigger] s[i] <= '~',
    ensures
        printable(s) == s,
    decreases s.len(),
{
    reveal(Seq::filter);
    if s.len() > 0 {
        let front = s.drop_last();
        assert forall|i: int| 0 <= i < front.len() implies ' ' <= #[trigger] front[i] <= '~' by {
            assert(front[i] == s[i]);
        }
        lemma_all_printable(front);
        let last = s[s.len() - 1];
        assert(' ' <= last <= '~');
        assert(s =~= front.push(last));
    } else {
        assert(printable(s) =~= s);
    }
}

/// A reply to a channel sends the whole text, in messages that Discord takes, to
/// the channel or to its thread, one after the other.
pub proof fn law_reply_sends_the_whole_text(
    m: DiscordModel,
    c: (Seq<char>, Option<Seq<char>>, Option<Seq<char>>),
    content: Seq<char>,
)
    ensures
        ({
            let r = reply_requests(m, TargetModel::Discord(c), content)->0;
            let place = if c.2 is Some {
                c.2->0
            } else {
                c.0
            };
            &&& reply_requests(m, TargetModel::Discord(c), content) is Some
            &&& r.map_values(|q: RequestModel| as_text(member(q.body->0, "content"@))->0).flatten()
                == content
            &&& forall|i: int|
                0 <= i < r.len() ==> ({
                    let q = #[trigger] r[i];
                    &&& q.method == Method::Post
                    &&& q.path == "/channels/"@ + place + "/messages"@
                    &&& q.body is Some && as_text(member(q.body->0, "content"@)) is Some
                    &&& as_text(member(q.body->0, "content"@))->0.len() <= 2000
                })
        }),
{
    let parts = chunks(content, MAX_MESSAGE as int);
    let r = reply_requests(m, TargetModel::Discord(c), content)->0;
    law_chunks_are_the_text(content, MAX_MESSAGE as int);
    law_chunks_are_within_the_limit(content, MAX_MESSAGE as int);
    let texts = r.map_values(|q: RequestModel| as_text(member(q.body->0, "content"@))->0);
    assert(texts =~= parts);
}

/// A message with buttons shows its text and each button with its label, and a
/// click on one brings its data back.
pub proof fn law_buttons_are_shown(text: Seq<char>, buttons: Seq<(Seq<char>, Seq<char>)>)
    ensures
        ({
            let j = buttons_json(text, buttons);
            let rows = as_list(member(j, "components"@));
            let row = as_list(member(rows->0[0], "components"@));
            &&& as_text(member(j, "content"@)) == Some(text)
            &&& rows is Some && rows->0.len() == 1
            &&& row is Some && row->0.len() == buttons.len()
            &&& forall|i: int|
                0 <= i < buttons.len() ==> ({
                    let b = #[trigger] row->0[i];
                    &&& as_text(member(b, "label"@)) == Some(buttons[i].0)
                    &&& buttons[i].1.len() > 0 ==> as_text(member(b, "custom_id"@)) == Some(
                        buttons[i].1,
                    )
                })
        }),
{
    reveal_strlit("content");
    reveal_strlit("components");
    reveal_strlit("type");
    reveal_strlit("style");
    reveal_strlit("label");
    reveal_strlit("custom_id");
    assert("content"@.len() == 7 && "components"@.len() == 10 && "type"@.len() == 4);
    assert("style"@.len() == 5 && "label"@.len() == 5 && "custom_id"@.len() == 9);
    assert("style"@[0] != "label"@[0]);
}

/// A reply that quotes says the same and names the message that it quotes.
pub proof fn law_quote_names_its_message(content: Seq<char>, message: Seq<char>)
    ensures
        as_text(member(quoting_json(content, message), "content"@)) == Some(content),
        as_text(
            member_of(member(quoting_json(content, message), "message_reference"@), "message_id"@),
        ) == Some(message),
        as_flag(
            member_of(member(quoting_json(content, message), "allowed_mentions"@), "replied_user"@),
        ) == Some(false),
{
    reveal_strlit("content");
    reveal_strlit("message_reference");
    reveal_strlit("allowed_mentions");
    assert("content"@.len() == 7 && "message_reference"@.len() == 17 && "allowed_mentions"@.len()
        == 16);
}

/// A slash command is handed on as it would be typed: the name behind a slash,
/// and the values of its options behind it, each after a space.
pub proof fn law_slash_command_is_typed_out(name: Seq<char>, options: Seq<Json>, value: Seq<char>)
    ensures
        command_text(name, None) == "/"@ + name,
        command_text(name, Some(Seq::empty())) == "/"@ + name,
        ("/"@ + name).is_prefix_of(command_text(name, Some(options))),
        options.len() > 0 && as_text(member(options.last(), "value"@)) == Some(value)
            ==> command_text(name, Some(options)) == command_text(name, Some(options.drop_last()))
            + " "@ + value,
{
    lemma_options_start("/"@ + name, options);
}

proof fn lemma_options_start(start: Seq<char>, options: Seq<Json>)
    ensures
        start.is_prefix_of(with_options(start, options)),
    decreases options.len(),
{
    if options.len() > 0 {
        lemma_options_start(start, options.drop_last());
        let before = with_options(start, options.drop_last());
        assert(start =~= before.take(start.len() as int));
        assert(start =~= with_options(start, options).take(start.len() as int));
    }
}

/// An interaction is acknowledged in the form that it needs (a command is
/// deferred, a click is not shown) and stands for a message of its author in its
/// channel, to which the answer goes.
pub proof fn law_interaction_becomes_a_message(data: Json)
    ensures
        ({
            let r = interaction_in(data);
            let kind = as_unsigned(member(data, "type"@));
            let user = as_text(member_of(member_of(member(data, "member"@), "user"@), "id"@));
            &&& r.message is Some ==> r.ack is Some
            &&& r.ack is Some ==> r.ack->0.method == Method::Post && r.ack->0.body is Some
            &&& r.ack is Some && kind == Some(2u64) ==> member(r.ack->0.body->0, "type"@) == Some(
                Json::Number(5),
            )
            &&& r.ack is Some && kind == Some(3u64) ==> member(r.ack->0.body->0, "type"@) == Some(
                Json::Number(6),
            )
            &&& kind != Some(2u64) && kind != Some(3u64) ==> r.ack is None && r.message is None
            &&& r.message is Some ==> ({
                let m = r.message->0;
                &&& user is Some ==> m.from == user->0
                &&& user is None ==> Some(m.from) == as_text(
                    member_of(member(data, "user"@), "id"@),
                )
                &&& Some(m.id) == as_text(member(data, "id"@))
                &&& m.channel_id == as_text(member(data, "channel_id"@))
                &&& m.reply_ctx matches TargetModel::Interaction(c) && Some(c.1) == as_text(
                    member(data, "token"@),
                ) && Some(c.2) == m.channel_id && !c.3
                &&& kind == Some(3u64) ==> Some(m.text) == click_text(
                    as_text(member_of(member(data, "data"@), "custom_id"@))->0,
                )
                &&& kind == Some(2u64) ==> ("/"@ + as_text(
                    member_of(member(data, "data"@), "name"@),
                )->0).is_prefix_of(m.text)
            })
        }),
{
    if let Some(name) = as_text(member_of(member(data, "data"@), "name"@)) {
        let options = as_list(member(member(data, "data"@)->0, "options"@));
        if options is Some {
            lemma_options_start("/"@ + name, options->0);
        }
    }
}

/// The name of a command in the menu holds only what Discord takes, in at most
/// thirty-two characters; a name that is like that already stays, with hyphens
/// for colons and underscores.
pub proof fn law_menu_names_are_taken(lower: Seq<char>)
    ensures
        slash_form(lower).len() <= 32,
        forall|i: int|
            0 <= i < slash_form(lower).len() ==> alphanumeric(#[trigger] slash_form(lower)[i])
                || slash_form(lower)[i] == '-',
        lower.len() <= 32 && (forall|i: int|
            0 <= i < lower.len() ==> (alphanumeric(#[trigger] lower[i]) && lower[i] != ':'
                && lower[i] != '_') || lower[i] == '-' || lower[i] == '_' || lower[i] == ':')
            ==> slash_form(lower).len() == lower.len() && (forall|i: int|
            0 <= i < lower.len() ==> #[trigger] slash_form(lower)[i] == if lower[i] == '_'
                || lower[i] == ':' {
                '-'
            } else {
                lower[i]
            }),
{
    let mapped = lower.map_values(|c: char| slash_char(c));
    let pred = |c: char| alphanumeric(c) || c == '-';
    let kept = mapped.filter(pred);
    assert forall|i: int| 0 <= i < slash_form(lower).len() implies alphanumeric(
        #[trigger] slash_form(lower)[i],
    ) || slash_form(lower)[i] == '-' by {
        mapped.lemma_filter_pred(pred, i);
        assert(slash_form(lower)[i] == kept[i]);
    }
    if forall|i: int|
        0 <= i < lower.len() ==> (alphanumeric(#[trigger] lower[i]) && lower[i] != ':' && lower[i]
            != '_') || lower[i] == '-' || lower[i] == '_' || lower[i] == ':' {
        assert forall|i: int| 0 <= i < mapped.len() implies pred(#[trigger] mapped[i]) by {
            assert(mapped[i] == slash_char(lower[i]));
        }
        lemma_all_kept(mapped, pred);
    }
}

proof fn lemma_all_kept(s: Seq<char>, pred: spec_fn(char) -> bool)
    requires
        forall|i: int| 0 <= i < s.len() ==> pred(#[trigger] s[i]),
    ensures
        s.filter(pred) == s,
    decreases s.len(),
{
    reveal(Seq::filter);
    if s.len() > 0 {
        let front = s.drop_last();
        assert forall|i: int| 0 <= i < front.len() implies pred(#[trigger] front[i]) by {
            assert(front[i] == s[i]);
        }
        lemma_all_kept(front, pred);
        assert(pred(s[s.len() - 1]));
        assert(s =~= front.push(s.last()));
    } else {
        assert(s.filter(pred) =~= s);
    }
}

/// Each command with a usable name stands in the menu, in the order of the list,
/// with its description.
pub proof fn law_menu_holds_the_commands(commands: Seq<(Seq<char>, Seq<char>)>)
    requires
        commands.len() > 0,
        slash_name(commands.last().0).len() > 0,
    ensures
        ({
            let menu = slash_menu(commands);
            let d = commands.last().1;
            &&& menu.len() == slash_menu(commands.drop_last()).len() + 1
            &&& menu.drop_last() == slash_menu(commands.drop_last())
            &&& as_text(member(menu.last(), "name"@)) == Some(slash_name(commands.last().0))
            &&& 0 < d.len() <= 100 ==> as_text(member(menu.last(), "description"@)) == Some(d)
            &&& d.len() == 0 ==> as_text(member(menu.last(), "description"@)) == Some("Command"@)
        }),
{
    reveal_strlit("name");
    reveal_strlit("description");
    reveal_strlit("options");
    assert("name"@.len() == 4 && "description"@.len() == 11 && "options"@.len() == 7);
    let menu = slash_menu(commands);
    assert(menu.drop_last() =~= slash_menu(commands.drop_last()));
}

/// A heartbeat carries the number of the last payload, and nothing where there
/// was none; each payload with a number renews it.
pub proof fn law_heartbeat_carries_the_sequence(m: DiscordModel, payload: Json, n: u64)
    ensures
        member(heartbeat_json(m.last_sequence), "op"@) == Some(Json::Number(1)),
        m.last_sequence >= 0 ==> member(heartbeat_json(m.last_sequence), "d"@) == Some(
            Json::Number(m.last_sequence),
        ),
        m.last_sequence < 0 ==> member(heartbeat_json(m.last_sequence), "d"@) == Some(Json::Null),
        as_unsigned(member(payload, "s"@)) == Some(n) && n <= i64::MAX ==> sequenced(
            m,
            payload,
        ).last_sequence == n,
        as_unsigned(member(payload, "s"@)) is None ==> sequenced(m, payload) == m,
{
    reveal_strlit("op");
    reveal_strlit("d");
    assert("op"@.len() != "d"@.len());
}

/// When the session opens it is noted who the bot is and how the session can be
/// resumed; a greeting without that opens a new session, with the token.
pub proof fn law_opened_session_can_be_resumed(
    g: GatewayModel,
    payload: Json,
    now: u64,
    bot: Seq<char>,
    sid: Seq<char>,
    url: Seq<char>,
)
    requires
        as_unsigned(member(payload, "op"@)) == Some(0u64),
        as_text(member(payload, "t"@)) == Some("READY"@),
        as_text(member_of(member_of(member(payload, "d"@), "user"@), "id"@)) == Some(bot),
        as_text(member_of(member(payload, "d"@), "session_id"@)) == Some(sid),
        as_text(member_of(member(payload, "d"@), "resume_gateway_url"@)) == Some(url),
    ensures
        ({
            let after = on_payload(g, payload, now).0;
            &&& after.connection.reached_ready
            &&& after.platform.bot_user_id == Some(bot)
            &&& after.platform.resume_state == Some((sid, url))
            &&& as_text(member_of(member(greeting_json(after.platform), "d"@), "session_id"@))
                == Some(sid)
            &&& as_text(member_of(member(greeting_json(after.platform), "d"@), "token"@)) == Some(
                g.platform.token,
            )
        }),
{
    reveal_strlit("op");
    reveal_strlit("d");
    reveal_strlit("token");
    reveal_strlit("session_id");
    reveal_strlit("seq");
    assert("op"@.len() == 2 && "d"@.len() == 1 && "token"@.len() == 5);
    assert("session_id"@.len() == 10 && "seq"@.len() == 3);
}

/// A new session is opened with the token, for guilds, their messages and what
/// these say.
pub proof fn law_new_session_is_opened(m: DiscordModel)
    requires
        m.resume_state is None,
    ensures
        member(greeting_json(m), "op"@) == Some(Json::Number(2)),
        as_text(member_of(member(greeting_json(m), "d"@), "token"@)) == Some(m.token),
        member_of(member(greeting_json(m), "d"@), "intents"@) == Some(
            Json::Number(1int + 512 + 32768),
        ),
{
    reveal_strlit("op");
    reveal_strlit("d");
    reveal_strlit("token");
    reveal_strlit("intents");
    reveal_strlit("properties");
    assert("op"@.len() == 2 && "d"@.len() == 1 && "token"@.len() == 5);
    assert("intents"@.len() == 7 && "properties"@.len() == 10);
}

/// What is asked for on a payload: a greeting is answered with heartbeats in the
/// interval that it names, a request for a heartbeat with one, a message is
/// delivered and a request to reconnect closes the connection, with the session
/// kept.
pub proof fn law_payloads_are_answered(g: GatewayModel, payload: Json, now: u64)
    ensures
        ({
            let op = as_unsigned(member(payload, "op"@));
            let (after, effect) = on_payload(g, payload, now);
            let interval = as_unsigned(
                member_of(member(payload, "d"@), "heartbeat_interval"@),
            );
            &&& op == Some(10u64) ==> effect is Greet
            &&& op == Some(10u64) && interval is Some ==> effect->Greet_1 == interval->0
            &&& op == Some(1u64) ==> effect is Send
            &&& op == Some(7u64) ==> effect == EffectModel::Close && after.platform.resume_state
                == g.platform.resume_state
            &&& op == Some(11u64) ==> effect == EffectModel::Nothing && !after.connection.ack_pending
            &&& after.platform.token == g.platform.token
            &&& after.connection.reached_ready || !g.connection.reached_ready
        }),
{
}

/// Another message is not taken for one that came before: what is dropped has an
/// id that came, and after two minutes a message is forgotten.
pub proof fn law_only_repeated_messages_are_dropped(
    g: GatewayModel,
    data: Json,
    now: u64,
    i: int,
)
    requires
        message_in(
            data,
            g.platform.allow_from,
            g.platform.bot_user_id,
            g.platform.guild_id,
            g.platform.group_reply_all,
        ) is Some,
        forall|k: int|
            0 <= k < g.connection.seen.len() ==> Some((#[trigger] g.connection.seen[k]).0)
                != as_text(member(data, "id"@)),
    ensures
        on_message(g, data, now).1 is Deliver,
        forgotten(0, 120_000_000_001),
        !forgotten(0, 120_000_000_000),
{
}

/// Pauses between attempts double, up to half a minute.
pub proof fn law_attempts_slow_down(secs: int)
    requires
        1 <= secs <= 30,
    ensures
        secs <= doubled(secs) <= 2 * secs,
        doubled(secs) <= 30,
        secs < 30 ==> secs < doubled(secs),
        doubled(secs) == 2 * secs || doubled(secs) == 30,
        pause_after(secs, false) == secs,
        pause_after(secs, true) == 1,
{
}

/// The buttons of a reminder mean what they say too, each under its own label.
pub proof fn law_reminder_click_means_what_its_button_says(i: int)
    requires
        0 <= i < reminder_buttons().len(),
    ensures
        ({
            let (label, data) = reminder_buttons()[i];
            &&& label == "👍 放行"@ ==> clicks_as(data, PermissionDecision::Allow)
            &&& label == "🚫 拦截"@ ==> clicks_as(data, PermissionDecision::Deny)
            &&& label == "⚡ 全部放行"@ ==> clicks_as(data, PermissionDecision::AllowAll)
            &&& label == "👍 放行"@ || label == "🚫 拦截"@ || label == "⚡ 全部放行"@
            &&& forall|j: int|
                0 <= j < reminder_buttons().len() && j != i ==> (
                #[trigger] reminder_buttons()[j]).0 != label
        }),
{
    reveal_strlit("👍 放行");
    reveal_strlit("🚫 拦截");
    reveal_strlit("⚡ 全部放行");
    assert("👍 放行"@.len() == 4 && "🚫 拦截"@.len() == 4 && "⚡ 全部放行"@.len() == 6);
    assert("👍 放行"@[0] != "🚫 拦截"@[0]);
    lemma_text_click("perm_text:allow"@, "allow"@);
    lemma_text_click("perm_text:deny"@, "deny"@);
    lemma_text_click("perm_text:allow_all"@, "allow_all"@);
    reveal_strlit("allow");
    reveal_strlit("deny");
    reveal_strlit("allow_all");
    reveal_strlit("perm_text:");
    reveal_strlit("perm_text:allow");
    reveal_strlit("perm_text:deny");
    reveal_strlit("perm_text:allow_all");
    assert("perm_text:allow"@ =~= "perm_text:"@ + "allow"@);
    assert("perm_text:deny"@ =~= "perm_text:"@ + "deny"@);
    assert("perm_text:allow_all"@ =~= "perm_text:"@ + "allow_all"@);
    assert("allow_all"@.len() == 9 && "allow"@.len() == 5 && "deny"@.len() == 4);
    law_answers_are_unambiguous("allow"@);
    law_answers_are_unambiguous("deny"@);
    law_answers_are_unambiguous("allow all"@);
}

/// A click on a button that carries a text says the text.
proof fn lemma_text_click(data: Seq<char>, text: Seq<char>)
    ensures
        data == "perm_text:"@ + text ==> click_text(data) == Some(
            if text == "allow_all"@ {
                "allow all"@
            } else {
                text
            },
        ),
{
    if data == "perm_text:"@ + text {
        reveal_strlit("perm_approve");
        reveal_strlit("perm_allow_all");
        reveal_strlit("perm_deny");
        reveal_strlit("perm_text:");
        assert(data[5] == 't');
        assert(!"perm_approve"@.is_prefix_of(data)) by {
            assert("perm_approve"@[5] == 'a');
        }
        assert(!"perm_allow_all"@.is_prefix_of(data)) by {
            assert("perm_allow_all"@[5] == 'a');
        }
        assert(!"perm_deny"@.is_prefix_of(data)) by {
            assert("perm_deny"@[5] == 'd');
        }
        assert("perm_text:"@ =~= data.take(10));
        assert(data.skip(10) =~= text);
    }
}

/// A context leads to the thread where there is one and to the channel
/// otherwise, that of an interaction to the channel it came from.
pub proof fn law_context_leads_to_its_channel(
    channel: Seq<char>,
    message: Option<Seq<char>>,
    thread: Seq<char>,
    id: Seq<char>,
    token: Seq<char>,
    answered: bool,
)
    ensures
        channel_in(TargetModel::Discord((channel, message, None))) == Some(channel),
        channel_in(TargetModel::Discord((channel, message, Some(thread)))) == Some(thread),
        channel_in(TargetModel::Interaction((id, token, channel, answered))) == Some(channel),
{
}

/// A click is answered at the interaction that its id names, with the token
/// behind the colon and the text as it is; an id without a colon cannot be
/// answered.
pub proof fn law_click_is_answered(id: Seq<char>, token: Seq<char>, text: Seq<char>)
    requires
        !id.contains(':'),
    ensures
        click_answer(id, text) is None,
        click_answer(id + seq![':'] + token, text) is Some,
        ({
            let q = click_answer(id + seq![':'] + token, text)->0;
            &&& q.method == Method::Post
            &&& occurs(q.path, "/"@ + id + "/"@ + token + "/"@)
            &&& q.body is Some
            &&& as_text(member_of(member(q.body->0, "data"@), "content"@)) == Some(text)
        }),
{
    let all = id + seq![':'] + token;
    assert forall|k: int| 0 <= k < id.len() implies #[trigger] all[k] != ':' && id[k] != ':' by {
        assert(id.contains(id[k]));
    }
    lemma_first_of(all, ':', id.len() as int);
    lemma_first_of(id, ':', id.len() as int);
    assert(all.take(id.len() as int) =~= id);
    assert(all.skip(id.len() as int + 1) =~= token);
    let q = click_answer(all, text)->0;
    reveal_strlit("/interactions/");
    reveal_strlit("/interactions");
    reveal_strlit("/callback");
    reveal_strlit("callback");
    reveal_strlit("/");
    reveal_strlit("type");
    reveal_strlit("data");
    reveal_strlit("content");
    reveal_strlit("flags");
    assert("/interactions/"@ =~= "/interactions"@ + "/"@);
    assert("/callback"@ =~= "/"@ + "callback"@);
    let mid = "/"@ + id + "/"@ + token + "/"@;
    assert(q.path =~= "/interactions"@ + mid + "callback"@);
    lemma_occurs_in("/interactions"@, mid, "callback"@);
    assert("type"@[0] != "data"@[0]);
    assert("content"@.len() != "flags"@.len());
}

/// The first heartbeat comes after half the interval, every other one after all
/// of it.
pub proof fn law_heart_beats_in_time(interval_ms: u64)
    ensures
        pause_before_beat(interval_ms, false) == interval_ms,
        interval_ms - 1 <= 2 * pause_before_beat(interval_ms, true) <= interval_ms,
{
}

/// Paths hold the ids they are about; the path of a message lies below that of
/// its channel's messages.
pub proof fn law_paths_hold_the_ids(channel: Seq<char>, message: Seq<char>)
    ensures
        ("/channels/"@ + channel).is_prefix_of(messages_path(channel)),
        ("/channels/"@ + channel).is_prefix_of(typing_at(channel)),
        messages_path(channel) != typing_at(channel),
        messages_path(channel).is_prefix_of(message_path(channel, message)),
        message.is_suffix_of(message_path(channel, message)),
{
    let c = "/channels/"@ + channel;
    let m = messages_path(channel);
    let t = typing_at(channel);
    let p = message_path(channel, message);
    reveal_strlit("/messages");
    reveal_strlit("/messages/");
    reveal_strlit("/typing");
    assert(c =~= m.take(c.len() as int));
    assert(c =~= t.take(c.len() as int));
    assert(m.len() != t.len());
    assert(m =~= p.take(m.len() as int));
    assert(message =~= p.skip(p.len() - message.len()));
}

/// A gateway is spoken to where it says it is.
pub proof fn law_gateway_is_where_it_says(url: Seq<char>)
    ensures
        url.is_prefix_of(gateway_at(url)),
        "v=10&encoding=json"@.is_suffix_of(gateway_at(url)),
{
    reveal_strlit("/?v=10&encoding=json");
    reveal_strlit("v=10&encoding=json");
    let g = gateway_at(url);
    assert(url =~= g.take(url.len() as int));
    assert("v=10&encoding=json"@ =~= g.skip(g.len() - "v=10&encoding=json"@.len()));
}

/// The menu is registered for the bot, in the guild that is set up or for all,
/// with every command in it.
pub proof fn law_menu_is_registered(
    m: DiscordModel,
    app_id: Seq<char>,
    commands: Seq<(Seq<char>, Seq<char>)>,
)
    ensures
        ({
            let q = menu_request_for(m, app_id, commands);
            &&& q.method == Method::Put
            &&& ("/applications/"@ + app_id + "/"@).is_prefix_of(q.path)
            &&& "/commands"@.is_suffix_of(q.path)
            &&& m.guild_id is Some ==> occurs(q.path, "/guilds/"@ + m.guild_id->0 + "/commands"@)
            &&& m.guild_id is None ==> q.path == "/applications/"@ + app_id + "/commands"@
            &&& q.body == Some(Json::List(slash_menu(commands)))
        }),
{
    let q = menu_request_for(m, app_id, commands);
    reveal_strlit("/");
    reveal_strlit("/guilds/");
    reveal_strlit("/commands");
    let start = "/applications/"@ + app_id + "/"@;
    assert(start =~= q.path.take(start.len() as int));
    assert("/commands"@ =~= q.path.skip(q.path.len() - 9));
    if m.guild_id is Some {
        let mid = "/guilds/"@ + m.guild_id->0 + "/commands"@;
        let none = Seq::<char>::empty();
        assert(q.path =~= ("/applications/"@ + app_id) + mid + none);
        lemma_occurs_in("/applications/"@ + app_id, mid, none);
    }
}

} // verus!
