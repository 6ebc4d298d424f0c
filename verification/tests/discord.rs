use agentbridge::discord::{
    api_result, beat_wait, chunk_message, gateway_url, jittered_ms, move_to_thread, next_backoff,
    fit_for_slash, parse_interaction, parse_message_create, slash_command_name, strip_mentions,
    text_of_click,
    thread_name, thread_request, Backoff, Beat, Connection, DiscordOptions, DiscordPlatform,
    DiscordPreviewHandle, DiscordReplyCtx, Effect, InteractionReplyCtx,
};
use agentbridge::message::IncomingMessage;
use agentbridge::platform::{
    AnyHandle, BotCommand, Button, Platform, PlatformCapabilities, PreviewHandle, ReplyCtx,
    ReplyTarget,
};
use agentbridge::rest::Method;
use agentbridge::telegram::TelegramReplyCtx;
use serde_json::Value;

fn json(text: &str) -> Value {
    serde_json::from_str(text).unwrap()
}

#[test]
fn strip_user_mention() {
    assert_eq!(strip_mentions("<@123456> hello"), " hello");
}

#[test]
fn strip_nickname_mention() {
    assert_eq!(strip_mentions("<@!789> hi"), " hi");
}

#[test]
fn strip_role_mention() {
    assert_eq!(strip_mentions("<@&999> team"), " team");
}

#[test]
fn strip_channel_mention() {
    assert_eq!(strip_mentions("<#general> check this"), " check this");
}

#[test]
fn strip_multiple_mentions() {
    assert_eq!(strip_mentions("<@111> <@222> please help"), "  please help");
}

#[test]
fn preserve_non_mention_angle_brackets() {
    assert_eq!(strip_mentions("a < b > c"), "a < b > c");
    assert_eq!(strip_mentions("<not_a_mention>"), "<not_a_mention>");
}

#[test]
fn plain_text_unchanged() {
    assert_eq!(strip_mentions("hello world"), "hello world");
}

#[test]
fn empty_string() {
    assert_eq!(strip_mentions(""), "");
}

#[test]
fn unclosed_brackets_stay() {
    assert_eq!(strip_mentions("a <@12"), "a <@12");
    assert_eq!(strip_mentions("<> <@1>x"), "<> x");
    assert_eq!(strip_mentions("1 < 2 <@5>"), "1 < 2 ");
    assert_eq!(strip_mentions("a<<#c>b>"), "a<b>");
}

fn options(token: &str) -> DiscordOptions {
    DiscordOptions {
        token: token.to_string(),
        allow_from: None,
        guild_id: None,
        group_reply_all: false,
        thread_isolation: true,
    }
}

#[test]
fn factory_creates_platform() {
    let mut opts = options("test-token-123");
    opts.guild_id = Some("999".to_string());
    let platform = DiscordPlatform::new(opts);
    assert_eq!(platform.name(), "discord");
}

#[test]
fn factory_with_allow_from() {
    let mut opts = options("tok");
    opts.allow_from = Some("user1,user2".to_string());
    let platform = DiscordPlatform::new(opts);
    assert_eq!(platform.name(), "discord");
}

#[test]
fn factory_wildcard_allow() {
    let mut opts = options("tok");
    opts.allow_from = Some("*".to_string());
    let platform = DiscordPlatform::new(opts);
    assert_eq!(platform.name(), "discord");
}

#[test]
fn capabilities_all_present() {
    let p = DiscordPlatform::new(options("t"));
    assert!(p.as_message_updater());
    assert!(p.as_image_sender());
    assert!(p.as_inline_button_sender());
    assert!(p.as_typing_indicator());
    assert!(!p.as_file_sender());
    assert!(!p.renders_markdown());
    assert_eq!(p.authorization(), "Bot t");
}

fn ctx(thread: Option<&str>) -> DiscordReplyCtx {
    DiscordReplyCtx {
        channel_id: "ch1".into(),
        message_id: None,
        thread_id: thread.map(|t| t.to_string()),
    }
}

#[test]
fn resolve_channel_from_discord_ctx() {
    assert_eq!(DiscordPlatform::resolve_channel_id(&ctx(None)).unwrap(), "ch1");
}

#[test]
fn resolve_channel_prefers_thread_id() {
    assert_eq!(DiscordPlatform::resolve_channel_id(&ctx(Some("th1"))).unwrap(), "th1");
}

fn interaction(token: &str) -> InteractionReplyCtx {
    InteractionReplyCtx {
        interaction_id: "i1".into(),
        interaction_token: token.into(),
        channel_id: "ch2".into(),
        first_response_sent: false,
    }
}

#[test]
fn resolve_channel_from_interaction_ctx() {
    assert_eq!(DiscordPlatform::resolve_channel_id(&interaction("tok")).unwrap(), "ch2");
}

fn foreign() -> ReplyTarget {
    ReplyTarget::Telegram(TelegramReplyCtx { chat_id: 1, thread_id: None, message_id: None })
}

#[test]
fn other_contexts_are_refused() {
    assert_eq!(
        DiscordPlatform::resolve_channel_id(&foreign()),
        Err("discord: unsupported ReplyCtx type".to_string())
    );
    let mut p = DiscordPlatform::new(options("t"));
    assert!(p.reply(&foreign(), "x").is_err());
    assert!(p.reply_quoted(&foreign(), "x").is_err());
}

#[test]
fn contexts_are_keyed_and_copied() {
    assert_eq!(ctx(Some("th")).session_key_hint(), "discord:th");
    assert_eq!(interaction("t").session_key_hint(), "discord:ch2");
    let copy = ctx(Some("th")).clone_box();
    assert_eq!(copy.session_key_hint(), "discord:th");
    let handle = DiscordPreviewHandle { channel_id: "c".into(), message_id: "m".into() };
    assert!(matches!(handle.as_any(), AnyHandle::Discord(h) if h.message_id == "m"));
}

#[test]
fn parse_message_ignores_bots() {
    let data = json(
        r#"{"author": {"id": "1", "bot": true}, "content": "hello", "channel_id": "c1", "id": "m1"}"#,
    );
    assert!(parse_message_create(&data, &None, None, None, false).is_none());
}

fn dm() -> Value {
    json(
        r#"{"author": {"id": "user1", "username": "bob"}, "content": "hello", "channel_id": "dm1", "id": "m1"}"#,
    )
}

#[test]
fn parse_message_dm() {
    let msg = parse_message_create(&dm(), &None, None, None, false).unwrap();
    assert_eq!(msg.text, "hello");
    assert_eq!(msg.from, "user1");
    assert!(!msg.is_group);
    assert_eq!(msg.from_name.as_deref(), Some("bob"));
    assert_eq!(msg.channel_id.as_deref(), Some("dm1"));
}

fn guild(content: &str, mentions: &str) -> Value {
    json(&format!(
        r#"{{"author": {{"id": "user1", "username": "bob"}}, "content": "{}", "channel_id": "c1",
            "id": "m1", "guild_id": "g1", "mentions": {}}}"#,
        content, mentions
    ))
}

#[test]
fn parse_message_guild_requires_mention() {
    let data = guild("hello", "[]");
    // No mention, no matching guild -- should be None.
    assert!(parse_message_create(&data, &None, Some("bot1"), None, false).is_none());
    assert!(parse_message_create(&data, &None, Some("bot1"), Some("g1"), false).is_some());
    assert!(parse_message_create(&data, &None, Some("bot1"), None, true).is_some());
}

#[test]
fn parse_message_guild_with_mention() {
    let data = guild("<@bot1> do something", r#"[{"id": "bot1"}]"#);
    let msg = parse_message_create(&data, &None, Some("bot1"), None, false).unwrap();
    assert_eq!(msg.text, "do something");
    assert!(msg.is_group);
}

#[test]
fn parse_message_allow_from_blocks() {
    let allowed = vec!["allowed_user".to_string()];
    let data = json(
        r#"{"author": {"id": "other_user", "username": "eve"}, "content": "hello", "channel_id": "c1", "id": "m1"}"#,
    );
    assert!(parse_message_create(&data, &Some(allowed), None, None, false).is_none());
}

#[test]
fn a_mention_alone_says_nothing() {
    let data = guild("<@!bot1> ", r#"[{"id": "bot1"}]"#);
    assert!(parse_message_create(&data, &None, Some("bot1"), None, false).is_none());
}

#[test]
fn chunks_fit_and_keep_the_text() {
    assert_eq!(chunk_message("short", 2000), vec!["short"]);
    let text = format!("{}\n{}", "a".repeat(1500), "b".repeat(1500));
    let parts = chunk_message(&text, 2000);
    assert_eq!(parts.len(), 2);
    assert!(parts[0].ends_with('\n'));
    let wide = "字".repeat(2500);
    let parts = chunk_message(&wide, 2000);
    assert_eq!(parts.len(), 2);
    assert!(parts.iter().all(|p| p.chars().count() <= 2000));
    assert_eq!(parts.concat(), wide);
    assert_eq!(chunk_message("你好", 4), vec!["你好"]);
    assert_eq!(chunk_message("ab\ncd", 4), vec!["ab\n", "cd"]);
    assert_eq!(chunk_message("abcdef", 4), vec!["abcd", "ef"]);
    assert_eq!(chunk_message("", 4), vec![""]);
    assert_eq!(chunk_message("字", 0), vec!["字"]);
}

#[test]
fn thread_names() {
    assert_eq!(thread_name("<@1> fix \u{7}it"), "fix it");
    assert_eq!(thread_name(" <@1> "), "session");
    assert_eq!(thread_name(&"字".repeat(100)), "字".repeat(90));
}

#[test]
fn replies_are_requests() {
    let mut p = DiscordPlatform::new(options("t"));
    let target = ReplyTarget::Discord(ctx(Some("th")));
    let sent = p.reply(&target, &"x".repeat(2500)).unwrap();
    assert_eq!(sent.len(), 2);
    assert_eq!(sent[0].method, Method::Post);
    assert_eq!(sent[0].path, "/channels/th/messages");
    assert_eq!(sent[1].body.as_ref().unwrap()["content"], "x".repeat(500));
    let mut quoted = ctx(None);
    quoted.message_id = Some("m9".to_string());
    let (first, rest) = p.reply_quoted(&ReplyTarget::Discord(quoted), "hi").unwrap();
    let body = first.unwrap().body.unwrap();
    assert_eq!(body["message_reference"]["message_id"], "m9");
    assert_eq!(body["allowed_mentions"]["replied_user"], false);
    assert_eq!(rest.len(), 1);
    assert_eq!(rest[0].body, Some(json(r#"{"content":"hi"}"#)));
}

#[test]
fn interactions_are_answered_in_place_first() {
    let mut p = DiscordPlatform::new(options("t"));
    let target = ReplyTarget::Interaction(interaction("tok"));
    let copy = *target.clone_box();
    let first = p.reply(&target, "one").unwrap();
    assert_eq!(first[0].method, Method::Patch);
    assert_eq!(first[0].path, "/webhooks//tok/messages/@original");
    let second = p.reply(&copy, "two").unwrap();
    assert_eq!(second[0].method, Method::Post);
    assert_eq!(second[0].path, "/webhooks//tok");
    let (none, other) = p
        .reply_quoted(&ReplyTarget::Interaction(interaction("tok2")), "three")
        .unwrap();
    assert!(none.is_none());
    assert_eq!(other[0].method, Method::Patch);
}

#[test]
fn previews_are_edited_and_deleted() {
    let q = DiscordPlatform::plain_message("c", "text");
    assert_eq!(q.path, "/channels/c/messages");
    let handle =
        DiscordPlatform::sent_handle("c".to_string(), &json(r#"{"id":"m1"}"#), "send_preview")
            .unwrap();
    let update = DiscordPlatform::update_message(&handle, "new");
    assert_eq!(update.method, Method::Patch);
    assert_eq!(update.path, "/channels/c/messages/m1");
    let delete = DiscordPlatform::delete_message(&handle);
    assert_eq!(delete.method, Method::Delete);
    assert!(delete.body.is_none());
    assert_eq!(
        DiscordPlatform::sent_handle("c".to_string(), &json("{}"), "button").err(),
        Some("discord: no message id in button response".to_string())
    );
    assert_eq!(DiscordPlatform::typing_path("c"), "/channels/c/typing");
}

#[test]
fn buttons_and_their_answers() {
    let buttons = vec![
        Button { text: "A".to_string(), callback_data: "perm_approve:1".to_string() },
        Button { text: "B".to_string(), callback_data: "".to_string() },
    ];
    let body = DiscordPlatform::message_with_buttons("c", "ask", &buttons).body.unwrap();
    let row = &body["components"][0]["components"];
    assert_eq!(row[0]["custom_id"], "perm_approve:1");
    assert_eq!(row[1]["custom_id"], "btn_1");
    assert_eq!(row[1]["type"], 2);
    let answer = DiscordPlatform::callback_answer("i1:tok:x", "done").unwrap();
    assert_eq!(answer.path, "/interactions/i1/tok:x/callback");
    assert_eq!(answer.body.unwrap(), json(r#"{"type":4,"data":{"content":"done","flags":64}}"#));
    assert_eq!(
        DiscordPlatform::callback_answer("nocolon", "x").err(),
        Some("discord: invalid callback_id format, expected 'id:token'".to_string())
    );
}

#[test]
fn responses_of_the_interface() {
    assert_eq!(api_result(true, "200 OK", ""), Ok(Value::Null));
    assert_eq!(api_result(true, "200 OK", "{}"), Ok(json("{}")));
    assert_eq!(
        api_result(true, "200 OK", "oops"),
        Err("Failed to parse Discord API response".to_string())
    );
    assert_eq!(
        api_result(false, "404 Not Found", "gone"),
        Err("Discord API error 404 Not Found: gone".to_string())
    );
}

#[test]
fn commands_get_names_that_discord_takes() {
    assert_eq!(slash_command_name("My:Skill_X!"), "my-skill-x");
    assert_eq!(slash_command_name("!!"), "");
    assert_eq!(slash_command_name(&"A".repeat(40)), "a".repeat(32));
    let mut opts = options("t");
    opts.guild_id = Some("g".to_string());
    let p = DiscordPlatform::new(opts);
    let commands = vec![
        BotCommand { name: "Do".to_string(), description: "".to_string() },
        BotCommand { name: "!".to_string(), description: "x".to_string() },
    ];
    let q = p.register_commands("app", &commands);
    assert_eq!(q.method, Method::Put);
    assert_eq!(q.path, "/applications/app/guilds/g/commands");
    let menu = q.body.unwrap();
    assert_eq!(menu.as_array().unwrap().len(), 1);
    assert_eq!(menu[0]["name"], "do");
    assert_eq!(menu[0]["description"], "Command");
    assert_eq!(menu[0]["options"][0]["name"], "args");
    let global = DiscordPlatform::new(options("t")).register_commands("app", &vec![]);
    assert_eq!(global.path, "/applications/app/commands");
}

#[test]
fn threads_take_the_conversation() {
    let data = guild("<@bot1> fix it", "[]");
    let request = thread_request(&data).unwrap();
    assert_eq!(request.path, "/channels/c1/messages/m1/threads");
    assert_eq!(request.body.unwrap(), json(r#"{"name":"fix it","auto_archive_duration":1440}"#));
    assert!(thread_request(&dm()).is_none());
    let msg = parse_message_create(&data, &None, None, None, true).unwrap();
    let moved = move_to_thread(msg, &json(r#"{"id":"th1","name":"fix it"}"#));
    assert_eq!(moved.channel_id.as_deref(), Some("th1"));
    assert_eq!(moved.channel_name.as_deref(), Some("fix it"));
    assert_eq!(moved.reply_ctx.session_key_hint(), "discord:th1");
    let msg = parse_message_create(&data, &None, None, None, true).unwrap();
    assert_eq!(move_to_thread(msg, &json("{}")).channel_id.as_deref(), Some("c1"));
}

#[test]
fn clicks_are_words() {
    assert_eq!(text_of_click("perm_approve:1").as_deref(), Some("allow"));
    assert_eq!(text_of_click("perm_allow_all:1").as_deref(), Some("allow all"));
    assert_eq!(text_of_click("perm_deny:1").as_deref(), Some("deny"));
    assert_eq!(text_of_click("perm_text:allow_all").as_deref(), Some("allow all"));
    assert_eq!(text_of_click("perm_text:maybe").as_deref(), Some("maybe"));
    assert_eq!(text_of_click("perm_opt:1:2").as_deref(), Some("allow"));
    assert_eq!(text_of_click("btn_0"), None);
}

fn interacting(kind: u32, data: &str) -> Value {
    json(&format!(
        r#"{{"type": {}, "id": "i1", "token": "tok", "channel_id": "c1",
            "member": {{"user": {{"id": "u1"}}}}, "data": {}}}"#,
        kind, data
    ))
}

#[test]
fn interactions_become_messages() {
    let slash = parse_interaction(&interacting(
        2,
        r#"{"name":"model","options":[{"value":"a"},{"value":3},{"value":"b"}]}"#,
    ));
    let msg: IncomingMessage = slash.message.unwrap();
    assert_eq!(msg.text, "/model a b");
    assert_eq!(msg.from, "u1");
    let ack = slash.ack.unwrap();
    assert_eq!(ack.path, "/interactions/i1/tok/callback");
    assert_eq!(ack.body.unwrap(), json(r#"{"type":5}"#));
    let click = parse_interaction(&interacting(3, r#"{"custom_id":"perm_deny:9"}"#));
    assert_eq!(click.message.unwrap().text, "deny");
    assert_eq!(click.ack.unwrap().body.unwrap(), json(r#"{"type":6}"#));
    let unknown = parse_interaction(&interacting(3, r#"{"custom_id":"zzz"}"#));
    assert!(unknown.message.is_none());
    assert!(unknown.ack.is_some());
    let other = parse_interaction(&interacting(1, "{}"));
    assert!(other.message.is_none() && other.ack.is_none());
}

const READY: &str = r#"{"op":0,"s":5,"t":"READY","d":{"user":{"id":"bot1"},"session_id":"sid","resume_gateway_url":"wss://r"}}"#;

fn ready() -> (DiscordPlatform, Connection) {
    let (p, c, e) = DiscordPlatform::new(options("tok")).on_text(Connection::new(), READY, 0);
    assert!(matches!(e, Effect::Nothing));
    (p, c)
}

fn greeting(p: DiscordPlatform) -> (DiscordPlatform, Value) {
    let (p, _, e) = p.on_text(
        Connection::new(),
        r#"{"op":10,"d":{"heartbeat_interval":1000}}"#,
        0,
    );
    match e {
        Effect::Greet(v, interval) => {
            assert_eq!(interval, 1000);
            (p, v)
        }
        _ => panic!("expected a greeting"),
    }
}

#[test]
fn sessions_are_opened_and_resumed() {
    let (_, hello) = greeting(DiscordPlatform::new(options("tok")));
    assert_eq!(hello["op"], 2);
    assert_eq!(hello["d"]["intents"], 33281);
    assert_eq!(hello["d"]["token"], "tok");
    let (p, c) = ready();
    assert!(c.reached_ready());
    assert_eq!(p.bot_user_id().as_deref(), Some("bot1"));
    assert_eq!(p.resume_url().as_deref(), Some("wss://r/?v=10&encoding=json"));
    let (p, hello) = greeting(p);
    assert_eq!(hello, json(r#"{"op":6,"d":{"token":"tok","session_id":"sid","seq":5}}"#));
    // The server asks for a reconnect: the session can still be resumed.
    let (p, c, e) = p.on_text(Connection::new(), r#"{"op":7}"#, 0);
    assert!(matches!(e, Effect::Close));
    assert!(p.resume_url().is_some());
    let (p, c, _) = p.on_text(c, r#"{"op":9,"d":true}"#, 0);
    assert!(p.resume_url().is_some());
    // The session is invalid: the next one is a new one.
    let (p, _, e) = p.on_text(c, r#"{"op":9,"d":false}"#, 0);
    assert!(matches!(e, Effect::Close));
    assert!(p.resume_url().is_none());
    let (_, hello) = greeting(p);
    assert_eq!(hello["op"], 2);
}

#[test]
fn resumed_connections_are_live() {
    let (p, _) = ready();
    let (_, c, _) = p.on_text(Connection::new(), r#"{"op":0,"t":"RESUMED"}"#, 0);
    assert!(c.reached_ready());
    assert!(!Connection::new().reached_ready());
}

#[test]
fn heartbeats_carry_the_sequence() {
    let (p, c) = ready();
    let (c, beat) = p.beat(c);
    match beat {
        Beat::Send(v) => assert_eq!(v, json(r#"{"op":1,"d":5}"#)),
        Beat::Dead => panic!("expected a heartbeat"),
    }
    let (c, beat) = p.beat(c);
    assert!(matches!(beat, Beat::Dead));
    let (p, c, _) = p.on_text(c, r#"{"op":11}"#, 0);
    let (_, beat) = p.beat(c);
    assert!(matches!(beat, Beat::Send(_)));
    let (_, _, e) =
        DiscordPlatform::new(options("t")).on_text(Connection::new(), r#"{"op":1}"#, 0);
    match e {
        Effect::Send(v) => assert_eq!(v, json(r#"{"op":1,"d":null}"#)),
        _ => panic!("expected a heartbeat"),
    }
}

const MESSAGE: &str = r#"{"op":0,"t":"MESSAGE_CREATE","d":{"author":{"id":"u"},"content":"hi","channel_id":"c","id":"m1"}}"#;

#[test]
fn messages_are_delivered_once() {
    let (p, c) = ready();
    let (p, c, e) = p.on_text(c, MESSAGE, 1_000);
    match e {
        Effect::Deliver(m, thread) => {
            assert_eq!(m.text, "hi");
            assert!(thread.is_none());
        }
        _ => panic!("expected a message"),
    }
    let (p, c, e) = p.on_text(c, MESSAGE, 2_000);
    assert!(matches!(e, Effect::Nothing));
    // Long after, once another one came, it counts as new.
    let later = 1_000 + 120_000_000_001;
    let other = MESSAGE.replace("m1", "m2");
    let (p, c, _) = p.on_text(c, &other, later);
    let (_, _, e) = p.on_text(c, MESSAGE, later);
    assert!(matches!(e, Effect::Deliver(_, _)));
}

#[test]
fn guild_messages_ask_for_a_thread() {
    let (p, c) = ready();
    let text = r#"{"op":0,"t":"MESSAGE_CREATE","d":{"author":{"id":"u"},"content":"<@bot1> hi","channel_id":"c","id":"m1","guild_id":"g","mentions":[{"id":"bot1"}]}}"#;
    let (p, c, e) = p.on_text(c, text, 0);
    assert!(matches!(e, Effect::Deliver(_, Some(_))));
    let (p, c, e) = p.on_text(c, "not json", 0);
    assert!(matches!(e, Effect::Nothing));
    let slash = r#"{"op":0,"t":"INTERACTION_CREATE","d":{"type":2,"id":"i","token":"t","channel_id":"c","user":{"id":"u"},"data":{"name":"help"}}}"#;
    match p.on_text(c, slash, 0).2 {
        Effect::Interact(i) => assert_eq!(i.message.unwrap().text, "/help"),
        _ => panic!("expected an interaction"),
    }
}

#[test]
fn pauses_between_attempts() {
    assert_eq!(next_backoff(1), 2);
    assert_eq!(next_backoff(16), 30);
    assert_eq!(next_backoff(30), 30);
    let mut b = Backoff::new();
    assert_eq!([b.failed(), b.failed(), b.failed()], [1, 2, 4]);
    assert_eq!(b.disconnected(false), 8);
    assert_eq!(b.disconnected(true), 1);
    assert_eq!(b.failed(), 2);
    assert_eq!(jittered_ms(10, 0), 8000);
    assert_eq!(jittered_ms(10, 3999), 11999);
    assert_eq!(jittered_ms(10, 4000), 8000);
    assert_eq!(jittered_ms(0, 7), 0);
}

#[test]
fn the_gateway_is_asked_for() {
    assert_eq!(
        gateway_url(&json(r#"{"url":"wss://g"}"#)),
        Ok("wss://g/?v=10&encoding=json".to_string())
    );
    assert_eq!(gateway_url(&json("{}")), Err("No gateway URL in response".to_string()));
}

#[test]
fn lowercase_names_fit_the_menu() {
    assert_eq!(fit_for_slash("git_commit: all"), "git-commit-all");
}

#[test]
fn answered_interactions_can_be_forgotten() {
    let mut p = DiscordPlatform::new(options("t"));
    let (one, two) = (interaction("one"), interaction("two"));
    let (one, two) = (ReplyTarget::Interaction(one), ReplyTarget::Interaction(two));
    p.reply(&one, "x").unwrap();
    p.reply(&two, "x").unwrap();
    p.forget_interaction("one");
    assert_eq!(p.reply(&one, "x").unwrap()[0].method, Method::Patch);
    assert_eq!(p.reply(&two, "x").unwrap()[0].method, Method::Post);
}

#[test]
fn the_menu_waits_for_the_bot() {
    let p = DiscordPlatform::new(options("t"));
    assert!(p.menu_request(&vec![], 1).unwrap().is_none());
    assert!(p.menu_request(&vec![], 30).unwrap().is_none());
    assert_eq!(
        p.menu_request(&vec![], 31).err().unwrap(),
        "discord: timed out waiting for READY to register commands"
    );
    let (p, _, _) = p.on_text(Connection::new(), READY, 0);
    let q = p.menu_request(&vec![], 31).unwrap().unwrap();
    assert_eq!(q.path, p.register_commands("bot1", &vec![]).path);
}

#[test]
fn the_first_heartbeat_comes_early() {
    assert_eq!(beat_wait(41250, true), 20625);
    assert_eq!(beat_wait(41250, false), 41250);
}
